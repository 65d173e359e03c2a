//! The built-in help responder: sorted listings of the registered
//! handlers, one for the all-channels scope and one per channel.
use vstd::prelude::*;
use crate::handler::{HandlerInfo, HandlerView, views};
use crate::text::{lex_le, lemma_lex_le_total, lemma_lex_le_trans, str_eq, str_le, strs};

verus! {

broadcast use vstd::seq_lib::group_to_multiset_ensures;

/// Ascending lexicographic order.
pub open spec fn sorted(s: Seq<Seq<char>>) -> bool {
    forall|i: int, j: int| 0 <= i < j < s.len() ==> lex_le(#[trigger] s[i], #[trigger] s[j])
}

/// The help line of a handler: its name in backquotes, then its description.
pub open spec fn help_entry(h: HandlerView) -> Seq<char> {
    "`"@ + h.name + "`: "@ + h.description
}

/// Help lines of the all-channels handlers, in registration order.
pub open spec fn global_entries(hs: Seq<HandlerView>) -> Seq<Seq<char>>
    decreases hs.len(),
{
    if hs.len() == 0 {
        Seq::empty()
    } else if hs.last().for_all_channels() {
        global_entries(hs.drop_last()).push(help_entry(hs.last()))
    } else {
        global_entries(hs.drop_last())
    }
}

/// Help lines of the handlers scoped to channel `c`, in registration order.
pub open spec fn channel_entries(hs: Seq<HandlerView>, c: Seq<char>) -> Seq<Seq<char>>
    decreases hs.len(),
{
    if hs.len() == 0 {
        Seq::empty()
    } else if hs.last().scoped_in(c) {
        channel_entries(hs.drop_last(), c).push(help_entry(hs.last()))
    } else {
        channel_entries(hs.drop_last(), c)
    }
}

/// Each line preceded by a newline and a bullet.
pub open spec fn bullets(s: Seq<Seq<char>>) -> Seq<char>
    decreases s.len(),
{
    if s.len() == 0 {
        Seq::empty()
    } else {
        bullets(s.drop_last()) + "\n\u{2022} "@ + s.last()
    }
}

/// The line that names an unknown command; none for an empty name or for
/// `help` itself.
pub open spec fn unknown_notice(unknown: Option<Seq<char>>) -> Seq<char> {
    match unknown {
        Some(n) => if n.len() > 0 && n != "help"@ {
            "Unknown command: `"@ + n + "`\n"@
        } else {
            Seq::empty()
        },
        None => Seq::empty(),
    }
}

/// The whole help message.
pub open spec fn help_text(
    global: Seq<Seq<char>>,
    channel: Seq<Seq<char>>,
    unknown: Option<Seq<char>>,
) -> Seq<char> {
    unknown_notice(unknown) + "Available commands:\n\u{2022} `"@ + "help"@ + "`: "@
        + "Prints this help message"@ + bullets(global + channel)
}

pub open spec fn opt_view(o: Option<&str>) -> Option<Seq<char>> {
    match o {
        Some(s) => Some(s@),
        None => None,
    }
}

proof fn lemma_bullets_concat(a: Seq<Seq<char>>, b: Seq<Seq<char>>)
    ensures
        bullets(a + b) == bullets(a) + bullets(b),
    decreases b.len(),
{
    if b.len() == 0 {
        assert(a + b =~= a);
        assert(bullets(a) + bullets(b) =~= bullets(a));
    } else {
        lemma_bullets_concat(a, b.drop_last());
        assert((a + b).drop_last() =~= a + b.drop_last());
        assert(bullets(a) + bullets(b) =~= bullets(a) + bullets(b.drop_last()) + "\n\u{2022} "@ + b.last());
    }
}

/// Formats the help line of a handler.
fn format_entry(h: &HandlerInfo) -> (r: String)
    ensures
        r@ == help_entry(h@),
{
    let mut s = String::from_str("`");
    s.append(h.name.as_str());
    s.append("`: ");
    s.append(h.description.as_str());
    s
}

/// Inserts `x` into a sorted list, keeping it sorted.
fn insert_sorted(v: &mut Vec<String>, x: String)
    requires
        sorted(strs(old(v)@)),
    ensures
        sorted(strs(final(v)@)),
        strs(final(v)@).to_multiset() == strs(old(v)@).to_multiset().insert(x@),
{
    let ghost s0 = strs(v@);
    let mut k: usize = 0;
    while k < v.len() && str_le(v[k].as_str(), x.as_str())
        invariant
            k <= v@.len(),
            s0 == strs(v@),
            forall|i: int| 0 <= i < k ==> lex_le(s0[i], x@),
        decreases v@.len() - k,
    {
        k += 1;
    }
    let ghost xv = x@;
    v.insert(k, x);
    proof {
        let s1 = strs(v@);
        assert(s1 =~= s0.insert(k as int, xv));
        vstd::seq_lib::to_multiset_insert(s0, k as int, xv);
        if k < s0.len() {
            lemma_lex_le_total(s0[k as int], xv);
        }
        assert forall|a: int, b: int| 0 <= a < b < s1.len() implies lex_le(#[trigger] s1[a], #[trigger] s1[b]) by {
            if b < k {
                assert(lex_le(s0[a], s0[b]));
            } else if b == k {
                assert(lex_le(s0[a], xv));
            } else if a == k {
                if b - 1 > k {
                    assert(lex_le(s0[k as int], s0[b - 1]));
                    lemma_lex_le_trans(xv, s0[k as int], s0[b - 1]);
                }
            } else if a < k {
                assert(lex_le(s0[a], xv));
                if k < b - 1 {
                    assert(lex_le(s0[k as int], s0[b - 1]));
                    lemma_lex_le_trans(xv, s0[k as int], s0[b - 1]);
                }
                lemma_lex_le_trans(s0[a], xv, s0[b - 1]);
            } else {
                assert(lex_le(s0[a - 1], s0[b - 1]));
            }
        }
    }
}

/// The help lines of one channel.
pub struct ChannelHelp {
    pub channel: String,
    pub entries: Vec<String>,
}

pub open spec fn help_at(cs: Seq<ChannelHelp>, c: Seq<char>, k: int) -> bool {
    0 <= k < cs.len() && cs[k].channel@ == c
}

pub open spec fn help_unique(cs: Seq<ChannelHelp>) -> bool {
    forall|a: int, b: int| 0 <= a < b < cs.len() ==> cs[a].channel@ != cs[b].channel@
}

/// The help lines a table holds for channel `c`.
pub open spec fn help_lookup(cs: Seq<ChannelHelp>, c: Seq<char>) -> Seq<Seq<char>> {
    if exists|k: int| help_at(cs, c, k) {
        strs(cs[choose|k: int| help_at(cs, c, k)].entries@)
    } else {
        Seq::empty()
    }
}

proof fn lemma_help_at(cs: Seq<ChannelHelp>, c: Seq<char>, k: int)
    requires
        help_unique(cs),
        help_at(cs, c, k),
    ensures
        help_lookup(cs, c) == strs(cs[k].entries@),
{
    let j = choose|j: int| help_at(cs, c, j);
    assert(help_at(cs, c, j));
    if j != k {
        if j < k {
            assert(cs[j].channel@ != cs[k].channel@);
        } else {
            assert(cs[k].channel@ != cs[j].channel@);
        }
    }
}

/// Finds the help lines of a channel.
fn find_channel(cs: &Vec<ChannelHelp>, c: &str) -> (r: Option<usize>)
    ensures
        match r {
            Some(k) => help_at(cs@, c@, k as int),
            None => forall|k: int| !help_at(cs@, c@, k),
        },
{
    let mut k: usize = 0;
    while k < cs.len()
        invariant
            k <= cs@.len(),
            forall|j: int| 0 <= j < k ==> !help_at(cs@, c@, j),
        decreases cs@.len() - k,
    {
        if str_eq(cs[k].channel.as_str(), c) {
            return Some(k);
        }
        k += 1;
    }
    None
}

/// Adds a line to the sorted lines of channel `c`.
fn add_channel_entry(cs: &mut Vec<ChannelHelp>, c: &String, e: &String)
    requires
        help_unique(old(cs)@),
        forall|c2: Seq<char>| sorted(#[trigger] help_lookup(old(cs)@, c2)),
    ensures
        help_unique(final(cs)@),
        forall|c2: Seq<char>| sorted(#[trigger] help_lookup(final(cs)@, c2)),
        forall|c2: Seq<char>| #[trigger] help_lookup(final(cs)@, c2).to_multiset() == if c2 == c@ {
            help_lookup(old(cs)@, c2).to_multiset().insert(e@)
        } else {
            help_lookup(old(cs)@, c2).to_multiset()
        },
{
    let ghost cs0 = cs@;
    let found = find_channel(cs, c.as_str());
    let ghost k: int;
    match found {
        Some(i) => {
            proof {
                lemma_help_at(cs0, c@, i as int);
            }
            let item = cs.remove(i);
            let ChannelHelp { channel, mut entries } = item;
            insert_sorted(&mut entries, e.clone());
            cs.insert(i, ChannelHelp { channel, entries });
            proof {
                k = i as int;
                assert(cs@ =~= cs0.update(k, cs@[k]));
            }
        },
        None => {
            let mut entries: Vec<String> = Vec::new();
            proof {
                assert(strs(entries@) =~= Seq::<Seq<char>>::empty());
                assert(help_lookup(cs0, c@) =~= Seq::<Seq<char>>::empty());
            }
            insert_sorted(&mut entries, e.clone());
            cs.push(ChannelHelp { channel: c.clone(), entries });
            proof {
                k = cs0.len() as int;
            }
        },
    }
    proof {
        assert(cs@[k].channel@ == c@);
        assert forall|j: int| 0 <= j < cs@.len() && j != k implies cs@[j] == cs0[j] && !help_at(cs@, c@, j) by {
            if found.is_some() {
                if j < k {
                    assert(cs0[j].channel@ != cs0[k].channel@);
                } else {
                    assert(cs0[k].channel@ != cs0[j].channel@);
                }
            } else {
                assert(!help_at(cs0, c@, j));
            }
        }
        assert forall|a: int, b: int| 0 <= a < b < cs@.len() implies cs@[a].channel@ != cs@[b].channel@ by {
            if a != k && b != k {
                assert(cs0[a].channel@ != cs0[b].channel@);
            } else if a == k {
                assert(!help_at(cs@, c@, b));
            } else {
                assert(!help_at(cs@, c@, a));
            }
        }
        assert(help_unique(cs@));
        lemma_help_at(cs@, c@, k);
        assert forall|c2: Seq<char>| c2 != c@ implies #[trigger] help_lookup(cs@, c2) == help_lookup(cs0, c2) by {
            if exists|j: int| help_at(cs0, c2, j) {
                let j = choose|j: int| help_at(cs0, c2, j);
                lemma_help_at(cs0, c2, j);
                lemma_help_at(cs@, c2, j);
            } else {
                assert forall|j: int| !help_at(cs@, c2, j) by {
                    if help_at(cs@, c2, j) && j != k {
                        assert(help_at(cs0, c2, j));
                    }
                }
            }
        }
    }
}

/// The help responder, built once from the registered handlers.
pub struct DefaultHelpHandler {
    /// Per channel, the sorted help lines of the handlers scoped to it.
    channels_help_info: Vec<ChannelHelp>,
    /// The sorted help lines of the all-channels handlers.
    all_channels_help_info: Vec<String>,
}

impl DefaultHelpHandler {
    /// The sorted help lines of the all-channels handlers.
    pub closed spec fn global_list(self) -> Seq<Seq<char>> {
        strs(self.all_channels_help_info@)
    }

    /// The sorted help lines of the handlers scoped to channel `c`.
    pub closed spec fn channel_list(self, c: Seq<char>) -> Seq<Seq<char>> {
        help_lookup(self.channels_help_info@, c)
    }

    #[verifier::type_invariant]
    spec fn wf(self) -> bool {
        help_unique(self.channels_help_info@)
    }

    /// The listings hold, sorted, exactly the help lines of `hs`.
    pub open spec fn describes(self, hs: Seq<HandlerView>) -> bool {
        &&& sorted(self.global_list())
        &&& self.global_list().to_multiset() == global_entries(hs).to_multiset()
        &&& forall|c: Seq<char>| sorted(#[trigger] self.channel_list(c))
        &&& forall|c: Seq<char>|
            #[trigger] self.channel_list(c).to_multiset() == channel_entries(hs, c).to_multiset()
    }

    /// Builds the listings in one pass over `handlers`.
    pub fn new(handlers: &Vec<HandlerInfo>) -> (r: Self)
        ensures
            r.describes(views(handlers@)),
    {
        let ghost hs = views(handlers@);
        let mut channels_help_info: Vec<ChannelHelp> = Vec::new();
        let mut all_channels_help_info: Vec<String> = Vec::new();
        let mut i: usize = 0;
        assert(hs.take(0) =~= Seq::<HandlerView>::empty());
        assert(strs(all_channels_help_info@) =~= Seq::<Seq<char>>::empty());
        assert forall|c: Seq<char>| #[trigger] help_lookup(channels_help_info@, c) == Seq::<Seq<char>>::empty() by {}
        while i < handlers.len()
            invariant
                i <= handlers@.len(),
                hs == views(handlers@),
                help_unique(channels_help_info@),
                sorted(strs(all_channels_help_info@)),
                strs(all_channels_help_info@).to_multiset() == global_entries(hs.take(i as int)).to_multiset(),
                forall|c: Seq<char>| sorted(#[trigger] help_lookup(channels_help_info@, c)),
                forall|c: Seq<char>|
                    #[trigger] help_lookup(channels_help_info@, c).to_multiset() == channel_entries(
                        hs.take(i as int),
                        c,
                    ).to_multiset(),
            decreases handlers@.len() - i,
        {
            let h = &handlers[i];
            let ghost prev = hs.take(i as int);
            proof {
                assert(hs.take(i + 1).drop_last() =~= prev);
                assert(hs.take(i + 1).last() == hs[i as int]);
                assert(hs[i as int] == h@);
            }
            let entry = format_entry(h);
            if h.is_for_all_channels() {
                insert_sorted(&mut all_channels_help_info, entry);
            } else {
                let mut j: usize = 0;
                while j < h.channels.len()
                    invariant
                        j <= h.channels@.len(),
                        i < handlers@.len(),
                        h == handlers@[i as int],
                        !h@.for_all_channels(),
                        entry@ == help_entry(h@),
                        help_unique(channels_help_info@),
                        forall|c: Seq<char>| sorted(#[trigger] help_lookup(channels_help_info@, c)),
                        forall|c: Seq<char>|
                            #[trigger] help_lookup(channels_help_info@, c).to_multiset() == if h@.channels.take(
                                j as int,
                            ).contains(c) {
                                channel_entries(prev, c).to_multiset().insert(entry@)
                            } else {
                                channel_entries(prev, c).to_multiset()
                            },
                    decreases h.channels@.len() - j,
                {
                    let ghost cj = h.channels@[j as int]@;
                    proof {
                        assert forall|c: Seq<char>|
                            h@.channels.take(j + 1).contains(c) == (h@.channels.take(j as int).contains(c)
                                || c == cj) by {
                            if h@.channels.take(j + 1).contains(c) {
                                let t = choose|t: int|
                                    0 <= t < j + 1 && #[trigger] h@.channels.take(j + 1)[t] == c;
                                if t < j {
                                    assert(h@.channels.take(j as int)[t] == c);
                                }
                            }
                            if h@.channels.take(j as int).contains(c) {
                                let t = choose|t: int|
                                    0 <= t < j && #[trigger] h@.channels.take(j as int)[t] == c;
                                assert(h@.channels.take(j + 1)[t] == c);
                            }
                            if c == cj {
                                assert(h@.channels.take(j + 1)[j as int] == c);
                            }
                        }
                    }
                    let mut seen = false;
                    let mut t: usize = 0;
                    while t < j
                        invariant
                            t <= j < h.channels@.len(),
                            cj == h.channels@[j as int]@,
                            seen == exists|u: int| 0 <= u < t && h.channels@[u]@ == cj,
                        decreases j - t,
                    {
                        let same = str_eq(h.channels[t].as_str(), h.channels[j].as_str());
                        proof {
                            if same {
                                assert(0 <= t < t + 1 && h.channels@[t as int]@ == cj);
                            }
                            if exists|u: int| 0 <= u < t + 1 && h.channels@[u]@ == cj {
                                let u = choose|u: int| 0 <= u < t + 1 && h.channels@[u]@ == cj;
                                if u < t {
                                    assert(0 <= u < t && h.channels@[u]@ == cj);
                                }
                            }
                        }
                        if same {
                            seen = true;
                        }
                        t += 1;
                    }
                    proof {
                        if seen {
                            let u = choose|u: int| 0 <= u < t && h.channels@[u]@ == cj;
                            assert(h@.channels.take(j as int)[u] == cj);
                        } else if h@.channels.take(j as int).contains(cj) {
                            let u = choose|u: int| 0 <= u < j && #[trigger] h@.channels.take(j as int)[u] == cj;
                            assert(h.channels@[u]@ == cj);
                        }
                    }
                    if !seen {
                        add_channel_entry(&mut channels_help_info, &h.channels[j], &entry);
                    }
                    j += 1;
                }
                assert(h@.channels.take(j as int) =~= h@.channels);
            }
            i += 1;
        }
        assert(hs.take(i as int) =~= hs);
        DefaultHelpHandler { channels_help_info, all_channels_help_info }
    }

    pub fn name(&self) -> (r: &'static str)
        ensures
            r@ == "help"@,
    {
        "help"
    }

    pub fn description(&self) -> (r: &'static str)
        ensures
            r@ == "Prints this help message"@,
    {
        "Prints this help message"
    }

    /// The help message for a channel, opened by a line that names
    /// `unknown_command` unless it is absent, empty or `help`.
    pub fn render(&self, channel_name: Option<&str>, unknown_command: Option<&str>) -> (r: String)
        ensures
            r@ == help_text(
                self.global_list(),
                match channel_name {
                    Some(c) => self.channel_list(c@),
                    None => Seq::empty(),
                },
                opt_view(unknown_command),
            ),
    {
        proof {
            use_type_invariant(self);
        }
        let mut msg = String::new();
        if let Some(n) = unknown_command {
            if n.unicode_len() > 0 && !str_eq(n, "help") {
                msg.append("Unknown command: `");
                msg.append(n);
                msg.append("`\n");
            }
        }
        msg.append("Available commands:\n\u{2022} `");
        msg.append(self.name());
        msg.append("`: ");
        msg.append(self.description());
        append_bullets(&mut msg, &self.all_channels_help_info);
        let ghost chan: Seq<Seq<char>> = Seq::empty();
        if let Some(c) = channel_name {
            if let Some(k) = find_channel(&self.channels_help_info, c) {
                proof {
                    lemma_help_at(self.channels_help_info@, c@, k as int);
                    chan = self.channel_list(c@);
                }
                append_bullets(&mut msg, &self.channels_help_info[k].entries);
            }
        }
        proof {
            lemma_bullets_concat(self.global_list(), chan);
        }
        msg
    }
}

/// Appends one bulleted line per entry.
fn append_bullets(msg: &mut String, list: &Vec<String>)
    ensures
        final(msg)@ == old(msg)@ + bullets(strs(list@)),
{
    let ghost m0 = msg@;
    let mut k: usize = 0;
    assert(strs(list@).take(0) =~= Seq::<Seq<char>>::empty());
    assert(m0 + bullets(Seq::<Seq<char>>::empty()) =~= m0);
    while k < list.len()
        invariant
            k <= list@.len(),
            msg@ == m0 + bullets(strs(list@).take(k as int)),
        decreases list@.len() - k,
    {
        msg.append("\n\u{2022} ");
        msg.append(list[k].as_str());
        proof {
            assert(strs(list@).take(k + 1).drop_last() =~= strs(list@).take(k as int));
        }
        k += 1;
    }
    assert(strs(list@).take(k as int) =~= strs(list@));
}


proof fn lemma_global_remove(hs: Seq<HandlerView>, k: int)
    requires
        0 <= k < hs.len(),
    ensures
        global_entries(hs).to_multiset() == if hs[k].for_all_channels() {
            global_entries(hs.remove(k)).to_multiset().insert(help_entry(hs[k]))
        } else {
            global_entries(hs.remove(k)).to_multiset()
        },
    decreases hs.len(),
{
    broadcast use vstd::multiset::group_multiset_axioms;

    if k == hs.len() - 1 {
        assert(hs.remove(k) =~= hs.drop_last());
    } else {
        lemma_global_remove(hs.drop_last(), k);
        assert(hs.remove(k).drop_last() =~= hs.drop_last().remove(k));
        assert(hs.remove(k).last() == hs.last());
        if hs[k].for_all_channels() && hs.last().for_all_channels() {
            let m = global_entries(hs.drop_last().remove(k)).to_multiset();
            assert(m.insert(help_entry(hs[k])).insert(help_entry(hs.last())) =~= m.insert(
                help_entry(hs.last()),
            ).insert(help_entry(hs[k])));
        }
    }
}

proof fn lemma_channel_remove(hs: Seq<HandlerView>, k: int, c: Seq<char>)
    requires
        0 <= k < hs.len(),
    ensures
        channel_entries(hs, c).to_multiset() == if hs[k].scoped_in(c) {
            channel_entries(hs.remove(k), c).to_multiset().insert(help_entry(hs[k]))
        } else {
            channel_entries(hs.remove(k), c).to_multiset()
        },
    decreases hs.len(),
{
    broadcast use vstd::multiset::group_multiset_axioms;

    if k == hs.len() - 1 {
        assert(hs.remove(k) =~= hs.drop_last());
    } else {
        lemma_channel_remove(hs.drop_last(), k, c);
        assert(hs.remove(k).drop_last() =~= hs.drop_last().remove(k));
        assert(hs.remove(k).last() == hs.last());
        if hs[k].scoped_in(c) && hs.last().scoped_in(c) {
            let m = channel_entries(hs.drop_last().remove(k), c).to_multiset();
            assert(m.insert(help_entry(hs[k])).insert(help_entry(hs.last())) =~= m.insert(
                help_entry(hs.last()),
            ).insert(help_entry(hs[k])));
        }
    }
}

/// Finds the position in `hs2` of the last handler of `hs1` and relates
/// what is left of both.
proof fn lemma_match_last(hs1: Seq<HandlerView>, hs2: Seq<HandlerView>) -> (k: int)
    requires
        hs1.len() > 0,
        hs1.to_multiset() == hs2.to_multiset(),
    ensures
        0 <= k < hs2.len(),
        hs2[k] == hs1.last(),
        hs1.drop_last().to_multiset() == hs2.remove(k).to_multiset(),
{
    broadcast use vstd::multiset::group_multiset_axioms;

    hs1.to_multiset_ensures();
    hs2.to_multiset_ensures();
    let x = hs1.last();
    assert(hs1[hs1.len() - 1] == x);
    assert(hs1.to_multiset().count(x) > 0);
    assert(hs2.contains(x));
    let k = choose|k: int| 0 <= k < hs2.len() && hs2[k] == x;
    vstd::seq_lib::to_multiset_remove(hs2, k);
    assert(hs1.drop_last().push(x) =~= hs1);
    vstd::seq_lib::to_multiset_build(hs1.drop_last(), x);
    assert(hs1.drop_last().to_multiset() =~= hs1.to_multiset().remove(x));
    k
}

proof fn lemma_entries_permutation(hs1: Seq<HandlerView>, hs2: Seq<HandlerView>, c: Seq<char>)
    requires
        hs1.to_multiset() == hs2.to_multiset(),
    ensures
        global_entries(hs1).to_multiset() == global_entries(hs2).to_multiset(),
        channel_entries(hs1, c).to_multiset() == channel_entries(hs2, c).to_multiset(),
    decreases hs1.len(),
{
    broadcast use vstd::multiset::group_multiset_axioms;

    hs1.to_multiset_ensures();
    hs2.to_multiset_ensures();
    if hs1.len() == 0 {
        assert(hs2.len() == 0);
        assert(hs1 =~= hs2);
    } else {
        let k = lemma_match_last(hs1, hs2);
        lemma_entries_permutation(hs1.drop_last(), hs2.remove(k), c);
        lemma_global_remove(hs2, k);
        lemma_channel_remove(hs2, k, c);
    }
}

/// Two sorted sequences with the same elements are equal.
proof fn lemma_sorted_unique(s1: Seq<Seq<char>>, s2: Seq<Seq<char>>)
    requires
        sorted(s1),
        sorted(s2),
        s1.to_multiset() == s2.to_multiset(),
    ensures
        s1 == s2,
    decreases s1.len(),
{
    broadcast use vstd::multiset::group_multiset_axioms;

    s1.to_multiset_ensures();
    s2.to_multiset_ensures();
    if s1.len() == 0 {
        assert(s2.len() == 0);
        assert(s1 =~= s2);
    } else {
        assert(s2.len() > 0);
        assert(s1.to_multiset().count(s1[0]) > 0);
        assert(s2.contains(s1[0]));
        let k = choose|k: int| 0 <= k < s2.len() && s2[k] == s1[0];
        assert(s1.to_multiset().count(s2[0]) > 0);
        assert(s1.contains(s2[0]));
        let m = choose|m: int| 0 <= m < s1.len() && s1[m] == s2[0];
        if k > 0 {
            assert(lex_le(s2[0], s2[k]));
        }
        if m > 0 {
            assert(lex_le(s1[0], s1[m]));
        }
        if s1[0] != s2[0] {
            crate::text::lemma_lex_le_antisym(s1[0], s2[0]);
        }
        vstd::seq_lib::to_multiset_remove(s1, 0);
        vstd::seq_lib::to_multiset_remove(s2, 0);
        assert(s1.remove(0) =~= s1.drop_first());
        assert(s2.remove(0) =~= s2.drop_first());
        assert forall|i: int, j: int| 0 <= i < j < s1.drop_first().len() implies lex_le(
            #[trigger] s1.drop_first()[i],
            #[trigger] s1.drop_first()[j],
        ) by {
            assert(lex_le(s1[i + 1], s1[j + 1]));
        }
        assert forall|i: int, j: int| 0 <= i < j < s2.drop_first().len() implies lex_le(
            #[trigger] s2.drop_first()[i],
            #[trigger] s2.drop_first()[j],
        ) by {
            assert(lex_le(s2[i + 1], s2[j + 1]));
        }
        lemma_sorted_unique(s1.drop_first(), s2.drop_first());
        assert(s1 =~= seq![s1[0]] + s1.drop_first());
        assert(s2 =~= seq![s2[0]] + s2.drop_first());
    }
}

/// Help listings do not depend on registration order: handler lists that
/// hold the same handlers, in any order, give the same all-channels listing
/// and the same listing for every channel, hence the same help message.
pub proof fn lemma_help_independent_of_order(
    h1: DefaultHelpHandler,
    h2: DefaultHelpHandler,
    hs1: Seq<HandlerView>,
    hs2: Seq<HandlerView>,
)
    requires
        hs1.to_multiset() == hs2.to_multiset(),
        h1.describes(hs1),
        h2.describes(hs2),
    ensures
        h1.global_list() == h2.global_list(),
        forall|c: Seq<char>| #[trigger] h1.channel_list(c) == h2.channel_list(c),
{
    lemma_entries_permutation(hs1, hs2, Seq::empty());
    lemma_sorted_unique(h1.global_list(), h2.global_list());
    assert forall|c: Seq<char>| #[trigger] h1.channel_list(c) == h2.channel_list(c) by {
        lemma_entries_permutation(hs1, hs2, c);
        lemma_sorted_unique(h1.channel_list(c), h2.channel_list(c));
    }
}

} // verus!
