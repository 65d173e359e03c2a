//! The handler registry: built once from the handler list, it maps a
//! (channel, command) pair, or a command alone for the all-channels scope,
//! to the position of the handler that serves it.
use vstd::prelude::*;
use crate::handler::{HandlerInfo, HandlerView, views, ALL_CHANNELS_MARKER};
use crate::text::str_eq;

verus! {

/// The last handler of `hs` scoped to channel `c` under the name `cmd`.
pub open spec fn last_scoped(hs: Seq<HandlerView>, c: Seq<char>, cmd: Seq<char>) -> Option<nat>
    decreases hs.len(),
{
    if hs.len() == 0 {
        None
    } else if hs.last().scoped_in(c) && hs.last().name == cmd {
        Some((hs.len() - 1) as nat)
    } else {
        last_scoped(hs.drop_last(), c, cmd)
    }
}

/// The last all-channels handler of `hs` under the name `cmd`.
pub open spec fn last_global(hs: Seq<HandlerView>, cmd: Seq<char>) -> Option<nat>
    decreases hs.len(),
{
    if hs.len() == 0 {
        None
    } else if hs.last().for_all_channels() && hs.last().name == cmd {
        Some((hs.len() - 1) as nat)
    } else {
        last_global(hs.drop_last(), cmd)
    }
}

/// The handler that serves `cmd` in channel `channel`: one scoped to the
/// channel first, else one for all channels; a later registration wins over
/// an earlier one of the same name and scope.
pub open spec fn resolve_spec(hs: Seq<HandlerView>, channel: Option<Seq<char>>, cmd: Seq<char>) -> Option<nat> {
    match channel {
        Some(c) => match last_scoped(hs, c, cmd) {
            Some(i) => Some(i),
            None => last_global(hs, cmd),
        },
        None => last_global(hs, cmd),
    }
}

/// A handler position of the executable code, as a spec value.
pub open spec fn index_of(r: Option<usize>) -> Option<nat> {
    match r {
        Some(h) => Some(h as nat),
        None => None,
    }
}

/// One entry of a routing table.
pub struct Route {
    pub channel: String,
    pub command: String,
    pub handler: usize,
}

pub open spec fn route_at(rs: Seq<Route>, c: Seq<char>, cmd: Seq<char>, k: int) -> bool {
    0 <= k < rs.len() && rs[k].channel@ == c && rs[k].command@ == cmd
}

/// No two entries share a (channel, command) key.
pub open spec fn routes_unique(rs: Seq<Route>) -> bool {
    forall|a: int, b: int|
        0 <= a < b < rs.len() ==> !(rs[a].channel@ == rs[b].channel@ && rs[a].command@ == rs[b].command@)
}

/// The handler a table gives for a key.
pub open spec fn route_lookup(rs: Seq<Route>, c: Seq<char>, cmd: Seq<char>) -> Option<nat> {
    if exists|k: int| route_at(rs, c, cmd, k) {
        Some(rs[choose|k: int| route_at(rs, c, cmd, k)].handler as nat)
    } else {
        None
    }
}

proof fn lemma_lookup_at(rs: Seq<Route>, c: Seq<char>, cmd: Seq<char>, k: int)
    requires
        routes_unique(rs),
        route_at(rs, c, cmd, k),
    ensures
        route_lookup(rs, c, cmd) == Some(rs[k].handler as nat),
{
    let j = choose|j: int| route_at(rs, c, cmd, j);
    assert(route_at(rs, c, cmd, j));
    if j < k {
        assert(!(rs[j].channel@ == rs[k].channel@ && rs[j].command@ == rs[k].command@));
    } else if k < j {
        assert(!(rs[k].channel@ == rs[j].channel@ && rs[k].command@ == rs[j].command@));
    }
}

/// Finds the entry for a key.
fn find_route(rs: &Vec<Route>, c: &str, cmd: &str) -> (r: Option<usize>)
    ensures
        match r {
            Some(k) => route_at(rs@, c@, cmd@, k as int),
            None => forall|k: int| !route_at(rs@, c@, cmd@, k),
        },
{
    let mut k: usize = 0;
    while k < rs.len()
        invariant
            k <= rs@.len(),
            forall|j: int| 0 <= j < k ==> !route_at(rs@, c@, cmd@, j),
        decreases rs@.len() - k,
    {
        if str_eq(rs[k].channel.as_str(), c) && str_eq(rs[k].command.as_str(), cmd) {
            return Some(k);
        }
        k += 1;
    }
    None
}

/// Looks a key up in a table.
fn lookup(rs: &Vec<Route>, c: &str, cmd: &str) -> (r: Option<usize>)
    requires
        routes_unique(rs@),
    ensures
        index_of(r) == route_lookup(rs@, c@, cmd@),
{
    match find_route(rs, c, cmd) {
        Some(k) => {
            proof {
                lemma_lookup_at(rs@, c@, cmd@, k as int);
            }
            Some(rs[k].handler)
        },
        None => None,
    }
}

/// Sets the handler for a key, replacing the one there was.
fn upsert(rs: &mut Vec<Route>, c: &String, cmd: &String, h: usize)
    requires
        routes_unique(old(rs)@),
    ensures
        routes_unique(final(rs)@),
        forall|c2: Seq<char>, cmd2: Seq<char>|
            #[trigger] route_lookup(final(rs)@, c2, cmd2) == if c2 == c@ && cmd2 == cmd@ {
                Some(h as nat)
            } else {
                route_lookup(old(rs)@, c2, cmd2)
            },
{
    let ghost rs0 = rs@;
    let found = find_route(rs, c.as_str(), cmd.as_str());
    let route = Route { channel: c.clone(), command: cmd.clone(), handler: h };
    let ghost k: int;
    match found {
        Some(i) => {
            rs.set(i, route);
            proof {
                k = i as int;
            }
        },
        None => {
            rs.push(route);
            proof {
                k = rs0.len() as int;
            }
        },
    }
    proof {
        assert(rs@.len() >= rs0.len());
        assert forall|j: int| 0 <= j < rs@.len() && j != k implies rs@[j] == rs0[j] by {}
        assert(rs@[k].channel@ == c@ && rs@[k].command@ == cmd@);
        assert forall|j: int| 0 <= j < rs@.len() && j != k implies !route_at(rs@, c@, cmd@, j) by {
            if found.is_some() {
                assert(route_at(rs0, c@, cmd@, k));
                if route_at(rs0, c@, cmd@, j) {
                    if j < k {
                        assert(!(rs0[j].channel@ == rs0[k].channel@ && rs0[j].command@ == rs0[k].command@));
                    } else {
                        assert(!(rs0[k].channel@ == rs0[j].channel@ && rs0[k].command@ == rs0[j].command@));
                    }
                }
            } else {
                assert(!route_at(rs0, c@, cmd@, j));
            }
        }
        assert forall|a: int, b: int| 0 <= a < b < rs@.len() implies
            !(rs@[a].channel@ == rs@[b].channel@ && rs@[a].command@ == rs@[b].command@) by {
            if a != k && b != k {
                assert(rs@[a] == rs0[a] && rs@[b] == rs0[b]);
            } else if a == k {
                assert(!route_at(rs@, c@, cmd@, b));
            } else {
                assert(!route_at(rs@, c@, cmd@, a));
            }
        }
        assert(routes_unique(rs@));
        assert forall|c2: Seq<char>, cmd2: Seq<char>|
            #[trigger] route_lookup(rs@, c2, cmd2) == if c2 == c@ && cmd2 == cmd@ {
                Some(h as nat)
            } else {
                route_lookup(rs0, c2, cmd2)
            } by {
            if c2 == c@ && cmd2 == cmd@ {
                lemma_lookup_at(rs@, c2, cmd2, k);
            } else if exists|j: int| route_at(rs0, c2, cmd2, j) {
                let j = choose|j: int| route_at(rs0, c2, cmd2, j);
                lemma_lookup_at(rs0, c2, cmd2, j);
                lemma_lookup_at(rs@, c2, cmd2, j);
            } else {
                assert forall|j: int| !route_at(rs@, c2, cmd2, j) by {
                    if route_at(rs@, c2, cmd2, j) && j != k {
                        assert(route_at(rs0, c2, cmd2, j));
                    }
                }
            }
        }
    }
}

/// Routing tables built once from the registered handlers.
pub struct HandlerIndex {
    /// Handlers with an explicit channel scope, keyed by (channel, command).
    channel_index: Vec<Route>,
    /// Handlers for all channels, keyed by ([`ALL_CHANNELS_MARKER`], command).
    all_channels: Vec<Route>,
}

impl HandlerIndex {
    pub closed spec fn channel_lookup(self, c: Seq<char>, cmd: Seq<char>) -> Option<nat> {
        route_lookup(self.channel_index@, c, cmd)
    }

    pub closed spec fn global_lookup(self, cmd: Seq<char>) -> Option<nat> {
        route_lookup(self.all_channels@, "*"@, cmd)
    }

    #[verifier::type_invariant]
    spec fn wf(self) -> bool {
        routes_unique(self.channel_index@) && routes_unique(self.all_channels@)
    }

    /// The tables serve exactly the handlers `hs`.
    pub open spec fn indexes(self, hs: Seq<HandlerView>) -> bool {
        &&& forall|c: Seq<char>, cmd: Seq<char>|
            #[trigger] self.channel_lookup(c, cmd) == last_scoped(hs, c, cmd)
        &&& forall|cmd: Seq<char>| #[trigger] self.global_lookup(cmd) == last_global(hs, cmd)
    }

    /// Builds the tables in one pass over `handlers`.
    pub fn new(handlers: &Vec<HandlerInfo>) -> (r: Self)
        ensures
            r.indexes(views(handlers@)),
    {
        let ghost hs = views(handlers@);
        let mut channel_index: Vec<Route> = Vec::new();
        let mut all_channels: Vec<Route> = Vec::new();
        let marker = String::from_str(ALL_CHANNELS_MARKER);
        let mut i: usize = 0;
        assert(hs.take(0) =~= Seq::<HandlerView>::empty());
        while i < handlers.len()
            invariant
                i <= handlers@.len(),
                hs == views(handlers@),
                marker@ == "*"@,
                routes_unique(channel_index@),
                routes_unique(all_channels@),
                forall|c: Seq<char>, cmd: Seq<char>|
                    #[trigger] route_lookup(channel_index@, c, cmd) == last_scoped(hs.take(i as int), c, cmd),
                forall|cmd: Seq<char>|
                    #[trigger] route_lookup(all_channels@, "*"@, cmd) == last_global(hs.take(i as int), cmd),
                forall|c: Seq<char>, cmd: Seq<char>|
                    c != "*"@ ==> #[trigger] route_lookup(all_channels@, c, cmd) == None::<nat>,
            decreases handlers@.len() - i,
        {
            let h = &handlers[i];
            let ghost prev = hs.take(i as int);
            proof {
                assert(hs.take(i + 1).drop_last() =~= prev);
                assert(hs.take(i + 1).last() == hs[i as int]);
                assert(hs[i as int] == h@);
            }
            if h.is_for_all_channels() {
                upsert(&mut all_channels, &marker, &h.name, i);
            } else {
                let mut j: usize = 0;
                while j < h.channels.len()
                    invariant
                        j <= h.channels@.len(),
                        i < handlers@.len(),
                        h == handlers@[i as int],
                        !h@.for_all_channels(),
                        routes_unique(channel_index@),
                        forall|c: Seq<char>, cmd: Seq<char>|
                            #[trigger] route_lookup(channel_index@, c, cmd) == if cmd == h@.name
                                && h@.channels.take(j as int).contains(c) {
                                Some(i as nat)
                            } else {
                                last_scoped(prev, c, cmd)
                            },
                    decreases h.channels@.len() - j,
                {
                    proof {
                        assert forall|c: Seq<char>|
                            h@.channels.take(j + 1).contains(c) == (h@.channels.take(j as int).contains(c)
                                || c == h.channels@[j as int]@) by {
                            if h@.channels.take(j + 1).contains(c) {
                                let t = choose|t: int|
                                    0 <= t < j + 1 && #[trigger] h@.channels.take(j + 1)[t] == c;
                                if t < j {
                                    assert(h@.channels.take(j as int)[t] == c);
                                }
                            }
                            if h@.channels.take(j as int).contains(c) {
                                let t = choose|t: int|
                                    0 <= t < j && #[trigger] h@.channels.take(j as int)[t] == c;
                                assert(h@.channels.take(j + 1)[t] == c);
                            }
                            if c == h.channels@[j as int]@ {
                                assert(h@.channels.take(j + 1)[j as int] == c);
                            }
                        }
                    }
                    upsert(&mut channel_index, &h.channels[j], &h.name, i);
                    j += 1;
                }
                assert(h@.channels.take(j as int) =~= h@.channels);
            }
            i += 1;
        }
        assert(hs.take(i as int) =~= hs);
        HandlerIndex { channel_index, all_channels }
    }

    /// The handler for `handler_name` in `channel_name`: one scoped to the
    /// channel, else one for all channels. An unknown channel reaches the
    /// all-channels handlers only.
    pub fn get(&self, channel_name: Option<&str>, handler_name: &str) -> (r: Option<usize>)
        ensures
            index_of(r) == match channel_name {
                Some(c) => match self.channel_lookup(c@, handler_name@) {
                    Some(i) => Some(i),
                    None => self.global_lookup(handler_name@),
                },
                None => self.global_lookup(handler_name@),
            },
    {
        proof {
            use_type_invariant(self);
        }
        if let Some(c) = channel_name {
            let scoped = lookup(&self.channel_index, c, handler_name);
            if scoped.is_some() {
                return scoped;
            }
        }
        lookup(&self.all_channels, ALL_CHANNELS_MARKER, handler_name)
    }
}


proof fn lemma_last_scoped_found(hs: Seq<HandlerView>, c: Seq<char>, cmd: Seq<char>, i: int)
    requires
        0 <= i < hs.len(),
        hs[i].scoped_in(c),
        hs[i].name == cmd,
    ensures
        match last_scoped(hs, c, cmd) {
            Some(j) => i <= j < hs.len() && hs[j as int].scoped_in(c) && hs[j as int].name == cmd,
            None => false,
        },
    decreases hs.len(),
{
    if i < hs.len() - 1 && !(hs.last().scoped_in(c) && hs.last().name == cmd) {
        lemma_last_scoped_found(hs.drop_last(), c, cmd, i);
    }
}

proof fn lemma_last_scoped_none(hs: Seq<HandlerView>, c: Seq<char>, cmd: Seq<char>)
    requires
        forall|j: int| 0 <= j < hs.len() ==> !(#[trigger] hs[j].scoped_in(c) && hs[j].name == cmd),
    ensures
        last_scoped(hs, c, cmd) == None::<nat>,
    decreases hs.len(),
{
    if hs.len() > 0 {
        assert(!(hs[hs.len() - 1].scoped_in(c) && hs[hs.len() - 1].name == cmd));
        lemma_last_scoped_none(hs.drop_last(), c, cmd);
    }
}

proof fn lemma_last_global_is(hs: Seq<HandlerView>, cmd: Seq<char>, i: int)
    requires
        0 <= i < hs.len(),
        hs[i].for_all_channels(),
        hs[i].name == cmd,
        forall|j: int| i < j < hs.len() ==> !(#[trigger] hs[j].for_all_channels() && hs[j].name == cmd),
    ensures
        last_global(hs, cmd) == Some(i as nat),
    decreases hs.len(),
{
    if i < hs.len() - 1 {
        assert(!(hs[hs.len() - 1].for_all_channels() && hs[hs.len() - 1].name == cmd));
        lemma_last_global_is(hs.drop_last(), cmd, i);
    }
}

/// Channel-specific handlers take precedence: where a handler scoped to
/// channel `c` is registered under `cmd`, resolving `cmd` in `c` gives a
/// handler scoped to `c` under that name (the latest one registered), whatever
/// all-channels handlers share the name.
pub proof fn lemma_channel_scope_takes_precedence(
    hs: Seq<HandlerView>,
    c: Seq<char>,
    cmd: Seq<char>,
    i: int,
)
    requires
        0 <= i < hs.len(),
        hs[i].scoped_in(c),
        hs[i].name == cmd,
    ensures
        match resolve_spec(hs, Some(c), cmd) {
            Some(j) => i <= j < hs.len() && hs[j as int].scoped_in(c) && hs[j as int].name == cmd,
            None => false,
        },
{
    lemma_last_scoped_found(hs, c, cmd, i);
}

/// An all-channels handler is reached from every channel and from an
/// unknown channel: resolving its name gives it wherever no handler scoped
/// to that channel has the name, and no later all-channels handler took
/// the name over.
pub proof fn lemma_all_channels_reach_everywhere(
    hs: Seq<HandlerView>,
    channel: Option<Seq<char>>,
    cmd: Seq<char>,
    i: int,
)
    requires
        0 <= i < hs.len(),
        hs[i].for_all_channels(),
        hs[i].name == cmd,
        forall|j: int| i < j < hs.len() ==> !(#[trigger] hs[j].for_all_channels() && hs[j].name == cmd),
        forall|j: int|
            0 <= j < hs.len() && channel.is_some() ==> !(#[trigger] hs[j].scoped_in(channel.unwrap())
                && hs[j].name == cmd),
    ensures
        resolve_spec(hs, channel, cmd) == Some(i as nat),
{
    lemma_last_global_is(hs, cmd, i);
    if let Some(c) = channel {
        lemma_last_scoped_none(hs, c, cmd);
    }
}

} // verus!
