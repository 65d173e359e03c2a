//! The bundled handlers: what they register and the text they produce.
use vstd::prelude::*;
use crate::handler::{HandlerInfo, ALL_CHANNELS_MARKER};
use crate::text::strs;
use crate::text::strip_prefix;

verus! {

/// Lines joined by newlines.
pub open spec fn join_lines(s: Seq<Seq<char>>) -> Seq<char>
    decreases s.len(),
{
    if s.len() == 0 {
        Seq::empty()
    } else if s.len() == 1 {
        s[0]
    } else {
        join_lines(s.drop_last()) + "\n"@ + s.last()
    }
}

/// The bot-info report.
pub open spec fn info_text(
    user_id: Option<Seq<char>>,
    user_name: Seq<char>,
    uptime: Seq<char>,
    channels: Seq<Seq<char>>,
) -> Seq<char> {
    "Bot info:\n- Bot user_id: "@ + (match user_id {
        Some(u) => u,
        None => "N/A"@,
    }) + "\n- Bot user_name: "@ + user_name + "\n- Uptime: "@ + uptime + "\n- Known channels:\n"@
        + join_lines(channels)
}

/// Reports the bot's identity, uptime and known channels; serves every
/// channel.
pub struct InfoHandler {}

impl InfoHandler {
    pub fn new() -> (r: Self) {
        InfoHandler {  }
    }

    pub fn name(&self) -> (r: &'static str)
        ensures
            r@ == "info"@,
    {
        "info"
    }

    pub fn description(&self) -> (r: &'static str)
        ensures
            r@ == "Print bot info"@,
    {
        "Print bot info"
    }

    pub fn supported_channels(&self) -> (r: Vec<String>)
        ensures
            strs(r@) == seq!["*"@],
    {
        let mut v: Vec<String> = Vec::new();
        v.push(String::from_str(ALL_CHANNELS_MARKER));
        assert(strs(v@) =~= seq!["*"@]);
        v
    }

    /// What the registry and the help listing know of this handler.
    pub fn info(&self) -> (r: HandlerInfo)
        ensures
            r@.name == "info"@,
            r@.description == "Print bot info"@,
            r@.channels == seq!["*"@],
    {
        let r = HandlerInfo::new(
            String::from_str(self.name()),
            String::from_str(self.description()),
            self.supported_channels(),
        );
        assert(r@.channels =~= strs(r.channels@));
        r
    }

    /// The report: user identifier (`N/A` where unknown), user name,
    /// uptime, and one known channel per line.
    pub fn render(&self, user_id: Option<&str>, user_name: &str, uptime: &str, known_channels: &Vec<String>) -> (r:
        String)
        ensures
            r@ == info_text(
                match user_id {
                    Some(u) => Some(u@),
                    None => None,
                },
                user_name@,
                uptime@,
                strs(known_channels@),
            ),
    {
        let mut msg = String::from_str("Bot info:\n- Bot user_id: ");
        match user_id {
            Some(u) => msg.append(u),
            None => msg.append("N/A"),
        }
        msg.append("\n- Bot user_name: ");
        msg.append(user_name);
        msg.append("\n- Uptime: ");
        msg.append(uptime);
        msg.append("\n- Known channels:\n");
        let ghost head = msg@;
        let ghost names = strs(known_channels@);
        let mut k: usize = 0;
        assert(names.take(0) =~= Seq::<Seq<char>>::empty());
        assert(head + join_lines(Seq::<Seq<char>>::empty()) =~= head);
        while k < known_channels.len()
            invariant
                k <= known_channels@.len(),
                names == strs(known_channels@),
                msg@ == head + join_lines(names.take(k as int)),
            decreases known_channels@.len() - k,
        {
            if k > 0 {
                msg.append("\n");
            }
            msg.append(known_channels[k].as_str());
            proof {
                assert(names.take(k + 1).drop_last() =~= names.take(k as int));
                if k == 0 {
                    assert(names.take(1)[0] == names[0]);
                }
            }
            k += 1;
        }
        assert(names.take(k as int) =~= names);
        msg
    }
}

/// `s` without its trailing slashes.
pub open spec fn trim_end_slashes(s: Seq<char>) -> Seq<char>
    decreases s.len(),
{
    if s.len() > 0 && s.last() == '/' {
        trim_end_slashes(s.drop_last())
    } else {
        s
    }
}

/// Number of bytes the UTF-8 encoding of `c` takes.
pub open spec fn utf8_width(c: char) -> int {
    if (c as int) < 0x80 {
        1
    } else if (c as int) < 0x800 {
        2
    } else if (c as int) < 0x10000 {
        3
    } else {
        4
    }
}

/// The longest prefix of `s` whose UTF-8 encoding fits in `budget` bytes.
pub open spec fn byte_prefix(s: Seq<char>, budget: int) -> Seq<char>
    decreases s.len(),
{
    if s.len() == 0 || utf8_width(s[0]) > budget {
        Seq::empty()
    } else {
        seq![s[0]] + byte_prefix(s.drop_first(), budget - utf8_width(s[0]))
    }
}

fn char_width(c: char) -> (r: usize)
    ensures
        r == utf8_width(c),
{
    if '\u{80}' > c {
        1
    } else if '\u{800}' > c {
        2
    } else if '\u{10000}' > c {
        3
    } else {
        4
    }
}

/// The longest prefix of `s` that takes at most `budget` bytes in UTF-8.
pub fn utf8_prefix(s: &str, budget: usize) -> (r: &str)
    ensures
        r@ == byte_prefix(s@, budget as int),
{
    let n = s.unicode_len();
    let mut k: usize = 0;
    let mut used: usize = 0;
    assert(s@.skip(0) =~= s@);
    assert(s@.take(0) + byte_prefix(s@.skip(0), budget as int) =~= byte_prefix(s@, budget as int));
    while k < n && char_width(s.get_char(k)) <= budget - used
        invariant
            k <= n,
            n == s@.len(),
            used <= budget,
            byte_prefix(s@, budget as int) == s@.take(k as int) + byte_prefix(
                s@.skip(k as int),
                budget - used,
            ),
        decreases n - k,
    {
        let w = char_width(s.get_char(k));
        proof {
            let rest = s@.skip(k as int);
            assert(rest[0] == s@[k as int]);
            assert(rest.drop_first() =~= s@.skip(k + 1));
            assert(s@.take(k + 1) =~= s@.take(k as int) + seq![s@[k as int]]);
            assert(s@.take(k as int) + (seq![rest[0]] + byte_prefix(rest.drop_first(), budget - used - w))
                =~= s@.take(k + 1) + byte_prefix(s@.skip(k + 1), budget - (used + w)));
        }
        used = used + w;
        k += 1;
    }
    proof {
        let rest = s@.skip(k as int);
        if k < n {
            assert(rest[0] == s@[k as int]);
        }
        assert(byte_prefix(rest, budget - used) =~= Seq::<char>::empty());
        assert(s@.take(k as int) + Seq::<char>::empty() =~= s@.take(k as int));
    }
    s.substring_char(0, k)
}

/// The most bytes of a message an issue title takes.
pub const TITLE_MAX_BYTES: usize = 50;

/// Opens an issue in a Jira project from the thread it is called in.
pub struct JiraHandler {
    host: String,
    user: String,
    token: String,
    supported_channels: Vec<String>,
}

/// Arguments of the `jira` command.
pub struct JiraHandlerArgs {
    pub project: String,
    pub title: Option<String>,
    pub description: Option<String>,
}

/// The message a thread was started with, without the bot's marker.
pub open spec fn root_text(root_body: Seq<char>, bot_marker: Seq<char>) -> Seq<char> {
    if crate::text::starts_with(root_body, bot_marker) {
        root_body.skip(bot_marker.len() as int)
    } else {
        root_body
    }
}

/// The title given where none was: `slack: ` and as much of the start of
/// the message as fits in 50 bytes of UTF-8.
pub open spec fn default_title(root: Seq<char>) -> Seq<char> {
    "slack: "@ + byte_prefix(root, 50)
}

/// The description given where none was: the message, quoted.
pub open spec fn default_description(root: Seq<char>) -> Seq<char> {
    "Slack message:\n"@ + root + "\n\n"@
}

/// The upper-case mapping of a text, by Unicode's rules.
pub uninterp spec fn upper_of(s: Seq<char>) -> Seq<char>;

/// Relies on `str::to_uppercase`: the result depends on the characters
/// alone, and an empty text stays empty.
#[verifier::external_body]
fn to_uppercase(s: &str) -> (r: String)
    ensures
        r@ == upper_of(s@),
        s@.len() == 0 ==> r@.len() == 0,
{
    s.to_uppercase()
}

impl JiraHandlerArgs {
    /// The project key the issue is filed under: the project, upper-cased.
    pub fn project_key(&self) -> (r: String)
        ensures
            r@ == upper_of(self.project@),
    {
        to_uppercase(self.project.as_str())
    }

    /// Fills in a missing title and description from the message that
    /// opened the thread.
    pub fn with_defaults(self, root_body: &str, bot_marker: &str) -> (r: JiraHandlerArgs)
        ensures
            r.project == self.project,
            opt_seq(r.title) == (match self.title {
                Some(t) => t@,
                None => default_title(root_text(root_body@, bot_marker@)),
            }),
            opt_seq(r.description) == (match self.description {
                Some(d) => d@,
                None => default_description(root_text(root_body@, bot_marker@)),
            }),
            r.title.is_some(),
            r.description.is_some(),
    {
        let root = match strip_prefix(root_body, bot_marker) {
            Some(rest) => rest,
            None => root_body,
        };
        let title = match self.title {
            Some(t) => t,
            None => {
                let mut t = String::from_str("slack: ");
                t.append(utf8_prefix(root, TITLE_MAX_BYTES));
                t
            },
        };
        let description = match self.description {
            Some(d) => d,
            None => {
                let mut d = String::from_str("Slack message:\n");
                d.append(root);
                d.append("\n\n");
                d
            },
        };
        JiraHandlerArgs { project: self.project, title: Some(title), description: Some(description) }
    }
}

/// A view of an optional string, for contracts.
pub open spec fn opt_seq(o: Option<String>) -> Seq<char> {
    match o {
        Some(s) => s@,
        None => Seq::empty(),
    }
}

impl JiraHandler {
    pub closed spec fn host_view(self) -> Seq<char> {
        self.host@
    }

    pub closed spec fn user_view(self) -> Seq<char> {
        self.user@
    }

    pub closed spec fn token_view(self) -> Seq<char> {
        self.token@
    }

    pub closed spec fn channels_view(self) -> Seq<Seq<char>> {
        strs(self.supported_channels@)
    }

    /// A handler for the Jira server at `jira_host` (trailing slashes
    /// dropped), signing in as `user_email` with `user_token`.
    pub fn make(jira_host: &str, user_email: &str, user_token: &str, supported_channels: Vec<String>) -> (r: Self)
        ensures
            r.host_view() == trim_end_slashes(jira_host@),
            r.user_view() == user_email@,
            r.token_view() == user_token@,
            r.channels_view() == strs(supported_channels@),
    {
        let n = jira_host.unicode_len();
        let mut end: usize = n;
        assert(jira_host@.subrange(0, n as int) =~= jira_host@);
        while end > 0 && jira_host.get_char(end - 1) == '/'
            invariant
                end <= n,
                n == jira_host@.len(),
                trim_end_slashes(jira_host@) == trim_end_slashes(jira_host@.subrange(0, end as int)),
            decreases end,
        {
            assert(jira_host@.subrange(0, end as int).drop_last() =~= jira_host@.subrange(0, end - 1));
            end -= 1;
        }
        let host = String::from_str(jira_host.substring_char(0, end));
        JiraHandler {
            host,
            user: String::from_str(user_email),
            token: String::from_str(user_token),
            supported_channels,
        }
    }

    /// A handler for the Jira server at `jira_host` that signs in with
    /// `jira_token` alone.
    pub fn new(jira_host: &str, jira_token: &str, supported_channels: Vec<String>) -> (r: Self)
        ensures
            r.host_view() == jira_host@,
            r.user_view() == Seq::<char>::empty(),
            r.token_view() == jira_token@,
            r.channels_view() == strs(supported_channels@),
    {
        JiraHandler {
            host: String::from_str(jira_host),
            user: String::new(),
            token: String::from_str(jira_token),
            supported_channels,
        }
    }

    pub fn name(&self) -> (r: &'static str)
        ensures
            r@ == "jira"@,
    {
        "jira"
    }

    pub fn description(&self) -> (r: &'static str)
        ensures
            r@ == "Create jira ticket"@,
    {
        "Create jira ticket"
    }

    pub fn supported_channels(&self) -> (r: &Vec<String>)
        ensures
            strs(r@) == self.channels_view(),
    {
        &self.supported_channels
    }

    pub fn host(&self) -> (r: &str)
        ensures
            r@ == self.host_view(),
    {
        self.host.as_str()
    }

    pub fn user(&self) -> (r: &str)
        ensures
            r@ == self.user_view(),
    {
        self.user.as_str()
    }

    pub fn token(&self) -> (r: &str)
        ensures
            r@ == self.token_view(),
    {
        self.token.as_str()
    }

    /// What the registry and the help listing know of this handler.
    pub fn info(&self) -> (r: HandlerInfo)
        ensures
            r@.name == "jira"@,
            r@.description == "Create jira ticket"@,
            r@.channels == self.channels_view(),
    {
        let r = HandlerInfo::new(
            String::from_str(self.name()),
            String::from_str(self.description()),
            self.supported_channels.clone(),
        );
        assert(r@.channels =~= self.channels_view());
        r
    }

    /// The endpoint that creates issues.
    pub fn issue_endpoint(&self) -> (r: String)
        ensures
            r@ == self.host_view() + "/rest/api/3/issue"@,
    {
        let mut u = self.host.clone();
        u.append("/rest/api/3/issue");
        u
    }

    /// The page of the issue with key `issue_key`.
    pub fn issue_url(&self, issue_key: &str) -> (r: String)
        ensures
            r@ == self.host_view() + "/browse/"@ + issue_key@,
    {
        let mut u = self.host.clone();
        u.append("/browse/");
        u.append(issue_key);
        u
    }

    /// The reply that announces a created issue.
    pub fn created_reply(issue_url: &str) -> (r: String)
        ensures
            r@ == "Issue created: "@ + issue_url@,
    {
        let mut m = String::from_str("Issue created: ");
        m.append(issue_url);
        m
    }
}

} // verus!
