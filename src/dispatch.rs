//! The per-event routing decision and the failure policy around a
//! handler run. The caller performs what the decision says.
use vstd::prelude::*;
use crate::handler::{HandlerInfo, HandlerView, views};
use crate::help::{DefaultHelpHandler, help_text, opt_view};
use crate::registry::{HandlerIndex, index_of, resolve_spec};
use crate::text::{first_word, first_word_of, starts_with, strip_prefix, strs, trim, trimmed};
use crate::tokenizer::{MalformedArguments, shell_words, tokenize};
use crate::utils::{EventError, InboundMessage, extract_channel_thread, extract_msg_body, thread_of};

verus! {

/// The reply sent in place of a handler's output when it failed.
pub open spec fn fallback_text() -> Seq<char> {
    "Error occurred during handling. Check logs for details."@
}

/// The reply sent when the arguments cannot be split.
pub open spec fn parse_error_text() -> Seq<char> {
    "Fail to parse arguments: Invalid quoting"@
}

/// The command named by a message body (without the address marker):
/// its first word, or `help` for an empty body.
pub open spec fn command_of(body: Seq<char>) -> Seq<char> {
    if body.len() == 0 {
        "help"@
    } else {
        first_word(body)
    }
}

/// The body of a message addressed with `marker`.
pub open spec fn body_of(text: Seq<char>, marker: Seq<char>) -> Seq<char> {
    trimmed(text.skip(marker.len() as int))
}

/// What to do with one inbound event.
pub enum Dispatch {
    /// The event is not for the bot: no reply, no handler.
    Ignore,
    /// Send `text` to `channel`, in thread `thread`.
    Reply { channel: String, thread: String, text: String },
    /// Run the handler at position `handler` with `args`, replying to
    /// `channel` and `thread`, without waiting for it.
    Execute { handler: usize, args: Vec<String>, channel: String, thread: String },
}

/// Mathematical view of a [`Dispatch`].
pub enum DispatchView {
    Ignore,
    Reply { channel: Seq<char>, thread: Seq<char>, text: Seq<char> },
    Execute { handler: nat, args: Seq<Seq<char>>, channel: Seq<char>, thread: Seq<char> },
}

impl View for Dispatch {
    type V = DispatchView;

    open spec fn view(&self) -> DispatchView {
        match self {
            Dispatch::Ignore => DispatchView::Ignore,
            Dispatch::Reply { channel, thread, text } => DispatchView::Reply {
                channel: channel@,
                thread: thread@,
                text: text@,
            },
            Dispatch::Execute { handler, args, channel, thread } => DispatchView::Execute {
                handler: *handler as nat,
                args: strs(args@),
                channel: channel@,
                thread: thread@,
            },
        }
    }
}

pub open spec fn dispatch_view(r: Result<Dispatch, EventError>) -> Result<DispatchView, EventError> {
    match r {
        Ok(d) => Ok(d@),
        Err(e) => Err(e),
    }
}

/// The words a tokenizer result holds, `None` for a quoting failure.
pub open spec fn words_view(r: Result<Vec<String>, MalformedArguments>) -> Option<Seq<Seq<char>>> {
    match r {
        Ok(v) => Some(strs(v@)),
        Err(_) => None,
    }
}

/// The bot marker built from the bot's user identifier.
pub open spec fn marker_of(user_id: Seq<char>) -> Seq<char> {
    "<@"@ + user_id + ">"@
}

/// Startup cannot go on.
#[derive(PartialEq, Eq, Structural, Debug, Clone, Copy)]
pub enum StartupError {
    /// The bot identity carries no user identifier.
    BotUserIdMissing,
}

/// The marker that addresses the bot, `<@USERID>`.
pub fn bot_marker(user_id: Option<&str>) -> (r: Result<String, StartupError>)
    ensures
        match user_id {
            Some(u) => r.is_ok() && r.unwrap()@ == marker_of(u@),
            None => r == Err::<String, StartupError>(StartupError::BotUserIdMissing),
        },
{
    match user_id {
        Some(u) => {
            let mut m = String::from_str("<@");
            m.append(u);
            m.append(">");
            Ok(m)
        },
        None => Err(StartupError::BotUserIdMissing),
    }
}

/// The reply owed once a handler run has ended: none after success, the
/// one fallback notice after a failure.
pub fn completion_reply(handler_succeeded: bool) -> (r: Option<String>)
    ensures
        handler_succeeded ==> r.is_none(),
        !handler_succeeded ==> r.is_some() && r.unwrap()@ == fallback_text(),
{
    if handler_succeeded {
        None
    } else {
        Some(String::from_str("Error occurred during handling. Check logs for details."))
    }
}

/// The read-only routing state: the bot's marker, the registered handlers,
/// and the registry and help listings built from them.
pub struct Dispatcher {
    bot_marker: String,
    handlers: Vec<HandlerInfo>,
    index: HandlerIndex,
    help: DefaultHelpHandler,
}

impl Dispatcher {
    pub closed spec fn marker(self) -> Seq<char> {
        self.bot_marker@
    }

    pub closed spec fn handler_views(self) -> Seq<HandlerView> {
        views(self.handlers@)
    }

    /// The help listings, as the help responder holds them.
    pub closed spec fn help_handler(self) -> DefaultHelpHandler {
        self.help
    }

    #[verifier::type_invariant]
    spec fn wf(self) -> bool {
        self.index.indexes(views(self.handlers@)) && self.help.describes(views(self.handlers@))
    }

    /// The help message for a channel and a command that nothing serves.
    pub open spec fn help_for(self, channel_name: Option<Seq<char>>, cmd: Seq<char>) -> Seq<char> {
        help_text(
            self.help_handler().global_list(),
            match channel_name {
                Some(c) => self.help_handler().channel_list(c),
                None => Seq::empty(),
            },
            Some(cmd),
        )
    }

    /// What an addressed message calls for, given its body, the words of
    /// the body (`None` where its quoting is unbalanced) and its reply target.
    pub open spec fn command_decision(
        self,
        body: Seq<char>,
        words: Option<Seq<Seq<char>>>,
        channel: Seq<char>,
        thread: Seq<char>,
        channel_name: Option<Seq<char>>,
    ) -> DispatchView {
        match words {
            None => DispatchView::Reply { channel, thread, text: parse_error_text() },
            Some(args) => {
                let cmd = command_of(body);
                match resolve_spec(self.handler_views(), channel_name, cmd) {
                    Some(i) => DispatchView::Execute { handler: i, args, channel, thread },
                    None => DispatchView::Reply { channel, thread, text: self.help_for(channel_name, cmd) },
                }
            },
        }
    }

    /// What an event calls for, given the name of its channel where known.
    pub open spec fn decision(self, m: InboundMessage, channel_name: Option<Seq<char>>) -> Result<
        DispatchView,
        EventError,
    > {
        if m.subtype.is_some() {
            Ok(DispatchView::Ignore)
        } else {
            match m.text {
                None => Err(EventError::TextMissing),
                Some(t) => if !starts_with(t@, self.marker()) {
                    Ok(DispatchView::Ignore)
                } else {
                    match m.channel {
                        None => Err(EventError::ChannelMissing),
                        Some(ch) => {
                            let body = body_of(t@, self.marker());
                            Ok(self.command_decision(body, shell_words(body), ch@, thread_of(m), channel_name))
                        },
                    }
                },
            }
        }
    }

    /// Builds the registry and the help listings from `handlers`.
    pub fn new(bot_marker: String, handlers: Vec<HandlerInfo>) -> (r: Self)
        ensures
            r.marker() == bot_marker@,
            r.handler_views() == views(handlers@),
            r.help_handler().describes(r.handler_views()),
    {
        let help = DefaultHelpHandler::new(&handlers);
        let index = HandlerIndex::new(&handlers);
        Dispatcher { bot_marker, handlers, index, help }
    }

    pub fn bot_marker(&self) -> (r: &str)
        ensures
            r@ == self.marker(),
    {
        self.bot_marker.as_str()
    }

    pub fn handlers(&self) -> (r: &Vec<HandlerInfo>)
        ensures
            views(r@) == self.handler_views(),
    {
        &self.handlers
    }

    /// The handler for a command in a channel: one scoped to the channel
    /// first, else one for all channels.
    pub fn get_msg_handler(&self, channel_name: Option<&str>, handler_name: &str) -> (r: Option<usize>)
        ensures
            index_of(r) == resolve_spec(self.handler_views(), opt_view(channel_name), handler_name@),
            r.is_some() ==> r.unwrap() < self.handler_views().len(),
    {
        proof {
            use_type_invariant(self);
        }
        let r = self.index.get(channel_name, handler_name);
        proof {
            lemma_resolve_in_range(self.handler_views(), opt_view(channel_name), handler_name@);
        }
        r
    }

    /// The help message for a channel, naming `unknown_command` first.
    pub fn render_help(&self, channel_name: Option<&str>, unknown_command: &str) -> (r: String)
        ensures
            r@ == self.help_for(opt_view(channel_name), unknown_command@),
    {
        proof {
            use_type_invariant(self);
        }
        self.help.render(channel_name, Some(unknown_command))
    }

    /// Decides what to do with one event. `channel_name` is the name
    /// known for the event's channel identifier, if any.
    pub fn route(&self, msg: &InboundMessage, channel_name: Option<&str>) -> (r: Result<Dispatch, EventError>)
        ensures
            dispatch_view(r) == self.decision(*msg, opt_view(channel_name)),
    {
        if msg.subtype.is_some() {
            return Ok(Dispatch::Ignore);
        }
        let text = extract_msg_body(msg)?;
        let rest = match strip_prefix(text.as_str(), self.bot_marker.as_str()) {
            Some(rest) => rest,
            None => {
                return Ok(Dispatch::Ignore);
            },
        };
        let body = trim(rest);
        let (channel, thread) = extract_channel_thread(msg)?;
        let words = tokenize(body);
        Ok(self.dispatch_command(body, words, channel, thread, channel_name))
    }

    /// Decides what an addressed message calls for, from its body, the
    /// words of the body and its reply target.
    pub fn dispatch_command(
        &self,
        body: &str,
        words: Result<Vec<String>, MalformedArguments>,
        channel: String,
        thread: String,
        channel_name: Option<&str>,
    ) -> (r: Dispatch)
        ensures
            r@ == self.command_decision(body@, words_view(words), channel@, thread@, opt_view(channel_name)),
    {
        let args = match words {
            Ok(args) => args,
            Err(e) => {
                return Dispatch::Reply { channel, thread, text: String::from_str(e.message()) };
            },
        };
        let command = if body.unicode_len() == 0 {
            "help"
        } else {
            first_word_of(body)
        };
        match self.get_msg_handler(channel_name, command) {
            Some(handler) => Dispatch::Execute { handler, args, channel, thread },
            None => {
                let text = self.render_help(channel_name, command);
                Dispatch::Reply { channel, thread, text }
            },
        }
    }
}

/// A message whose text does not start with the bot's marker is ignored:
/// no reply is sent and no handler is looked up or run.
pub proof fn lemma_unaddressed_is_ignored(d: Dispatcher, m: InboundMessage, channel_name: Option<Seq<char>>)
    requires
        m.text.is_some(),
        !starts_with(m.text.unwrap()@, d.marker()),
    ensures
        d.decision(m, channel_name) == Ok::<DispatchView, EventError>(DispatchView::Ignore),
{
}

proof fn lemma_last_scoped_range(hs: Seq<HandlerView>, c: Seq<char>, cmd: Seq<char>)
    ensures
        match crate::registry::last_scoped(hs, c, cmd) {
            Some(i) => i < hs.len(),
            None => true,
        },
    decreases hs.len(),
{
    if hs.len() > 0 {
        lemma_last_scoped_range(hs.drop_last(), c, cmd);
    }
}

proof fn lemma_last_global_range(hs: Seq<HandlerView>, cmd: Seq<char>)
    ensures
        match crate::registry::last_global(hs, cmd) {
            Some(i) => i < hs.len(),
            None => true,
        },
    decreases hs.len(),
{
    if hs.len() > 0 {
        lemma_last_global_range(hs.drop_last(), cmd);
    }
}

proof fn lemma_resolve_in_range(hs: Seq<HandlerView>, ch: Option<Seq<char>>, cmd: Seq<char>)
    ensures
        match resolve_spec(hs, ch, cmd) {
            Some(i) => i < hs.len(),
            None => true,
        },
{
    lemma_last_global_range(hs, cmd);
    if let Some(c) = ch {
        lemma_last_scoped_range(hs, c, cmd);
    }
}

} // verus!
