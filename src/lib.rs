//! Command dispatch core of a chat bot: argument tokenizing, handler
//! registry, help synthesis and the per-event routing decision.

pub mod text;
pub mod handler;
pub mod registry;
pub mod help;
pub mod tokenizer;
pub mod utils;
pub mod dispatch;
pub mod handlers;

pub use crate::dispatch::{bot_marker, completion_reply, Dispatch, Dispatcher, StartupError};
pub use crate::handler::{HandlerInfo, ALL_CHANNELS_MARKER};
pub use crate::handlers::{InfoHandler, JiraHandler, JiraHandlerArgs};
pub use crate::help::DefaultHelpHandler;
pub use crate::registry::HandlerIndex;
pub use crate::tokenizer::{tokenize, MalformedArguments};
pub use crate::utils::{EventError, InboundMessage};
