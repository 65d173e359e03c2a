//! Shell-like splitting of a command line into arguments.
use vstd::prelude::*;
use crate::text::strs;

verus! {

/// The words that POSIX shell quoting rules make of `s`, or `None` where
/// its quoting is unbalanced.
pub uninterp spec fn shell_words(s: Seq<char>) -> Option<Seq<Seq<char>>>;

/// Relies on `shlex::split`: `None` exactly when the input is erroneous,
/// else its words; an empty input has no words.
#[verifier::external_body]
fn shlex_split(s: &str) -> (r: Option<Vec<String>>)
    ensures
        match r {
            Some(v) => shell_words(s@) == Some(strs(v@)),
            None => shell_words(s@) == None::<Seq<Seq<char>>>,
        },
        s@.len() == 0 ==> (match r {
            Some(v) => v@.len() == 0,
            None => false,
        }),
{
    shlex::split(s)
}

/// Quoting in a command line is unbalanced.
pub struct MalformedArguments;

impl MalformedArguments {
    /// The reply that tells the user of the failure.
    pub fn message(&self) -> (r: &'static str)
        ensures
            r@ == "Fail to parse arguments: Invalid quoting"@,
    {
        "Fail to parse arguments: Invalid quoting"
    }
}

/// Splits `s` into words as a POSIX shell would.
pub fn tokenize(s: &str) -> (r: Result<Vec<String>, MalformedArguments>)
    ensures
        match r {
            Ok(v) => shell_words(s@) == Some(strs(v@)),
            Err(_) => shell_words(s@) == None::<Seq<Seq<char>>>,
        },
        s@.len() == 0 ==> (match r {
            Ok(v) => v@.len() == 0,
            Err(_) => false,
        }),
{
    match shlex_split(s) {
        Some(v) => Ok(v),
        None => Err(MalformedArguments),
    }
}

} // verus!
