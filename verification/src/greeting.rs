//! A greeting by name, plain or in upper case.

use vstd::prelude::*;
use vstd::string::StringExecFns;

verus! {

/// The upper-case form of `text`, as `str::to_uppercase` gives it. It may
/// differ from the text in length.
pub uninterp spec fn spec_uppercase(text: Seq<char>) -> Seq<char>;

/// Calls `str::to_uppercase`.
///
/// Trusted: the result depends on the characters of `text` alone.
#[verifier::external_body]
fn uppercase(text: &str) -> (upper: String)
    ensures
        upper@ == spec_uppercase(text@),
{
    text.to_uppercase()
}

/// What of a greeting is put in upper case.
#[derive(Clone, Copy, Debug, PartialEq, Eq, Structural)]
pub enum Emphasis {
    /// Nothing: the name stands as it was given.
    Plain,
    /// The name, before it is put into the greeting.
    LoudName,
    /// The whole greeting.
    LoudMessage,
}

/// The greeting for a name: `Hello, `, the name, and an exclamation mark.
pub open spec fn spec_frame(name: Seq<char>) -> Seq<char> {
    "Hello, "@ + name + "!"@
}

/// The greeting for a name with the given emphasis.
pub open spec fn spec_greeting(name: Seq<char>, emphasis: Emphasis) -> Seq<char> {
    match emphasis {
        Emphasis::Plain => spec_frame(name),
        Emphasis::LoudName => spec_frame(spec_uppercase(name)),
        Emphasis::LoudMessage => spec_uppercase(spec_frame(name)),
    }
}

/// Puts a name into the greeting.
pub fn frame(name: &str) -> (message: String)
    ensures
        message@ == spec_frame(name@),
{
    let mut message = String::from_str("Hello, ");
    message.append(name);
    message.append("!");
    message
}

/// The greeting for a name with the given emphasis.
pub fn greeting(name: &str, emphasis: Emphasis) -> (message: String)
    ensures
        message@ == spec_greeting(name@, emphasis),
{
    match emphasis {
        Emphasis::Plain => frame(name),
        Emphasis::LoudName => {
            let loud = uppercase(name);
            frame(loud.as_str())
        },
        Emphasis::LoudMessage => {
            let plain = frame(name);
            uppercase(plain.as_str())
        },
    }
}

} // verus!
