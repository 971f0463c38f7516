//! Failures as chains of messages, from the outermost context to the cause.
use vstd::prelude::*;

use crate::text;
use crate::text::Text;

verus! {

/// Why an operation failed: the outermost message first, its causes after it.
#[derive(Debug)]
pub struct Failure {
    pub messages: Vec<String>,
}

impl View for Failure {
    type V = Seq<Text>;

    open spec fn view(&self) -> Seq<Text> {
        text::strings(self.messages@)
    }
}

impl Failure {
    /// A failure with one message.
    pub fn new(message: String) -> (r: Failure)
        ensures
            r@ == seq![message@],
    {
        let mut messages: Vec<String> = Vec::new();
        messages.push(message);
        let r = Failure { messages };
        assert(r@ =~= seq![message@]);
        r
    }

    /// A failure with a message and the cause beneath it.
    pub fn because(message: String, cause: &str) -> (r: Failure)
        ensures
            r@ == seq![message@, cause@],
    {
        let mut messages: Vec<String> = Vec::new();
        messages.push(message);
        messages.push(cause.to_string());
        let r = Failure { messages };
        assert(r@ =~= seq![message@, cause@]);
        r
    }

    /// The same failure beneath one more message.
    pub fn context(self, message: String) -> (r: Failure)
        ensures
            r@ == seq![message@] + self@,
    {
        let ghost before = self@;
        let mut messages = self.messages;
        messages.insert(0, message);
        let r = Failure { messages };
        assert(r@ =~= seq![message@] + before);
        r
    }

    /// A copy of the failure.
    pub fn copy(&self) -> (r: Failure)
        ensures
            r@ == self@,
    {
        let messages = text::copy_strings(&self.messages);
        Failure { messages }
    }

    /// The whole chain on one line: the messages with `: ` between them.
    pub fn chain(&self) -> (r: String)
        ensures
            r@ == text::join(self@, ": "@),
    {
        text::join_strings(&self.messages, ": ")
    }
}

} // verus!
