//! Standard input as a stream of lines.

use crate::lines::{lines, text_lines};
use crate::transport::texts;
use vstd::prelude::*;

verus! {

/// What arrives on standard input.
#[derive(Debug, Clone, PartialEq, Eq)]
pub enum StdinMessage {
    Line(String),
}

impl View for StdinMessage {
    type V = Seq<char>;

    /// The text of the line.
    open spec fn view(&self) -> Seq<char> {
        match self {
            StdinMessage::Line(text) => text@,
        }
    }
}

/// The texts of a run of messages.
pub open spec fn message_texts(messages: Seq<StdinMessage>) -> Seq<Seq<char>> {
    messages.map_values(|message: StdinMessage| message@)
}

/// The messages of a whole input: one for each of its lines, in order.
pub fn stdin(input: &[u8]) -> (messages: Vec<StdinMessage>)
    ensures
        message_texts(messages@) == text_lines(input@),
{
    let found = lines(input);
    let ghost all = found@;
    let mut messages: Vec<StdinMessage> = Vec::new();
    for text in it: found
        invariant
            it.seq() == all,
            message_texts(messages@) == texts(all.take(it.index() as int)),
    {
        proof {
            let message = StdinMessage::Line(text);
            assert(all.take(it.index() + 1) == all.take(it.index() as int).push(text));
            assert(message_texts(messages@.push(message)) == message_texts(messages@).push(text@));
            assert(texts(all.take(it.index() as int).push(text)) == texts(
                all.take(it.index() as int),
            ).push(text@));
        }
        messages.push(StdinMessage::Line(text));
    }
    proof {
        assert(all.take(all.len() as int) == all);
    }
    messages
}

} // verus!
