//! Command candidates and the accumulation of a streamed answer.
use vstd::prelude::*;

use crate::text::{parse, parse_lines, strings_view};

verus! {

/// The command candidates of an answer, in their order.
pub struct ShellCommand {
    pub commands: Vec<String>,
}

impl View for ShellCommand {
    type V = Seq<Seq<char>>;

    open spec fn view(&self) -> Seq<Seq<char>> {
        strings_view(self.commands@)
    }
}

impl ShellCommand {
    /// The candidates of a multiline text: each line trimmed, the empty ones dropped.
    pub fn from_multiline(input: &str) -> (r: Self)
        ensures
            r@ == parse(input@),
    {
        ShellCommand { commands: parse_lines(input) }
    }

    /// No candidates.
    pub fn new() -> (r: Self)
        ensures
            r@ == Seq::<Seq<char>>::empty(),
    {
        let r = ShellCommand { commands: Vec::new() };
        assert(r@ =~= Seq::<Seq<char>>::empty());
        r
    }

    pub fn len(&self) -> (r: usize)
        ensures
            r == self@.len(),
    {
        self.commands.len()
    }
}

/// The text of a streamed answer, grown chunk by chunk.
pub struct StreamAccumulator {
    buffer: String,
}

impl View for StreamAccumulator {
    type V = Seq<char>;

    closed spec fn view(&self) -> Seq<char> {
        self.buffer@
    }
}

impl StreamAccumulator {
    pub fn new() -> (r: Self)
        ensures
            r@ == Seq::<char>::empty(),
    {
        StreamAccumulator { buffer: String::new() }
    }

    /// Appends `chunk` to the text and returns the candidates of the whole text.
    pub fn append(&mut self, chunk: &str) -> (r: ShellCommand)
        ensures
            final(self)@ == old(self)@ + chunk@,
            r@ == parse(final(self)@),
    {
        self.buffer.append(chunk);
        ShellCommand::from_multiline(self.buffer.as_str())
    }

    /// The candidates of the text received so far.
    pub fn commands(&self) -> (r: ShellCommand)
        ensures
            r@ == parse(self@),
    {
        ShellCommand::from_multiline(self.buffer.as_str())
    }
}

} // verus!
