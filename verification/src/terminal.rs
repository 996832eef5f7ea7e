//! The operator's side of a session, held in memory: the lines that the
//! operator will type and the prompts written so far.
use crate::text::{lines, split_lines, string_views};
use vstd::prelude::*;

verus! {

/// A scripted operator: answers are read line by line, prompts are recorded.
#[derive(Clone, Debug)]
pub struct Terminal {
    pending: Vec<String>,
    written: Vec<String>,
}

/// The mathematical content of a [`Terminal`].
pub struct TerminalView {
    /// The lines not read yet, the next one first.
    pub pending: Seq<Seq<char>>,
    /// The prompts written so far, the oldest first.
    pub written: Seq<Seq<char>>,
}

impl View for Terminal {
    type V = TerminalView;

    closed spec fn view(&self) -> TerminalView {
        TerminalView {
            pending: string_views(self.pending@),
            written: string_views(self.written@),
        }
    }
}

impl Terminal {
    /// A terminal on which the operator types `input`, with nothing written yet.
    pub fn new(input: &str) -> (t: Self)
        ensures
            t@.pending == split_lines(input@),
            t@.written == Seq::<Seq<char>>::empty(),
    {
        let pending = lines(input);
        Terminal { pending, written: Vec::new() }
    }

    /// Reads the operator's next line; `None` once the input has ended.
    pub fn read_line(&mut self) -> (r: Option<String>)
        ensures
            final(self)@.written == old(self)@.written,
            match r {
                Some(line) => old(self)@.pending.len() > 0 && line@ == old(self)@.pending[0]
                    && final(self)@.pending == old(self)@.pending.drop_first(),
                None => old(self)@.pending.len() == 0 && final(self)@.pending == old(
                    self,
                )@.pending,
            },
    {
        if self.pending.len() == 0 {
            None
        } else {
            let line = self.pending.remove(0);
            Some(line)
        }
    }

    /// Writes a prompt to the operator.
    pub fn write(&mut self, text: &str)
        ensures
            final(self)@.pending == old(self)@.pending,
            final(self)@.written == old(self)@.written.push(text@),
    {
        self.written.push(text.to_owned());
    }

    /// The prompts written so far, the oldest first.
    pub fn written(&self) -> (r: &Vec<String>)
        ensures
            string_views(r@) == self@.written,
    {
        &self.written
    }
}

} // verus!
