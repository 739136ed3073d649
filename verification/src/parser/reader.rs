//! Reading a whole file, step by step.

use super::blocks::read_block;
use super::commands::{Cmd, CmdView, ErrorView, GerberError, views};
use super::extended::read_extended;
use super::grammar;
use super::text::to_chars;
use vstd::prelude::*;

verus! {

/// A text and how far it has been read.
pub struct GerberReader {
    input: Vec<char>,
    position: usize,
}

/// The views of `steps`, in order.
pub open spec fn step_views(steps: Seq<Cmd>) -> Seq<CmdView> {
    Seq::new(steps.len(), |i: int| steps[i]@)
}

impl GerberReader {
    /// The text that is read.
    pub closed spec fn text(&self) -> Seq<char> {
        self.input@
    }

    /// The count of characters read so far.
    pub closed spec fn consumed(&self) -> int {
        self.position as int
    }

    /// The reader never runs past its text.
    pub closed spec fn wf(&self) -> bool {
        self.position <= self.input@.len()
    }

    /// The count of characters read so far: the place in the text at which
    /// the next step starts, and at which a failure was met.
    pub fn position(&self) -> (at: usize)
        ensures
            at == self.consumed(),
    {
        self.position
    }

    /// A reader at the start of `input`.
    pub fn new(input: &str) -> (reader: GerberReader)
        ensures
            reader.wf(),
            reader.text() == input@,
            reader.consumed() == 0,
    {
        GerberReader { input: to_chars(input), position: 0 }
    }

    /// Reads the next step. `None` at the end of the text. After a failure
    /// the reader stays where it was: the next call fails in the same way.
    pub fn next(&mut self) -> (item: Option<Result<Cmd, GerberError>>)
        requires
            old(self).wf(),
        ensures
            final(self).wf(),
            final(self).text() == old(self).text(),
            match item {
                None => old(self).consumed() == old(self).text().len() && final(self).consumed()
                    == old(self).consumed(),
                Some(Ok(cmd)) => {
                    &&& old(self).consumed() < final(self).consumed()
                    &&& grammar::step(old(self).text(), old(self).consumed()) == Ok::<
                        (int, CmdView),
                        ErrorView,
                    >((final(self).consumed(), cmd@))
                },
                Some(Err(e)) => {
                    &&& old(self).consumed() < old(self).text().len()
                    &&& final(self).consumed() == old(self).consumed()
                    &&& grammar::step(old(self).text(), old(self).consumed()) == Err::<
                        (int, CmdView),
                        ErrorView,
                    >(e@)
                },
            },
    {
        if self.position >= self.input.len() {
            return None;
        }
        match read_block(&self.input, self.position) {
            Ok((end, cmd)) => {
                self.position = end;
                return Some(Ok(cmd));
            },
            Err(_) => {},
        }
        match read_extended(&self.input, self.position) {
            Ok((end, cmd)) => {
                self.position = end;
                Some(Ok(cmd))
            },
            Err(e) => Some(Err(e)),
        }
    }

    /// Reads all the steps that are left, up to the end of the text or to
    /// the first failure.
    pub fn commands(self) -> (read: Result<Vec<Cmd>, GerberError>)
        requires
            self.wf(),
        ensures
            match read {
                Ok(steps) => grammar::steps(self.text(), self.consumed()) == Ok::<
                    Seq<CmdView>,
                    ErrorView,
                >(step_views(steps@)),
                Err(e) => grammar::steps(self.text(), self.consumed()) == Err::<
                    Seq<CmdView>,
                    ErrorView,
                >(e@),
            },
    {
        let mut reader = self;
        let mut steps: Vec<Cmd> = Vec::new();
        loop
            invariant
                reader.wf(),
                reader.text() == self.text(),
                self.consumed() <= reader.consumed(),
                match grammar::steps(reader.text(), reader.consumed()) {
                    Ok(rest) => grammar::steps(self.text(), self.consumed()) == Ok::<
                        Seq<CmdView>,
                        ErrorView,
                    >(step_views(steps@) + rest),
                    Err(e) => grammar::steps(self.text(), self.consumed()) == Err::<
                        Seq<CmdView>,
                        ErrorView,
                    >(e),
                },
            decreases reader.text().len() - reader.consumed(),
        {
            let ghost before = reader.consumed();
            match reader.next() {
                None => {
                    proof {
                        assert(step_views(steps@) + Seq::<CmdView>::empty() =~= step_views(
                            steps@,
                        ));
                    }
                    return Ok(steps);
                },
                Some(Err(e)) => {
                    return Err(e);
                },
                Some(Ok(cmd)) => {
                    proof {
                        let done = step_views(steps@);
                        let more = step_views(steps@.push(cmd));
                        assert(more =~= done + seq![cmd@]);
                        match grammar::steps(reader.text(), reader.consumed()) {
                            Ok(rest) => {
                                assert(done + (seq![cmd@] + rest) =~= more + rest);
                            },
                            Err(e) => {},
                        }
                    }
                    steps.push(cmd);
                },
            }
        }
    }
}

} // verus!
