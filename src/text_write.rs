//! The capability through which rendered text leaves the library.

use vstd::prelude::*;

verus! {

/// A sink for rendered characters, line by line.
pub trait TextWrite<T> {
    /// The text that the sink has accepted so far, newlines included. Code that
    /// is generic over the sink sees only what the methods below state of it.
    closed spec fn written(&self) -> Seq<char> {
        Seq::empty()
    }

    fn flush(&mut self) -> (r: Result<(), T>)
        ensures
            final(self).written() == old(self).written(),
    ;

    fn write_char(&mut self, c: char) -> (r: Result<(), T>)
        ensures
            r is Ok ==> final(self).written() == old(self).written().push(c),
    ;

    fn write_newline(&mut self) -> (r: Result<(), T>)
        ensures
            r is Ok ==> final(self).written() == old(self).written().push('\n'),
    ;
}

/// The rows one after another, each followed by a newline.
pub open spec fn lines_text(rows: Seq<Seq<char>>) -> Seq<char>
    decreases rows.len(),
{
    if rows.len() == 0 {
        seq![]
    } else {
        lines_text(rows.drop_last()) + rows.last() + seq!['\n']
    }
}

} // verus!
