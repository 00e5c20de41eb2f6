//! Abstract timed line: anything with a start, an end and a visible text.

use vstd::prelude::*;

verus! {

/// A timed subtitle line. Times are centiseconds.
pub trait Line {
    fn start(&self) -> i64;

    fn end(&self) -> i64;

    fn text(&self) -> &str;
}

} // verus!
