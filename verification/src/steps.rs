//! One cursor position of the walked track: the current record and, when
//! one exists, the record after it.

use vstd::prelude::*;

verus! {

/// The current record of the walked track and its successor.
pub struct Steps {
    current_line: String,
    next_line: Option<String>,
}

impl Steps {
    /// The current record.
    pub closed spec fn current_view(&self) -> Seq<char> {
        self.current_line@
    }

    /// The record after the current one, if any.
    pub closed spec fn next_view(&self) -> Option<Seq<char>> {
        match self.next_line {
            Some(s) => Some(s@),
            None => None,
        }
    }

    pub fn new(lines: &[String], index: usize) -> (r: Self)
        requires
            index < lines@.len(),
        ensures
            r.current_view() == lines.deep_view()[index as int],
            index + 1 < lines@.len() ==> r.next_view() == Some(
                lines.deep_view()[index as int + 1],
            ),
            index + 1 >= lines@.len() ==> r.next_view() is None,
    {
        let n = lines.len();
        let next = if index + 1 < n {
            Some(lines[index + 1].clone())
        } else {
            None
        };
        Steps { current_line: lines[index].clone(), next_line: next }
    }

    pub fn current_line(&self) -> (r: &String)
        ensures
            r@ == self.current_view(),
    {
        &self.current_line
    }

    pub fn next_line(&self) -> (r: Option<&String>)
        ensures
            match r {
                Some(s) => self.next_view() == Some(s@),
                None => self.next_view() is None,
            },
    {
        self.next_line.as_ref()
    }
}

} // verus!
