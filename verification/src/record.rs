//! The structured form of one dialogue record. Timestamps are held as whole
//! centiseconds, the resolution of the `H:MM:SS.CS` timestamp notation, so
//! that timing arithmetic is exact.

use vstd::prelude::*;

use crate::line::Line;

verus! {

/// Number of comma-separated fields a dialogue record carries.
pub const ASS_FIELDS_COUNT: usize = 10;

/// The fields of a dialogue record, by position in its payload.
#[derive(Debug, Clone, Copy, PartialEq, Eq, Structural)]
pub enum AssField {
    Layer,
    Start,
    End,
    Style,
    Name,
    Effect,
    Text,
}

impl AssField {
    /// Position of the field among the ten comma-separated fields.
    pub open spec fn spec_index(self) -> usize {
        match self {
            AssField::Layer => 0,
            AssField::Start => 1,
            AssField::End => 2,
            AssField::Style => 3,
            AssField::Name => 4,
            AssField::Effect => 8,
            AssField::Text => 9,
        }
    }

    /// Position of the field among the ten comma-separated fields.
    pub fn index(self) -> (r: usize)
        ensures
            r == self.spec_index(),
    {
        match self {
            AssField::Layer => 0,
            AssField::Start => 1,
            AssField::End => 2,
            AssField::Style => 3,
            AssField::Name => 4,
            AssField::Effect => 8,
            AssField::Text => 9,
        }
    }
}

/// Mathematical image of a dialogue record.
pub struct SpecRecord {
    pub layer: Seq<char>,
    pub start: int,
    pub end: int,
    pub style: Seq<char>,
    pub name: Seq<char>,
    pub effect: Seq<char>,
    pub text: Seq<char>,
}

/// One parsed dialogue record. `start` and `end` are centiseconds.
#[derive(Debug, Clone)]
pub struct AssLine {
    pub layer: String,
    pub start: i64,
    pub end: i64,
    pub style: String,
    pub name: String,
    pub effect: String,
    pub text: String,
}

impl View for AssLine {
    type V = SpecRecord;

    open spec fn view(&self) -> SpecRecord {
        SpecRecord {
            layer: self.layer@,
            start: self.start as int,
            end: self.end as int,
            style: self.style@,
            name: self.name@,
            effect: self.effect@,
            text: self.text@,
        }
    }
}

impl Line for AssLine {
    fn start(&self) -> (r: i64)
        ensures
            r == self.start,
    {
        self.start
    }

    fn end(&self) -> (r: i64)
        ensures
            r == self.end,
    {
        self.end
    }

    fn text(&self) -> (r: &str)
        ensures
            r@ == self.text@,
    {
        self.text.as_str()
    }
}

} // verus!
