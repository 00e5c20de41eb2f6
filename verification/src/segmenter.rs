//! Splits a track at its first dialogue record: everything before is the
//! header, everything from there on is the dialogue section.

use vstd::prelude::*;

use crate::parser::{Parser, spec_is_dialogue};

verus! {

/// The lines before the first dialogue record.
pub open spec fn spec_header(ls: Seq<Seq<char>>) -> Seq<Seq<char>>
    decreases ls.len(),
{
    if ls.len() == 0 {
        ls
    } else if spec_is_dialogue(ls[0]) {
        Seq::empty()
    } else {
        seq![ls[0]] + spec_header(ls.drop_first())
    }
}

/// The lines from the first dialogue record on.
pub open spec fn spec_dialogues(ls: Seq<Seq<char>>) -> Seq<Seq<char>>
    decreases ls.len(),
{
    if ls.len() == 0 {
        ls
    } else if spec_is_dialogue(ls[0]) {
        ls
    } else {
        spec_dialogues(ls.drop_first())
    }
}

/// Splits a track into header and dialogue section.
pub struct AssSegmenter;

impl AssSegmenter {
    pub fn new() -> (r: Self)
        ensures
            r == (AssSegmenter {}),
    {
        AssSegmenter {}
    }

    /// The lines before the first dialogue record, verbatim.
    pub fn extract_header(&self, lines: &[String], p: &Parser) -> (r: Vec<String>)
        ensures
            r.deep_view() == spec_header(lines.deep_view()),
    {
        let n = lines.len();
        let mut out: Vec<String> = Vec::new();
        let mut i: usize = 0;
        proof {
            assert(lines.deep_view().skip(0) =~= lines.deep_view());
        }
        while i < n
            invariant
                i <= n,
                n == lines@.len(),
                lines.deep_view().len() == n,
                forall|j: int| 0 <= j < i ==> !spec_is_dialogue(#[trigger] lines.deep_view()[j]),
                spec_header(lines.deep_view()) =~~= out.deep_view() + spec_header(
                    lines.deep_view().skip(i as int),
                ),
                out.deep_view().len() == i,
            decreases n - i,
        {
            let ghost dv = lines.deep_view();
            let ghost rest = dv.skip(i as int);
            proof {
                assert(rest[0] == dv[i as int]);
                assert(rest.drop_first() =~= dv.skip(i as int + 1));
            }
            if p.is_dialogue(&lines[i]) {
                proof {
                    assert(out.deep_view() + spec_header(rest) =~= out.deep_view());
                }
                return out;
            }
            let ghost dv0 = out.deep_view();
            out.push(lines[i].clone());
            proof {
                assert(out.deep_view() =~~= dv0.push(dv[i as int]));
            }
            i = i + 1;
        }
        proof {
            let dv = lines.deep_view();
            assert(dv.skip(n as int).len() == 0);
            assert(out.deep_view() + spec_header(dv.skip(n as int)) =~= out.deep_view());
        }
        out
    }

    /// The lines from the first dialogue record on, verbatim.
    pub fn extract_dialogues(&self, lines: &[String], p: &Parser) -> (r: Vec<String>)
        ensures
            r.deep_view() == spec_dialogues(lines.deep_view()),
    {
        let n = lines.len();
        let mut i: usize = 0;
        proof {
            assert(lines.deep_view().skip(0) =~= lines.deep_view());
        }
        while i < n
            invariant
                i <= n,
                n == lines@.len(),
                lines.deep_view().len() == n,
                spec_dialogues(lines.deep_view()) == spec_dialogues(
                    lines.deep_view().skip(i as int),
                ),
            decreases n - i,
        {
            let ghost dv = lines.deep_view();
            let ghost rest = dv.skip(i as int);
            proof {
                assert(rest[0] == dv[i as int]);
                assert(rest.drop_first() =~= dv.skip(i as int + 1));
            }
            if p.is_dialogue(&lines[i]) {
                // copy the suffix from here on
                let mut out: Vec<String> = Vec::new();
                let mut j: usize = i;
                while j < n
                    invariant
                        i <= j <= n,
                        n == lines@.len(),
                        lines.deep_view().len() == n,
                        out.deep_view() =~~= lines.deep_view().subrange(i as int, j as int),
                    decreases n - j,
                {
                    let ghost dv0 = out.deep_view();
                    out.push(lines[j].clone());
                    proof {
                        assert(out.deep_view() =~~= dv0.push(lines.deep_view()[j as int]));
                        assert(out.deep_view() =~~= lines.deep_view().subrange(
                            i as int,
                            j as int + 1,
                        ));
                    }
                    j = j + 1;
                }
                proof {
                    assert(out.deep_view() =~= rest);
                    assert(spec_dialogues(rest) == rest);
                }
                return out;
            }
            i = i + 1;
        }
        proof {
            assert(spec_dialogues(lines.deep_view().skip(n as int)).len() == 0);
        }
        let out: Vec<String> = Vec::new();
        proof {
            assert(out.deep_view() =~= spec_dialogues(lines.deep_view()));
        }
        out
    }
}

} // verus!
