//! Gathers header and dialogue lines into one output sequence.

use vstd::prelude::*;

verus! {

/// The text components of a timed line sequence, in order.
pub open spec fn texts_of(ts: Seq<(i64, String)>) -> Seq<Seq<char>> {
    Seq::new(ts.len(), |i: int| ts[i].1@)
}

/// Copy of the range `[a, b)` of a line slice.
pub fn clone_range(lines: &[String], a: usize, b: usize) -> (r: Vec<String>)
    requires
        a <= b <= lines@.len(),
    ensures
        r.deep_view() == lines.deep_view().subrange(a as int, b as int),
{
    let mut r: Vec<String> = Vec::new();
    let mut i: usize = a;
    while i < b
        invariant
            a <= i <= b <= lines@.len(),
            lines.deep_view().len() == lines@.len(),
            r.deep_view() =~~= lines.deep_view().subrange(a as int, i as int),
        decreases b - i,
    {
        let ghost dv0 = r.deep_view();
        r.push(lines[i].clone());
        proof {
            assert(r.deep_view() =~~= dv0.push(lines.deep_view()[i as int]));
        }
        i = i + 1;
    }
    proof {
        assert(r.deep_view() =~= lines.deep_view().subrange(a as int, b as int));
    }
    r
}

/// Assembles output tracks by appending line groups in order.
pub struct LineCollector;

impl LineCollector {
    pub fn new() -> (r: Self)
        ensures
            r == (LineCollector {}),
    {
        LineCollector {}
    }

    /// Appends every line of `header` to `out`.
    pub fn add_header_lines(&self, out: &mut Vec<String>, header: &[String])
        ensures
            final(out).deep_view() == old(out).deep_view() + header.deep_view(),
    {
        let n = header.len();
        let mut i: usize = 0;
        while i < n
            invariant
                i <= n,
                n == header@.len(),
                out.deep_view() =~~= old(out).deep_view() + header.deep_view().subrange(
                    0,
                    i as int,
                ),
            decreases n - i,
        {
            let ghost dv0 = out.deep_view();
            out.push(header[i].clone());
            proof {
                assert(out.deep_view() =~~= dv0.push(header.deep_view()[i as int]));
            }
            i = i + 1;
        }
        proof {
            assert(out.deep_view() =~~= old(out).deep_view() + header.deep_view());
        }
    }

    /// Appends every line of `lines` to `out`.
    pub fn add_string_lines(&self, out: &mut Vec<String>, lines: &[String])
        ensures
            final(out).deep_view() == old(out).deep_view() + lines.deep_view(),
    {
        self.add_header_lines(out, lines);
    }

    /// Appends the line of every timed entry to `out`, in order.
    pub fn add_timed_lines(&self, out: &mut Vec<String>, timed: &[(i64, String)])
        ensures
            final(out).deep_view() == old(out).deep_view() + texts_of(timed@),
    {
        let n = timed.len();
        let mut i: usize = 0;
        while i < n
            invariant
                i <= n,
                n == timed@.len(),
                out.deep_view() =~~= old(out).deep_view() + texts_of(timed@).subrange(0, i as int),
            decreases n - i,
        {
            let ghost dv0 = out.deep_view();
            out.push(timed[i].1.clone());
            proof {
                assert(out.deep_view() =~~= dv0.push(timed@[i as int].1@));
            }
            i = i + 1;
        }
        proof {
            assert(out.deep_view() =~~= old(out).deep_view() + texts_of(timed@));
        }
    }

    /// Header lines first, then the line of every timed entry.
    pub fn collect_all(&self, out: &mut Vec<String>, header: &[String], dialogue: &[(i64, String)])
        ensures
            final(out).deep_view() == old(out).deep_view() + header.deep_view() + texts_of(
                dialogue@,
            ),
    {
        self.add_header_lines(out, header);
        self.add_timed_lines(out, dialogue);
    }

    /// Header lines first, then the given lines.
    pub fn collect_header_and_lines(&self, out: &mut Vec<String>, header: &[String], lines: &[String])
        ensures
            final(out).deep_view() == old(out).deep_view() + header.deep_view()
                + lines.deep_view(),
    {
        self.add_header_lines(out, header);
        self.add_string_lines(out, lines);
    }
}

} // verus!
