//! Orders the dialogue section of a track by start time. The header is kept
//! verbatim; the dialogue suffix is stable-sorted on the millisecond image
//! of each record's start time, so records with equal quantized starts keep
//! their original relative order.

use vstd::prelude::*;

use crate::errors::{ParserError, ParseRes};
use crate::codec::spec_parse;
use crate::collector::{LineCollector, texts_of};
use crate::parser::Parser;
use crate::segmenter::{AssSegmenter, spec_header, spec_dialogues};

verus! {

/// A timed pair carries a start time, in centiseconds, and its line.
pub open spec fn wf_pair(q: (int, Seq<char>)) -> bool {
    match spec_parse(q.1) {
        Ok(r) => r.start == q.0,
        Err(_) => false,
    }
}

/// The timed pairs of a dialogue section, or its first parse error.
pub open spec fn spec_timed(ls: Seq<Seq<char>>) -> Result<
    Seq<(int, Seq<char>)>,
    ParserError,
>
    decreases ls.len(),
{
    if ls.len() == 0 {
        Ok(Seq::empty())
    } else {
        match spec_parse(ls[0]) {
            Err(e) => Err(e),
            Ok(r) => match spec_timed(ls.drop_first()) {
                Err(e) => Err(e),
                Ok(t) => Ok(seq![(r.start, ls[0])] + t),
            },
        }
    }
}

/// Insertion into a sorted sequence: the new pair lands before the first
/// strictly later pair, after every pair at the same time.
pub open spec fn insert_sorted(x: (int, Seq<char>), s: Seq<(int, Seq<char>)>) -> Seq<
    (int, Seq<char>),
>
    decreases s.len(),
{
    if s.len() == 0 {
        seq![x]
    } else if x.0 < s[0].0 {
        seq![x] + s
    } else {
        seq![s[0]] + insert_sorted(x, s.drop_first())
    }
}

/// Stable sort by start time: each pair in turn is inserted into the sorted
/// image of the pairs before it.
pub open spec fn spec_sort(s: Seq<(int, Seq<char>)>) -> Seq<(int, Seq<char>)>
    decreases s.len(),
{
    if s.len() == 0 {
        s
    } else {
        insert_sorted(s.last(), spec_sort(s.drop_last()))
    }
}

/// Adjacent pairs are ordered by start time.
pub open spec fn sorted_pairs(s: Seq<(int, Seq<char>)>) -> bool {
    forall|i: int| 0 <= i < s.len() - 1 ==> (#[trigger] s[i].0) <= s[i + 1].0
}

/// The lines of a timed-pair sequence.
pub open spec fn pair_texts(t: Seq<(int, Seq<char>)>) -> Seq<Seq<char>> {
    Seq::new(t.len(), |i: int| t[i].1)
}

/// The sorted image of a track: header verbatim, dialogue suffix ordered by
/// start time, or the first parse error of the dialogue suffix.
pub open spec fn spec_sorter(ls: Seq<Seq<char>>) -> Result<Seq<Seq<char>>, ParserError> {
    match spec_timed(spec_dialogues(ls)) {
        Err(e) => Err(e),
        Ok(t) => Ok(spec_header(ls) + pair_texts(spec_sort(t))),
    }
}

/// The mathematical image of a `Vec` of timed lines.
pub open spec fn pairs_view(s: Seq<(i64, String)>) -> Seq<(int, Seq<char>)> {
    Seq::new(s.len(), |i: int| (s[i].0 as int, s[i].1@))
}

/// Splits, orders and reassembles one track.
pub struct Sorter {
    parser: Parser,
    segmenter: AssSegmenter,
}

impl Sorter {
    pub fn new() -> Self {
        Sorter { parser: Parser::new(), segmenter: AssSegmenter::new() }
    }

    /// Sorted image of the track, or the first parse error of its dialogue
    /// suffix.
    pub fn run(&self, lines: &[String]) -> (r: ParseRes<Vec<String>>)
        ensures
            r matches Ok(out) ==> spec_sorter(lines.deep_view()) == Ok::<_, ParserError>(
                out.deep_view(),
            ),
            r matches Err(e) ==> spec_sorter(lines.deep_view()) == Err::<Seq<Seq<char>>, _>(e),
    {
        let header = self.segmenter.extract_header(lines, &self.parser);
        let dialogues = self.segmenter.extract_dialogues(lines, &self.parser);
        let timed = match self.collect_timed(dialogues.as_slice()) {
            Ok(t) => t,
            Err(e) => {
                return Err(e);
            },
        };
        let sorted = Self::sort_pairs(timed);
        let mut out: Vec<String> = Vec::new();
        let collector = LineCollector::new();
        collector.collect_all(&mut out, header.as_slice(), sorted.as_slice());
        proof {
            assert(texts_of(sorted@) =~= pair_texts(pairs_view(sorted@)));
            assert(out.deep_view() =~= spec_header(lines.deep_view()) + pair_texts(
                spec_sort(pairs_view(timed@)),
            ));
        }
        Ok(out)
    }

    /// Reads the start time of every line of the dialogue suffix.
    fn collect_timed(&self, ls: &[String]) -> (r: ParseRes<Vec<(i64, String)>>)
        ensures
            r matches Ok(t) ==> spec_timed(ls.deep_view()) == Ok::<_, ParserError>(
                pairs_view(t@),
            ),
            r matches Err(e) ==> spec_timed(ls.deep_view()) == Err::<Seq<(int, Seq<char>)>, _>(e),
    {
        let n = ls.len();
        let mut t: Vec<(i64, String)> = Vec::new();
        let mut i: usize = 0;
        proof {
            assert(ls.deep_view().skip(0) =~= ls.deep_view());
        }
        while i < n
            invariant
                i <= n,
                n == ls@.len(),
                ls.deep_view().len() == n,
                pairs_view(t@).len() == i,
                forall|e: ParserError|
                    spec_timed(ls.deep_view()) == Err::<Seq<(int, Seq<char>)>, _>(e)
                        <==> spec_timed(ls.deep_view().skip(i as int)) == Err::<
                        Seq<(int, Seq<char>)>,
                        _,
                    >(e),
                spec_timed(ls.deep_view().skip(i as int)) matches Ok(tl) ==> spec_timed(
                    ls.deep_view(),
                ) == Ok::<_, ParserError>(pairs_view(t@) + tl),
            decreases n - i,
        {
            let ghost dv = ls.deep_view();
            let ghost rest = dv.skip(i as int);
            proof {
                assert(rest[0] == dv[i as int]);
                assert(rest.drop_first() =~= dv.skip(i as int + 1));
            }
            match self.parser.parse_ass_line(&ls[i]) {
                Err(e) => {
                    return Err(e);
                },
                Ok(rec) => {
                    let ghost pv0 = pairs_view(t@);
                    t.push((rec.start, ls[i].clone()));
                    proof {
                        assert(pairs_view(t@) =~= pv0.push((rec.start as int, dv[i as int])));
                        let timed_rest = spec_timed(dv.skip(i as int + 1));
                        if timed_rest is Ok {
                            let tl = timed_rest->Ok_0;
                            assert(spec_timed(rest) == Ok::<_, ParserError>(
                                seq![(rec.start as int, dv[i as int])] + tl,
                            ));
                            assert(pv0 + (seq![(rec.start as int, dv[i as int])] + tl) =~= pairs_view(
                                t@,
                            ) + tl);
                        }
                    }
                },
            }
            i = i + 1;
        }
        proof {
            assert(ls.deep_view().skip(n as int).len() == 0);
            assert(spec_timed(ls.deep_view().skip(n as int)) == Ok::<_, ParserError>(
                Seq::<(int, Seq<char>)>::empty(),
            ));
            assert(pairs_view(t@) + Seq::<(int, Seq<char>)>::empty() =~= pairs_view(t@));
        }
        Ok(t)
    }

    /// Stable insertion sort of the timed pairs.
    #[verifier::rlimit(100)]
    fn sort_pairs(t: Vec<(i64, String)>) -> (r: Vec<(i64, String)>)
        ensures
            pairs_view(r@) == spec_sort(pairs_view(t@)),
    {
        let n = t.len();
        let mut out: Vec<(i64, String)> = Vec::new();
        let mut i: usize = 0;
        proof {
            assert(pairs_view(t@).subrange(0, 0) =~= Seq::<(int, Seq<char>)>::empty());
        }
        while i < n
            invariant
                i <= n,
                n == t@.len(),
                out@.len() == i,
                pairs_view(out@) == spec_sort(pairs_view(t@).subrange(0, i as int)),
                sorted_pairs(pairs_view(out@)),
            decreases n - i,
        {
            let ghost pv = pairs_view(t@);
            let ghost ov = pairs_view(out@);
            let x = (t[i].0, t[i].1.clone());
            let ghost xs = (x.0 as int, x.1@);
            proof {
                assert(xs == pv[i as int]);
            }
            // scan from the end for the insertion point
            let mut idx: usize = out.len();
            while idx > 0 && out[idx - 1].0 > x.0
                invariant
                    idx <= out@.len(),
                    ov == pairs_view(out@),
                    x.0 == xs.0,
                    forall|j: int| idx <= j < ov.len() ==> (#[trigger] ov[j].0) > xs.0,
                decreases idx,
            {
                idx = idx - 1;
            }
            proof {
                assert(idx > 0 ==> ov[idx - 1].0 <= xs.0);
                assert forall|j: int| 0 <= j < idx implies (#[trigger] ov[j].0) <= xs.0 by {
                    lemma_sorted_le(ov, j, idx as int - 1);
                }
                lemma_insert_sorted_split(xs, ov, idx as int);
            }
            out.insert(idx, x);
            proof {
                assert(pairs_view(out@) =~= ov.subrange(0, idx as int) + seq![xs] + ov.subrange(
                    idx as int,
                    ov.len() as int,
                ));
                assert(pairs_view(out@) == insert_sorted(xs, ov));
                assert(pv.subrange(0, i as int + 1).drop_last() =~= pv.subrange(0, i as int));
                assert(pv.subrange(0, i as int + 1).last() == xs);
                lemma_insert_preserves_sorted(xs, ov);
            }
            i = i + 1;
        }
        proof {
            assert(pairs_view(t@).subrange(0, n as int) =~= pairs_view(t@));
        }
        out
    }
}

/// Where the insertion point is known, insertion is a splice at that point.
proof fn lemma_insert_sorted_split(x: (int, Seq<char>), s: Seq<(int, Seq<char>)>, k: int)
    requires
        0 <= k <= s.len(),
        forall|j: int| 0 <= j < k ==> (#[trigger] s[j].0) <= x.0,
        forall|j: int| k <= j < s.len() ==> (#[trigger] s[j].0) > x.0,
    ensures
        insert_sorted(x, s) == s.subrange(0, k) + seq![x] + s.subrange(k, s.len() as int),
    decreases s.len(),
{
    if s.len() == 0 {
        assert(insert_sorted(x, s) =~= s.subrange(0, k) + seq![x] + s.subrange(
            k,
            s.len() as int,
        ));
    } else if x.0 < s[0].0 {
        assert(k == 0);
        assert(insert_sorted(x, s) =~= s.subrange(0, k) + seq![x] + s.subrange(
            k,
            s.len() as int,
        ));
    } else {
        assert(k >= 1);
        let rest = s.drop_first();
        assert(forall|j: int| 0 <= j < k - 1 ==> (#[trigger] rest[j].0) <= x.0);
        assert(forall|j: int| k - 1 <= j < rest.len() ==> (#[trigger] rest[j].0) > x.0);
        lemma_insert_sorted_split(x, rest, k - 1);
        assert(rest.subrange(0, k - 1) =~= s.subrange(1, k));
        assert(rest.subrange(k - 1, rest.len() as int) =~= s.subrange(k, s.len() as int));
        assert(insert_sorted(x, s) =~= s.subrange(0, k) + seq![x] + s.subrange(
            k,
            s.len() as int,
        ));
    }
}

/// Insertion keeps the sequence ordered.
proof fn lemma_insert_preserves_sorted(x: (int, Seq<char>), s: Seq<(int, Seq<char>)>)
    requires
        sorted_pairs(s),
    ensures
        sorted_pairs(insert_sorted(x, s)),
    decreases s.len(),
{
    if s.len() == 0 {
    } else if x.0 < s[0].0 {
        let r = seq![x] + s;
        assert forall|i: int| 0 <= i < r.len() - 1 implies (#[trigger] r[i].0) <= r[i + 1].0 by {
            if i > 0 {
                assert(s[i - 1].0 <= s[i].0);
            }
        }
    } else {
        let rest = s.drop_first();
        assert(sorted_pairs(rest)) by {
            assert(forall|i: int|
                0 <= i < rest.len() - 1 ==> (#[trigger] rest[i].0) == s[i + 1].0 && rest[i
                    + 1].0 == s[i + 2].0);
        }
        lemma_insert_preserves_sorted(x, rest);
        let r = seq![s[0]] + insert_sorted(x, rest);
        assert forall|i: int| 0 <= i < r.len() - 1 implies (#[trigger] r[i].0) <= r[i + 1].0 by {
            if i == 0 {
                if rest.len() == 0 {
                } else if x.0 < rest[0].0 {
                    assert(r[1] == x);
                } else {
                    assert(r[1] == rest[0]);
                    assert(s[0].0 <= s[1].0);
                }
            } else {
                assert(r[i] == insert_sorted(x, rest)[i - 1]);
                assert(r[i + 1] == insert_sorted(x, rest)[i]);
            }
        }
    }
}

/// The sort's result is ordered.
pub proof fn lemma_sort_sorted(s: Seq<(int, Seq<char>)>)
    ensures
        sorted_pairs(spec_sort(s)),
    decreases s.len(),
{
    if s.len() > 0 {
        lemma_sort_sorted(s.drop_last());
        lemma_insert_preserves_sorted(s.last(), spec_sort(s.drop_last()));
    }
}

/// A pair at or after every element of an ordered sequence appends at the end.
proof fn lemma_insert_at_end(x: (int, Seq<char>), s: Seq<(int, Seq<char>)>)
    requires
        forall|i: int| 0 <= i < s.len() ==> (#[trigger] s[i].0) <= x.0,
    ensures
        insert_sorted(x, s) == s + seq![x],
    decreases s.len(),
{
    if s.len() == 0 {
        assert(insert_sorted(x, s) =~= s + seq![x]);
    } else {
        let rest = s.drop_first();
        lemma_insert_at_end(x, rest);
        assert(insert_sorted(x, s) =~= s + seq![x]);
    }
}

/// An ordered sequence is ordered between any two positions.
proof fn lemma_sorted_le(s: Seq<(int, Seq<char>)>, i: int, j: int)
    requires
        sorted_pairs(s),
        0 <= i <= j < s.len(),
    ensures
        s[i].0 <= s[j].0,
    decreases j - i,
{
    if i < j {
        lemma_sorted_le(s, i, j - 1);
        assert(s[j - 1].0 <= s[j].0);
    }
}

/// Sorting an ordered sequence changes nothing: the sort is idempotent.
pub proof fn lemma_sort_identity(s: Seq<(int, Seq<char>)>)
    requires
        sorted_pairs(s),
    ensures
        spec_sort(s) == s,
    decreases s.len(),
{
    if s.len() > 0 {
        let front = s.drop_last();
        assert forall|i: int| 0 <= i < front.len() - 1 implies (#[trigger] front[i].0) <= front[
            i + 1
        ].0 by {
            assert(front[i] == s[i]);
            assert(front[i + 1] == s[i + 1]);
        }
        lemma_sort_identity(front);
        assert forall|i: int| 0 <= i < front.len() implies (#[trigger] front[i].0)
            <= s.last().0 by {
            lemma_sorted_le(s, i, s.len() - 1);
        }
        lemma_insert_at_end(s.last(), front);
        assert(front + seq![s.last()] =~= s);
    }
}

/// The timed pairs of a dialogue section carry exactly its lines, and every
/// pair carries the start time its own line parses to.
proof fn lemma_timed_wf(ls: Seq<Seq<char>>)
    requires
        spec_timed(ls) is Ok,
    ensures
        pair_texts(spec_timed(ls)->Ok_0) =~= ls,
        forall|i: int| 0 <= i < spec_timed(ls)->Ok_0.len() ==> wf_pair(
            #[trigger] spec_timed(ls)->Ok_0[i],
        ),
    decreases ls.len(),
{
    if ls.len() > 0 {
        lemma_timed_wf(ls.drop_first());
        let t = spec_timed(ls)->Ok_0;
        let tr = spec_timed(ls.drop_first())->Ok_0;
        assert(forall|i: int| 1 <= i < t.len() ==> t[i] == tr[i - 1]);
        assert forall|i: int| 0 <= i < pair_texts(t).len() implies pair_texts(t)[i]
            == ls[i] by {
            if i > 0 {
                assert(pair_texts(tr)[i - 1] == ls.drop_first()[i - 1]);
            }
        }
    }
}

/// Insertion keeps every pair well formed.
proof fn lemma_insert_preserves_wf(x: (int, Seq<char>), s: Seq<(int, Seq<char>)>)
    requires
        wf_pair(x),
        forall|i: int| 0 <= i < s.len() ==> wf_pair(#[trigger] s[i]),
    ensures
        forall|i: int| 0 <= i < insert_sorted(x, s).len() ==> wf_pair(
            #[trigger] insert_sorted(x, s)[i],
        ),
    decreases s.len(),
{
    if s.len() == 0 {
    } else if x.0 < s[0].0 {
    } else {
        let rest = s.drop_first();
        lemma_insert_preserves_wf(x, rest);
        let r = seq![s[0]] + insert_sorted(x, rest);
        assert forall|i: int| 0 <= i < r.len() implies wf_pair(#[trigger] r[i]) by {
            if i > 0 {
                assert(r[i] == insert_sorted(x, rest)[i - 1]);
            }
        }
    }
}

/// Sorting keeps every pair well formed.
proof fn lemma_sort_preserves_wf(s: Seq<(int, Seq<char>)>)
    requires
        forall|i: int| 0 <= i < s.len() ==> wf_pair(#[trigger] s[i]),
    ensures
        forall|i: int| 0 <= i < spec_sort(s).len() ==> wf_pair(#[trigger] spec_sort(s)[i]),
    decreases s.len(),
{
    if s.len() > 0 {
        let front = s.drop_last();
        lemma_sort_preserves_wf(front);
        lemma_insert_preserves_wf(s.last(), spec_sort(front));
    }
}

/// Reading the times back from the lines of well-formed pairs restores the
/// pairs.
proof fn lemma_timed_of_texts(t: Seq<(int, Seq<char>)>)
    requires
        forall|i: int| 0 <= i < t.len() ==> wf_pair(#[trigger] t[i]),
    ensures
        spec_timed(pair_texts(t)) == Ok::<_, ParserError>(t),
    decreases t.len(),
{
    if t.len() == 0 {
        assert(t =~= Seq::<(int, Seq<char>)>::empty());
        assert(spec_timed(pair_texts(t)) == Ok::<_, ParserError>(Seq::<(int, Seq<char>)>::empty()));
    } else {
        let rest = t.drop_first();
        assert(forall|i: int| 0 <= i < rest.len() ==> #[trigger] rest[i] == t[i + 1]);
        lemma_timed_of_texts(rest);
        let ls = pair_texts(t);
        assert(ls.drop_first() =~= pair_texts(rest));
        assert(wf_pair(t[0]));
        assert(ls[0] == t[0].1);
        let r = spec_parse(ls[0])->Ok_0;
        assert(r.start == t[0].0);
        assert(spec_timed(ls) == Ok::<_, ParserError>(seq![(r.start, ls[0])] + rest));
        assert(seq![(r.start, ls[0])] + rest =~= t);
    }
}

/// The lines before the first dialogue record are themselves no dialogue
/// records.
proof fn lemma_header_non_dialogue(ls: Seq<Seq<char>>)
    ensures
        forall|i: int| 0 <= i < spec_header(ls).len() ==> !crate::parser::spec_is_dialogue(
            #[trigger] spec_header(ls)[i],
        ),
    decreases ls.len(),
{
    if ls.len() > 0 && !crate::parser::spec_is_dialogue(ls[0]) {
        lemma_header_non_dialogue(ls.drop_first());
        let h = spec_header(ls);
        assert forall|i: int| 0 <= i < h.len() implies !crate::parser::spec_is_dialogue(
            h[i],
        ) by {
            if i > 0 {
                assert(h[i] == spec_header(ls.drop_first())[i - 1]);
            }
        }
    }
}

/// Splitting a track built from a non-dialogue header and a dialogue body
/// recovers the two parts.
proof fn lemma_split_concat(h: Seq<Seq<char>>, d: Seq<Seq<char>>)
    requires
        forall|i: int| 0 <= i < h.len() ==> !crate::parser::spec_is_dialogue(#[trigger] h[i]),
        forall|i: int| 0 <= i < d.len() ==> crate::parser::spec_is_dialogue(#[trigger] d[i]),
    ensures
        spec_header(h + d) =~= h,
        spec_dialogues(h + d) =~= d,
    decreases h.len(),
{
    let ls = h + d;
    if h.len() == 0 {
        assert(ls =~= d);
        if d.len() == 0 {
        } else {
            assert(crate::parser::spec_is_dialogue(ls[0]));
        }
    } else {
        assert(!crate::parser::spec_is_dialogue(ls[0]));
        assert(ls.drop_first() =~= h.drop_first() + d);
        lemma_split_concat(h.drop_first(), d);
        assert(spec_header(ls) =~= seq![h[0]] + spec_header(h.drop_first() + d));
    }
}

/// The sorter's output is ordered: reading the dialogue records of the
/// sorted track back, each adjacent pair of millisecond-quantized start
/// times is non-decreasing.
pub proof fn lemma_sorter_ordered(ls: Seq<Seq<char>>)
    requires
        spec_sorter(ls) is Ok,
    ensures
        spec_timed(spec_dialogues(spec_sorter(ls)->Ok_0)) is Ok,
        forall|i: int|
            0 <= i < spec_timed(spec_dialogues(spec_sorter(ls)->Ok_0))->Ok_0.len() - 1 ==> 10 * (
            #[trigger] spec_timed(spec_dialogues(spec_sorter(ls)->Ok_0))->Ok_0[i]).0 <= 10
                * spec_timed(spec_dialogues(spec_sorter(ls)->Ok_0))->Ok_0[i + 1].0,
{
    let d = spec_dialogues(ls);
    let t = spec_timed(d)->Ok_0;
    let sorted = spec_sort(t);
    let h = spec_header(ls);

    lemma_timed_wf(d);
    lemma_sort_preserves_wf(t);
    lemma_header_non_dialogue(ls);
    assert forall|i: int| 0 <= i < pair_texts(sorted).len() implies
        crate::parser::spec_is_dialogue(#[trigger] pair_texts(sorted)[i]) by {
        assert(wf_pair(sorted[i]));
        assert(spec_parse(sorted[i].1) is Ok);
    }
    lemma_split_concat(h, pair_texts(sorted));
    lemma_timed_of_texts(sorted);
    lemma_sort_sorted(t);
}

/// The sorter is a no-op on its own output: sorting twice equals sorting
/// once.
pub proof fn lemma_sorter_idempotent(ls: Seq<Seq<char>>)
    requires
        spec_sorter(ls) is Ok,
    ensures
        spec_sorter(spec_sorter(ls)->Ok_0) == spec_sorter(ls),
{
    let d = spec_dialogues(ls);
    let t = spec_timed(d)->Ok_0;
    let sorted = spec_sort(t);
    let h = spec_header(ls);
    let out = h + pair_texts(sorted);

    lemma_timed_wf(d);
    lemma_sort_preserves_wf(t);
    lemma_header_non_dialogue(ls);
    assert forall|i: int| 0 <= i < pair_texts(sorted).len() implies
        crate::parser::spec_is_dialogue(#[trigger] pair_texts(sorted)[i]) by {
        assert(wf_pair(sorted[i]));
        assert(spec_parse(sorted[i].1) is Ok);
    }
    lemma_split_concat(h, pair_texts(sorted));
    lemma_timed_of_texts(sorted);
    lemma_sort_sorted(t);
    lemma_sort_identity(sorted);
    assert(spec_sorter(out) == Ok::<_, ParserError>(
        spec_header(out) + pair_texts(spec_sort(sorted)),
    ));
    assert(spec_header(out) + pair_texts(spec_sort(sorted)) =~= out);
}

} // verus!
