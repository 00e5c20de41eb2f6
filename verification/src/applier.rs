//! Splices translated text back into a track by position: each bonus-scene
//! record in order takes the next entry of the supplied list while entries
//! remain; once the list is exhausted, the remaining scene records stay
//! untouched. Ordinary records pass through verbatim.

use vstd::prelude::*;

use crate::errors::{ParserError, ParseRes};
use crate::codec::{spec_parse, spec_format, lemma_parse_wf, lemma_format_parse};
use crate::extractor::spec_extract;
use crate::parser::{Parser, spec_is_scene};
use crate::record::SpecRecord;

verus! {

/// The record with its text field replaced.
pub open spec fn with_text(r: SpecRecord, text: Seq<char>) -> SpecRecord {
    SpecRecord {
        layer: r.layer,
        start: r.start,
        end: r.end,
        style: r.style,
        name: r.name,
        effect: r.effect,
        text,
    }
}

/// The track with translations applied from position `k` of the list on.
pub open spec fn spec_apply(ls: Seq<Seq<char>>, ts: Seq<Seq<char>>, k: int) -> Result<
    Seq<Seq<char>>,
    ParserError,
>
    decreases ls.len(),
{
    if ls.len() == 0 {
        Ok(Seq::empty())
    } else {
        match spec_is_scene(ls[0]) {
            Err(e) => Err(e),
            Ok(is_scene) => {
                if is_scene && k < ts.len() {
                    let replaced = spec_format(with_text(spec_parse(ls[0])->Ok_0, ts[k]));
                    match spec_apply(ls.drop_first(), ts, k + 1) {
                        Err(e) => Err(e),
                        Ok(t) => Ok(seq![replaced] + t),
                    }
                } else {
                    match spec_apply(ls.drop_first(), ts, k) {
                        Err(e) => Err(e),
                        Ok(t) => Ok(seq![ls[0]] + t),
                    }
                }
            },
        }
    }
}

/// Replaces scene text by position from a translated list.
pub struct SceneApplier {
    parser: Parser,
    idx: usize,
}

impl SceneApplier {
    pub fn new() -> Self {
        SceneApplier { parser: Parser::new(), idx: 0 }
    }

    /// The track with the translations applied.
    pub fn run(&mut self, ls: &[String], ts: &[String]) -> (r: ParseRes<Vec<String>>)
        ensures
            r matches Ok(out) ==> spec_apply(ls.deep_view(), ts.deep_view(), 0) == Ok::<
                _,
                ParserError,
            >(out.deep_view()),
            r matches Err(e) ==> spec_apply(ls.deep_view(), ts.deep_view(), 0) == Err::<
                Seq<Seq<char>>,
                _,
            >(e),
    {
        let ghost dv = ls.deep_view();
        let ghost tdv = ts.deep_view();
        self.idx = 0;
        let n = ls.len();
        let m = ts.len();
        let mut out: Vec<String> = Vec::new();
        let mut i: usize = 0;
        proof {
            assert(dv.skip(0) =~= dv);
        }
        while i < n
            invariant
                i <= n,
                n == ls@.len(),
                m == ts@.len(),
                dv == ls.deep_view(),
                tdv == ts.deep_view(),
                dv.len() == n,
                tdv.len() == m,
                self.idx <= m,
                forall|e: ParserError|
                    spec_apply(dv, tdv, 0) == Err::<Seq<Seq<char>>, _>(e) <==> spec_apply(
                        dv.skip(i as int),
                        tdv,
                        self.idx as int,
                    ) == Err::<Seq<Seq<char>>, _>(e),
                spec_apply(dv.skip(i as int), tdv, self.idx as int) matches Ok(tl) ==> spec_apply(
                    dv,
                    tdv,
                    0,
                ) == Ok::<_, ParserError>(out.deep_view() + tl),
            decreases n - i,
        {
            let ghost rest = dv.skip(i as int);
            let ghost k = self.idx as int;
            proof {
                assert(rest[0] == dv[i as int]);
                assert(rest.drop_first() =~= dv.skip(i as int + 1));
            }
            let is_scene = match self.parser.is_scene_line(ls[i].as_str()) {
                Ok(b) => b,
                Err(e) => {
                    return Err(e);
                },
            };
            let ghost dv0 = out.deep_view();
            if is_scene && self.idx < m {
                let replaced = match self.parser.replace_text(ls[i].as_str(), ts[self.idx].as_str())
                    {
                    Ok(s) => s,
                    Err(_) => {
                        proof {
                            assert(false);
                        }
                        return Err(ParserError::DialoguePrefix);
                    },
                };
                out.push(replaced);
                self.idx = self.idx + 1;
                proof {
                    let line2 = spec_format(with_text(spec_parse(dv[i as int])->Ok_0, tdv[k]));
                    assert(out.deep_view() =~~= dv0.push(line2));
                    let tail = spec_apply(dv.skip(i as int + 1), tdv, self.idx as int);
                    if tail is Ok {
                        assert(spec_apply(rest, tdv, k) == Ok::<_, ParserError>(
                            seq![line2] + tail->Ok_0,
                        ));
                        assert(dv0 + (seq![line2] + tail->Ok_0) =~= out.deep_view() + tail->Ok_0);
                    }
                }
            } else {
                out.push(ls[i].clone());
                proof {
                    assert(out.deep_view() =~~= dv0.push(dv[i as int]));
                    let tail = spec_apply(dv.skip(i as int + 1), tdv, self.idx as int);
                    if tail is Ok {
                        assert(spec_apply(rest, tdv, k) == Ok::<_, ParserError>(
                            seq![dv[i as int]] + tail->Ok_0,
                        ));
                        assert(dv0 + (seq![dv[i as int]] + tail->Ok_0) =~= out.deep_view()
                            + tail->Ok_0);
                    }
                }
            }
            i = i + 1;
        }
        proof {
            assert(dv.skip(n as int).len() == 0);
            assert(spec_apply(dv.skip(n as int), tdv, self.idx as int) == Ok::<_, ParserError>(
                Seq::<Seq<char>>::empty(),
            ));
            assert(out.deep_view() + Seq::<Seq<char>>::empty() =~= out.deep_view());
        }
        Ok(out)
    }
}

/// Injecting from position `k` of a list that carries the track's own scene
/// texts at that position reproduces every scene text.
proof fn lemma_identity_apply_from(ls: Seq<Seq<char>>, ts: Seq<Seq<char>>, k: int)
    requires
        spec_extract(ls) is Ok,
        0 <= k,
        k + spec_extract(ls)->Ok_0.len() <= ts.len(),
        forall|j: int|
            0 <= j < spec_extract(ls)->Ok_0.len() ==> ts[k + j] == spec_extract(ls)->Ok_0[j],
    ensures
        spec_apply(ls, ts, k) is Ok,
        spec_extract(spec_apply(ls, ts, k)->Ok_0) == spec_extract(ls),
    decreases ls.len(),
{
    if ls.len() == 0 {
        assert(spec_apply(ls, ts, k) == Ok::<_, ParserError>(Seq::<Seq<char>>::empty()));
    } else {
        let rest = ls.drop_first();
        let es = spec_extract(ls)->Ok_0;
        match spec_is_scene(ls[0]) {
            Err(_) => {},
            Ok(true) => {
                let rec = spec_parse(ls[0])->Ok_0;
                let es_rest = spec_extract(rest)->Ok_0;
                assert(es == seq![rec.text] + es_rest);
                assert(ts[k] == es[0]);
                assert(es[0] == rec.text);
                assert forall|j: int| 0 <= j < es_rest.len() implies ts[k + 1 + j] == es_rest[
                    j
                ] by {
                    assert(ts[k + (j + 1)] == es[j + 1]);
                    assert(es[j + 1] == es_rest[j]);
                }
                lemma_identity_apply_from(rest, ts, k + 1);
                // the replaced record is the record itself
                assert(with_text(rec, ts[k]) == rec);
                let line2 = spec_format(rec);
                lemma_parse_wf(ls[0]);
                lemma_format_parse(rec);
                let rec2 = spec_parse(line2)->Ok_0;
                assert(rec2.name == rec.name && rec2.text == rec.text);
                let applied = spec_apply(ls, ts, k)->Ok_0;
                let applied_rest = spec_apply(rest, ts, k + 1)->Ok_0;
                assert(applied == seq![line2] + applied_rest);
                assert(applied[0] == line2);
                assert(applied.drop_first() =~= applied_rest);
                assert(spec_is_scene(line2) == Ok::<bool, ParserError>(true));
                assert(spec_extract(applied) == Ok::<_, ParserError>(
                    seq![rec2.text] + spec_extract(applied_rest)->Ok_0,
                ));
                assert(seq![rec2.text] + spec_extract(applied_rest)->Ok_0 =~= es);
            },
            Ok(false) => {
                assert(spec_extract(rest) == spec_extract(ls));
                lemma_identity_apply_from(rest, ts, k);
                let applied = spec_apply(ls, ts, k)->Ok_0;
                let applied_rest = spec_apply(rest, ts, k)->Ok_0;
                assert(applied == seq![ls[0]] + applied_rest);
                assert(applied[0] == ls[0]);
                assert(applied.drop_first() =~= applied_rest);
                assert(spec_extract(applied) == spec_extract(applied_rest));
            },
        }
    }
}

/// Translation round trip: extracting a track's scene texts and injecting
/// that same list back reproduces the original scene texts exactly.
pub proof fn lemma_identity_injection(ls: Seq<Seq<char>>)
    requires
        spec_extract(ls) is Ok,
    ensures
        spec_apply(ls, spec_extract(ls)->Ok_0, 0) is Ok,
        spec_extract(spec_apply(ls, spec_extract(ls)->Ok_0, 0)->Ok_0) == spec_extract(ls),
{
    lemma_identity_apply_from(ls, spec_extract(ls)->Ok_0, 0);
}

} // verus!
