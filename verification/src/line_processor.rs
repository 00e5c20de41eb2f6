//! The drift-correcting merge walk. The engine walks one track position by
//! position, emitting each record with its start and end shifted by the
//! running offset `delta`; where the head of the scene-block queue fits — the
//! current shifted start lies within the placement tolerance of the block's
//! preceding ordinary neighbor — the block's records are spliced in verbatim
//! and `delta` is recalibrated from the records on both sides that follow
//! the block.
//!
//! A block whose preceding neighbor is absent, or never comes within
//! tolerance, stays at the head of the queue; blocks still queued when the
//! walked track is exhausted are dropped.

use vstd::prelude::*;

use crate::errors::{ParserError, ParseRes};
use crate::blocks::{Blocks, SpecBlock, spec_blocks};
use crate::codec::{spec_parse, spec_format};
use crate::collector::LineCollector;
use crate::parser::{Parser, clamp0, lemma_parse_start_bounds};
use crate::record::{AssLine, SpecRecord};
use crate::steps::Steps;
use crate::timecode::TIME_CAP_CS;

verus! {

/// Placement tolerance, in centiseconds: a block is accepted only when the
/// current shifted start is strictly within one second of its preceding
/// neighbor's start.
pub const MAX_DIFFERENCE_CS: i64 = 100;

/// The record re-serialized with both times shifted by `delta`; a shifted
/// time that would fall before zero clamps to zero.
pub open spec fn corrected(r: SpecRecord, delta: int) -> Seq<char> {
    spec_format(
        SpecRecord {
            layer: r.layer,
            start: clamp0(r.start + delta),
            end: clamp0(r.end + delta),
            style: r.style,
            name: r.name,
            effect: r.effect,
            text: r.text,
        },
    )
}

/// The merge walk from position `i` with the queued `blocks` and the running
/// offset `delta`: the emitted lines, or the first parse error met.
pub open spec fn spec_merge(
    walked: Seq<Seq<char>>,
    i: int,
    blocks: Seq<SpecBlock>,
    delta: int,
) -> Result<Seq<Seq<char>>, ParserError>
    decreases walked.len() - i, 1int,
{
    if i < 0 || i >= walked.len() {
        Ok(Seq::empty())
    } else {
        match spec_parse(walked[i]) {
            Err(e) => Err(e),
            Ok(cur) => {
                if blocks.len() > 0 && blocks[0].prev is Some {
                    match spec_parse(blocks[0].prev->Some_0) {
                        Err(e) => Err(e),
                        Ok(prev) => {
                            let diff = cur.start + delta - prev.start;
                            if -(MAX_DIFFERENCE_CS as int) < diff < MAX_DIFFERENCE_CS as int {
                                spec_merge_insert(walked, i, blocks, delta, cur)
                            } else {
                                spec_merge_plain(walked, i, blocks, delta, cur)
                            }
                        },
                    }
                } else {
                    spec_merge_plain(walked, i, blocks, delta, cur)
                }
            },
        }
    }
}

/// One step that emits only the shifted current record.
pub open spec fn spec_merge_plain(
    walked: Seq<Seq<char>>,
    i: int,
    blocks: Seq<SpecBlock>,
    delta: int,
    cur: SpecRecord,
) -> Result<Seq<Seq<char>>, ParserError>
    decreases walked.len() - i, 0int,
        when 0 <= i < walked.len()
{
    match spec_merge(walked, i + 1, blocks, delta) {
        Err(e) => Err(e),
        Ok(t) => Ok(seq![corrected(cur, delta)] + t),
    }
}

/// One step that emits the shifted current record, splices the head block in
/// verbatim, and recalibrates `delta` where records follow on both sides.
pub open spec fn spec_merge_insert(
    walked: Seq<Seq<char>>,
    i: int,
    blocks: Seq<SpecBlock>,
    delta: int,
    cur: SpecRecord,
) -> Result<Seq<Seq<char>>, ParserError>
    decreases walked.len() - i, 0int,
        when 0 <= i < walked.len()
{
    let emitted = seq![corrected(cur, delta)] + blocks[0].lines;
    if i + 1 < walked.len() && blocks[0].next is Some {
        match spec_parse(walked[i + 1]) {
            Err(e) => Err(e),
            Ok(nx) => match spec_parse(blocks[0].next->Some_0) {
                Err(e) => Err(e),
                Ok(nb) => match spec_merge(walked, i + 1, blocks.drop_first(), nb.start - nx.start) {
                    Err(e) => Err(e),
                    Ok(t) => Ok(emitted + t),
                },
            },
        }
    } else {
        match spec_merge(walked, i + 1, blocks.drop_first(), delta) {
            Err(e) => Err(e),
            Ok(t) => Ok(emitted + t),
        }
    }
}

/// The whole merge of a walked dialogue section against the block-carrying
/// section: initial offset from the two first records, blocks from the
/// other section, then the walk.
pub open spec fn spec_process(walked: Seq<Seq<char>>, other: Seq<Seq<char>>) -> Result<
    Seq<Seq<char>>,
    ParserError,
> {
    match spec_parse(walked[0]) {
        Err(e) => Err(e),
        Ok(w0) => match spec_parse(other[0]) {
            Err(e) => Err(e),
            Ok(o0) => match spec_blocks(other) {
                Err(e) => Err(e),
                Ok(bs) => spec_merge(walked, 0, bs, o0.start - w0.start),
            },
        },
    }
}

/// The walk from position `i` onward, with `emitted` already written out,
/// completes the whole walk.
pub open spec fn merge_inv(
    adv: Seq<Seq<char>>,
    bs0: Seq<SpecBlock>,
    delta0: int,
    i: int,
    bq: Seq<SpecBlock>,
    d: int,
    emitted: Seq<Seq<char>>,
) -> bool {
    spec_merge(adv, 0, bs0, delta0) == (match spec_merge(adv, i, bq, d) {
        Err(e) => Err::<Seq<Seq<char>>, ParserError>(e),
        Ok(t) => Ok(emitted + t),
    })
}

/// One verified step extends the invariant from position `i` to `i + 1`.
proof fn lemma_step_compose(
    adv: Seq<Seq<char>>,
    bs0: Seq<SpecBlock>,
    delta0: int,
    i: int,
    bq: Seq<SpecBlock>,
    d: int,
    out_pre: Seq<Seq<char>>,
    emitted: Seq<Seq<char>>,
    bq2: Seq<SpecBlock>,
    d2: int,
    out_now: Seq<Seq<char>>,
)
    requires
        merge_inv(adv, bs0, delta0, i, bq, d, out_pre),
        out_now == out_pre + emitted,
        spec_merge(adv, i, bq, d) == (match spec_merge(adv, i + 1, bq2, d2) {
            Err(e) => Err::<Seq<Seq<char>>, ParserError>(e),
            Ok(t) => Ok(emitted + t),
        }),
    ensures
        merge_inv(adv, bs0, delta0, i + 1, bq2, d2, out_now),
{
    let tail = spec_merge(adv, i + 1, bq2, d2);
    if tail is Ok {
        let t = tail->Ok_0;
        assert(out_pre + (emitted + t) =~= out_now + t);
    }
}

/// Walks one track against the other's scene blocks, correcting drift.
pub struct LineProcessor {
    delta: i64,
    parser: Parser,
}

impl LineProcessor {
    pub fn new() -> Self {
        LineProcessor { delta: 0, parser: Parser::new() }
    }

    /// The current record re-serialized with both times shifted by `delta`.
    fn shift_line(&self, line: &String, delta: i64) -> (r: ParseRes<String>)
        requires
            -2 * (TIME_CAP_CS as int) <= delta <= 2 * (TIME_CAP_CS as int),
        ensures
            r matches Ok(s) ==> spec_parse(line@) matches Ok(cur) && s@ == corrected(
                cur,
                delta as int,
            ),
            r matches Err(e) ==> spec_parse(line@) == Err::<SpecRecord, _>(e),
    {
        match self.parser.parse_ass_line(line.as_str()) {
            Ok(rec) => {
                proof {
                    lemma_parse_start_bounds(line@);
                }
                let ns = rec.start + delta;
                let ne = rec.end + delta;
                let updated = AssLine {
                    start: if ns < 0 {
                        0
                    } else {
                        ns
                    },
                    end: if ne < 0 {
                        0
                    } else {
                        ne
                    },
                    ..rec
                };
                Ok(crate::codec::format_record(&updated))
            },
            Err(e) => Err(e),
        }
    }

    /// One cursor position: try the head block here, else emit the shifted
    /// current record alone. On success the lines appended to `out` and the
    /// new queue and offset stand exactly for one unfolding of the walk.
    #[verifier::rlimit(100)]
    fn process_line(
        &mut self,
        blocks: &mut Blocks,
        dialogues_a: &[String],
        idx: usize,
    ) -> (r: ParseRes<Vec<String>>)
        requires
            idx < dialogues_a@.len(),
            -2 * (TIME_CAP_CS as int) <= old(self).delta <= 2 * (TIME_CAP_CS as int),
        ensures
            -2 * (TIME_CAP_CS as int) <= final(self).delta <= 2 * (TIME_CAP_CS as int),
            r matches Err(e) ==> spec_merge(
                dialogues_a.deep_view(),
                idx as int,
                old(blocks)@,
                old(self).delta as int,
            ) == Err::<Seq<Seq<char>>, _>(e),
            r matches Ok(em) ==> spec_merge(
                dialogues_a.deep_view(),
                idx as int,
                old(blocks)@,
                old(self).delta as int,
            ) == (match spec_merge(
                dialogues_a.deep_view(),
                idx as int + 1,
                final(blocks)@,
                final(self).delta as int,
            ) {
                Err(e) => Err::<Seq<Seq<char>>, ParserError>(e),
                Ok(t) => Ok(em.deep_view() + t),
            }),
    {
        let mut out: Vec<String> = Vec::new();
        let ghost adv = dialogues_a.deep_view();
        let ghost bq = blocks@;
        let ghost d = self.delta as int;
        let ghost cur_merge = spec_merge(adv, idx as int, bq, d);
        let ghost out_pre: Seq<Seq<char>> = Seq::empty();
        proof {
            assert(out.deep_view() =~= out_pre);
        }
        let step = Steps::new(dialogues_a, idx);

        let mut inserted = false;
        if blocks.has_blocks() {
            let block = match blocks.pop_first_block() {
                Some(b) => b,
                None => {
                    proof {
                        assert(false);
                    }
                    return Err(ParserError::DialoguePrefix);
                },
            };
            match block.previous_line() {
                Some(previous) => {
                    let current_time = match self.parser.get_start_time(
                        step.current_line().as_str(),
                    ) {
                        Ok(t) => t,
                        Err(e) => {
                            proof {
                                assert(cur_merge == Err::<Seq<Seq<char>>, ParserError>(e));
                            }
                            return Err(e);
                        },
                    };
                    let previous_time = match self.parser.get_start_time(previous.as_str()) {
                        Ok(t) => t,
                        Err(e) => {
                            proof {
                                assert(cur_merge == Err::<Seq<Seq<char>>, ParserError>(e));
                            }
                            return Err(e);
                        },
                    };
                    proof {
                        lemma_parse_start_bounds(adv[idx as int]);
                        lemma_parse_start_bounds(bq[0].prev->Some_0);
                    }
                    let diff = current_time + self.delta - previous_time;
                    if -MAX_DIFFERENCE_CS < diff && diff < MAX_DIFFERENCE_CS {
                        // accepted: emit the corrected record, then the block verbatim
                        let corrected_line = match self.shift_line(step.current_line(), self.delta) {
                            Ok(s) => s,
                            Err(e) => {
                                proof {
                                    assert(false);
                                }
                                return Err(e);
                            },
                        };
                        out.push(corrected_line);
                        let collector = LineCollector::new();
                        collector.add_header_lines(&mut out, block.additional_lines().as_slice());
                        proof {
                            let cur = spec_parse(adv[idx as int])->Ok_0;
                            assert(out.deep_view() =~= out_pre + (seq![corrected(cur, d)]
                                + bq[0].lines));
                        }
                        // recalibrate the offset across the block
                        match step.next_line() {
                            Some(next) => {
                                match block.next_line() {
                                    Some(next_block_line) => {
                                        let nd = match self.parser.get_new_offset(
                                            next.as_str(),
                                            next_block_line.as_str(),
                                        ) {
                                            Ok(v) => v,
                                            Err(e) => {
                                                proof {
                                                    let cur = spec_parse(adv[idx as int])->Ok_0;
                                                    assert(cur_merge == spec_merge_insert(
                                                        adv,
                                                        idx as int,
                                                        bq,
                                                        d,
                                                        cur,
                                                    ));
                                                    assert(cur_merge == Err::<
                                                        Seq<Seq<char>>,
                                                        ParserError,
                                                    >(e));
                                                }
                                                return Err(e);
                                            },
                                        };
                                        proof {
                                            lemma_parse_start_bounds(adv[idx as int + 1]);
                                            lemma_parse_start_bounds(bq[0].next->Some_0);
                                        }
                                        self.delta = nd;
                                    },
                                    None => {},
                                }
                            },
                            None => {},
                        }
                        inserted = true;
                    } else {
                        blocks.reinsert_first_block(block);
                        proof {
                            assert(blocks@ =~= bq);
                        }
                    }
                },
                None => {
                    blocks.reinsert_first_block(block);
                    proof {
                        assert(blocks@ =~= bq);
                    }
                },
            }
        }
        if !inserted {
            let corrected_line = match self.shift_line(step.current_line(), self.delta) {
                Ok(s) => s,
                Err(e) => {
                    proof {
                        assert(cur_merge == Err::<Seq<Seq<char>>, ParserError>(e));
                    }
                    return Err(e);
                },
            };
            out.push(corrected_line);
            proof {
                let cur = spec_parse(adv[idx as int])->Ok_0;
                assert(out.deep_view() =~= out_pre.push(corrected(cur, d)));
            }
        }
        proof {
            let cur = spec_parse(adv[idx as int])->Ok_0;
            let tail = spec_merge(adv, idx as int + 1, blocks@, self.delta as int);
            let emitted = out.deep_view();
            if inserted {
                assert(emitted =~= seq![corrected(cur, d)] + bq[0].lines);
                assert(cur_merge == spec_merge_insert(adv, idx as int, bq, d, cur));
                assert(cur_merge == (match tail {
                    Err(e) => Err::<Seq<Seq<char>>, ParserError>(e),
                    Ok(t) => Ok((seq![corrected(cur, d)] + bq[0].lines) + t),
                }));
                if tail is Ok {
                    assert(emitted + tail->Ok_0 =~= (seq![corrected(cur, d)] + bq[0].lines)
                        + tail->Ok_0);
                }
            } else {
                assert(emitted =~= seq![corrected(cur, d)]);
                assert(cur_merge == spec_merge_plain(adv, idx as int, bq, d, cur));
                assert(cur_merge == (match tail {
                    Err(e) => Err::<Seq<Seq<char>>, ParserError>(e),
                    Ok(t) => Ok(seq![corrected(cur, d)] + t),
                }));
                if tail is Ok {
                    assert(emitted + tail->Ok_0 =~= seq![corrected(cur, d)] + tail->Ok_0);
                }
            }
        }
        Ok(out)
    }

    /// Runs the walk over the whole track.
    #[verifier::rlimit(100)]
    pub fn run(&mut self, dialogues_a: &[String], dialogues_b: &[String]) -> (r: ParseRes<
        Vec<String>,
    >)
        requires
            dialogues_a@.len() > 0,
            dialogues_b@.len() > 0,
        ensures
            r matches Ok(out) ==> spec_process(dialogues_a.deep_view(), dialogues_b.deep_view())
                == Ok::<_, ParserError>(out.deep_view()),
            r matches Err(e) ==> spec_process(dialogues_a.deep_view(), dialogues_b.deep_view())
                == Err::<Seq<Seq<char>>, _>(e),
    {
        let ghost adv = dialogues_a.deep_view();
        let ghost bdv = dialogues_b.deep_view();
        let n = dialogues_a.len();

        let time_a = match self.parser.get_start_time(dialogues_a[0].as_str()) {
            Ok(t) => t,
            Err(e) => {
                return Err(e);
            },
        };
        let time_b = match self.parser.get_start_time(dialogues_b[0].as_str()) {
            Ok(t) => t,
            Err(e) => {
                return Err(e);
            },
        };
        proof {
            lemma_parse_start_bounds(adv[0]);
            lemma_parse_start_bounds(bdv[0]);
        }
        self.delta = time_b - time_a;
        let ghost delta0 = self.delta as int;

        let mut blocks = match Blocks::new(dialogues_b, &self.parser) {
            Ok(b) => b,
            Err(e) => {
                return Err(e);
            },
        };
        let ghost bs0 = blocks@;
        proof {
            assert(spec_process(adv, bdv) == spec_merge(adv, 0, bs0, delta0));
        }

        let mut out: Vec<String> = Vec::new();
        let mut idx: usize = 0;
        proof {
            let m0 = spec_merge(adv, 0, bs0, delta0);
            if m0 is Ok {
                assert(out.deep_view() + m0->Ok_0 =~= m0->Ok_0);
            }
        }
        #[verifier::loop_isolation(false)]
        while idx < n
            invariant
                idx <= n,
                n == dialogues_a@.len(),
                adv == dialogues_a.deep_view(),
                adv.len() == n,
                -2 * (TIME_CAP_CS as int) <= self.delta <= 2 * (TIME_CAP_CS as int),
                merge_inv(adv, bs0, delta0, idx as int, blocks@, self.delta as int, out.deep_view()),
            decreases n - idx,
        {
            let ghost bq = blocks@;
            let ghost d = self.delta as int;
            let ghost out_pre = out.deep_view();
            let mut emitted = match self.process_line(&mut blocks, dialogues_a, idx) {
                Ok(em) => em,
                Err(e) => {
                    proof {
                        assert(spec_merge(adv, 0, bs0, delta0) == Err::<Seq<Seq<char>>, ParserError>(e));
                    }
                    return Err(e);
                },
            };
            let ghost emdv = emitted.deep_view();
            out.append(&mut emitted);
            proof {
                assert(out.deep_view() =~~= out_pre + emdv);
                lemma_step_compose(
                    adv,
                    bs0,
                    delta0,
                    idx as int,
                    bq,
                    d,
                    out_pre,
                    emdv,
                    blocks@,
                    self.delta as int,
                    out.deep_view(),
                );
            }
            idx = idx + 1;
        }
        proof {
            assert(spec_merge(adv, n as int, blocks@, self.delta as int) == Ok::<_, ParserError>(
                Seq::<Seq<char>>::empty(),
            ));
            assert(out.deep_view() + Seq::<Seq<char>>::empty() =~= out.deep_view());
        }
        Ok(out)
    }
}

} // verus!
