//! Applies a style profile to a prepared track: the profile's style
//! definitions are inserted after the last existing definition, or into a
//! freshly created style section past the script info; then every dialogue
//! record carrying the dominant style, and every bonus-scene record, is
//! rewritten to the profile's style.

use vstd::prelude::*;

use crate::errors::{ParserError, ParseRes};
use crate::codec::{spec_parse, spec_format};
use crate::parser::{Parser, spec_is_dialogue, scene_name};
use crate::record::SpecRecord;
use crate::script_preparer::{ScriptPreparer, SpecPrep, prep_step, prep_fold};

verus! {

/// The record with its style field replaced.
pub open spec fn with_style(r: SpecRecord, style: Seq<char>) -> SpecRecord {
    SpecRecord {
        layer: r.layer,
        start: r.start,
        end: r.end,
        style,
        name: r.name,
        effect: r.effect,
        text: r.text,
    }
}

/// The track with the profile's style definitions inserted: after the last
/// existing definition, or in a new style section at the end of the script
/// info (or at the end of the track when no blank line closed the info).
pub open spec fn spec_inject(
    out: Seq<Seq<char>>,
    last_style: Option<int>,
    post_info: Option<int>,
    styles: Seq<Seq<char>>,
) -> Seq<Seq<char>> {
    match last_style {
        Some(idx) => out.subrange(0, idx + 1) + styles + out.subrange(idx + 1, out.len() as int),
        None => {
            let i = match post_info {
                Some(p) => p,
                None => out.len() as int,
            };
            out.subrange(0, i) + seq![
                Seq::<char>::empty(),
                "[V4+ Styles]"@,
                "Format: Name, Fontname, Fontsize, PrimaryColour, SecondaryColour, OutlineColour, BackColour, Bold, Italic, Underline, StrikeOut, ScaleX, ScaleY, Spacing, Angle, BorderStyle, Outline, Shadow, Alignment, MarginL, MarginR, MarginV, Encoding"@,
            ] + styles + out.subrange(i, out.len() as int)
        },
    }
}

/// The track with every record of the target style, and every bonus-scene
/// record, rewritten to the new style.
pub open spec fn spec_transform(
    ls: Seq<Seq<char>>,
    target: Seq<char>,
    newstyle: Seq<char>,
) -> Result<Seq<Seq<char>>, ParserError>
    decreases ls.len(),
{
    if ls.len() == 0 {
        Ok(Seq::empty())
    } else if !spec_is_dialogue(ls[0]) {
        match spec_transform(ls.drop_first(), target, newstyle) {
            Err(e) => Err(e),
            Ok(t) => Ok(seq![ls[0]] + t),
        }
    } else {
        match spec_parse(ls[0]) {
            Err(e) => Err(e),
            Ok(r) => {
                let line = if r.style == target || scene_name(r.name) {
                    spec_format(with_style(r, newstyle))
                } else {
                    ls[0]
                };
                match spec_transform(ls.drop_first(), target, newstyle) {
                    Err(e) => Err(e),
                    Ok(t) => Ok(seq![line] + t),
                }
            },
        }
    }
}

/// The section indexes a preparation pass records stay inside its output.
pub proof fn lemma_prep_bounds(ls: Seq<Seq<char>>, st: SpecPrep)
    requires
        (st.last_style matches Some(p) ==> 0 <= p < st.out.len()),
        (st.post_info matches Some(q) ==> 0 <= q <= st.out.len()),
        prep_fold(ls, st) is Ok,
    ensures
        prep_fold(ls, st)->Ok_0.last_style matches Some(p) ==> 0 <= p < prep_fold(
            ls,
            st,
        )->Ok_0.out.len(),
        prep_fold(ls, st)->Ok_0.post_info matches Some(q) ==> 0 <= q <= prep_fold(
            ls,
            st,
        )->Ok_0.out.len(),
    decreases ls.len(),
{
    if ls.len() > 0 {
        let st2 = prep_step(st, ls[0])->Ok_0;
        assert((st2.last_style matches Some(p) ==> 0 <= p < st2.out.len()) && (
        st2.post_info matches Some(q) ==> 0 <= q <= st2.out.len()));
        lemma_prep_bounds(ls.drop_first(), st2);
    }
}

/// Inserts a profile's style definitions and rewrites the dominant style.
pub struct StyleEditor {
    parser: Parser,
}

impl StyleEditor {
    pub fn new() -> Self {
        StyleEditor { parser: Parser::new() }
    }

    /// Rebuilds the track with the style definitions inserted.
    fn inject_styles(
        &self,
        out: &Vec<String>,
        last_style: Option<usize>,
        post_info: usize,
        ghost_post_info: Ghost<Option<int>>,
        styles: &Vec<String>,
    ) -> (r: Vec<String>)
        requires
            last_style matches Some(p) ==> p < out@.len(),
            post_info as int == match ghost_post_info@ {
                Some(q) => q,
                None => out.deep_view().len() as int,
            },
            post_info <= out@.len(),
        ensures
            r.deep_view() == spec_inject(
                out.deep_view(),
                match last_style {
                    Some(p) => Some(p as int),
                    None => None::<int>,
                },
                ghost_post_info@,
                styles.deep_view(),
            ),
    {
        let mut result: Vec<String> = Vec::new();
        let n = out.len();
        match last_style {
            Some(idx) => {
                let head = crate::collector::clone_range(out.as_slice(), 0, idx + 1);
                let tail = crate::collector::clone_range(out.as_slice(), idx + 1, n);
                let collector = crate::collector::LineCollector::new();
                collector.add_header_lines(&mut result, head.as_slice());
                collector.add_header_lines(&mut result, styles.as_slice());
                collector.add_header_lines(&mut result, tail.as_slice());
                proof {
                    assert(result.deep_view() =~= spec_inject(
                        out.deep_view(),
                        Some(idx as int),
                        ghost_post_info@,
                        styles.deep_view(),
                    ));
                }
            },
            None => {
                let head = crate::collector::clone_range(out.as_slice(), 0, post_info);
                let tail = crate::collector::clone_range(out.as_slice(), post_info, out.len());
                let collector = crate::collector::LineCollector::new();
                collector.add_header_lines(&mut result, head.as_slice());
                result.push(String::new());
                result.push(self.parser.get_styles_tag());
                result.push(self.parser.get_styles_format());
                collector.add_header_lines(&mut result, styles.as_slice());
                collector.add_header_lines(&mut result, tail.as_slice());
                proof {
                    assert(result.deep_view() =~= spec_inject(
                        out.deep_view(),
                        None,
                        ghost_post_info@,
                        styles.deep_view(),
                    ));
                }
            },
        }
        result
    }

    /// Rewrites every target-styled or bonus-scene record to the new style.
    fn transform_dialogues(&self, lines: &Vec<String>, target: &String, newstyle: &str) -> (r:
        ParseRes<Vec<String>>)
        ensures
            r matches Ok(out) ==> spec_transform(lines.deep_view(), target@, newstyle@) == Ok::<
                _,
                ParserError,
            >(out.deep_view()),
            r matches Err(e) ==> spec_transform(lines.deep_view(), target@, newstyle@) == Err::<
                Seq<Seq<char>>,
                _,
            >(e),
    {
        let ghost dv = lines.deep_view();
        let ghost tv = target@;
        let ghost nv = newstyle@;
        let n = lines.len();
        let mut out: Vec<String> = Vec::new();
        let mut i: usize = 0;
        proof {
            assert(dv.skip(0) =~= dv);
        }
        while i < n
            invariant
                i <= n,
                n == lines@.len(),
                dv == lines.deep_view(),
                dv.len() == n,
                tv == target@,
                nv == newstyle@,
                forall|e: ParserError|
                    spec_transform(dv, tv, nv) == Err::<Seq<Seq<char>>, _>(e)
                        <==> spec_transform(dv.skip(i as int), tv, nv) == Err::<
                        Seq<Seq<char>>,
                        _,
                    >(e),
                spec_transform(dv.skip(i as int), tv, nv) matches Ok(tl) ==> spec_transform(
                    dv,
                    tv,
                    nv,
                ) == Ok::<_, ParserError>(out.deep_view() + tl),
            decreases n - i,
        {
            let ghost rest = dv.skip(i as int);
            proof {
                assert(rest[0] == dv[i as int]);
                assert(rest.drop_first() =~= dv.skip(i as int + 1));
            }
            let ghost dv0 = out.deep_view();
            let ghost mut pushed: Seq<char> = Seq::empty();
            if self.parser.is_dialogue(lines[i].as_str()) {
                let current_style = match self.parser.get_style(lines[i].as_str()) {
                    Ok(s) => s,
                    Err(e) => {
                        return Err(e);
                    },
                };
                let is_target = current_style == *target;
                let is_scene = match self.parser.is_scene_line(lines[i].as_str()) {
                    Ok(b) => b,
                    Err(_) => {
                        proof {
                            assert(false);
                        }
                        return Err(ParserError::DialoguePrefix);
                    },
                };
                if is_target || is_scene {
                    let replaced = match self.parser.replace_style(lines[i].as_str(), newstyle) {
                        Ok(s) => s,
                        Err(_) => {
                            proof {
                                assert(false);
                            }
                            return Err(ParserError::DialoguePrefix);
                        },
                    };
                    proof {
                        pushed = spec_format(
                            with_style(spec_parse(dv[i as int])->Ok_0, nv),
                        );
                    }
                    out.push(replaced);
                } else {
                    proof {
                        pushed = dv[i as int];
                    }
                    out.push(lines[i].clone());
                }
            } else {
                proof {
                    pushed = dv[i as int];
                }
                out.push(lines[i].clone());
            }
            proof {
                assert(out.deep_view() =~~= dv0.push(pushed));
                let tail = spec_transform(dv.skip(i as int + 1), tv, nv);
                if tail is Ok {
                    assert(spec_transform(rest, tv, nv) == Ok::<_, ParserError>(
                        seq![pushed] + tail->Ok_0,
                    ));
                    assert(dv0 + (seq![pushed] + tail->Ok_0) =~= out.deep_view() + tail->Ok_0);
                }
            }
            i = i + 1;
        }
        proof {
            assert(dv.skip(n as int).len() == 0);
            assert(spec_transform(dv.skip(n as int), tv, nv) == Ok::<_, ParserError>(
                Seq::<Seq<char>>::empty(),
            ));
            assert(out.deep_view() + Seq::<Seq<char>>::empty() =~= out.deep_view());
        }
        Ok(out)
    }

    /// The whole edit: inject the definitions, then rewrite the dominant
    /// style.
    pub fn edit(
        &mut self,
        prep: &ScriptPreparer,
        styles: &Vec<String>,
        newstyle: &str,
        out: &mut Vec<String>,
    ) -> (r: ParseRes<()>)
        requires
            prep.view_with(old(out).deep_view()).last_style matches Some(p) ==> 0 <= p < old(
                out,
            ).deep_view().len(),
            prep.view_with(old(out).deep_view()).post_info matches Some(q) ==> 0 <= q <= old(
                out,
            ).deep_view().len(),
        ensures
            ({
                let st = prep.view_with(old(out).deep_view());
                let injected = spec_inject(
                    old(out).deep_view(),
                    st.last_style,
                    st.post_info,
                    styles.deep_view(),
                );
                match crate::script_preparer::dominant_of(st.counts) {
                    None => r is Ok && final(out).deep_view() == injected,
                    Some(target) => {
                        &&& (r is Ok ==> spec_transform(injected, target, newstyle@) == Ok::<
                            _,
                            ParserError,
                        >(final(out).deep_view()))
                        &&& (r matches Err(e) ==> spec_transform(injected, target, newstyle@)
                            == Err::<Seq<Seq<char>>, _>(e))
                    },
                }
            }),
    {
        let ghost st = prep.view_with(out.deep_view());
        proof {
            crate::script_preparer::lemma_view_out_irrelevant(prep, Seq::empty(), out.deep_view());
        }
        let last_style = prep.post_style_idx();
        let post_info = prep.post_info_idx(out);
        let injected = self.inject_styles(
            out,
            last_style,
            post_info,
            Ghost(st.post_info),
            styles,
        );
        match prep.dominant_style() {
            None => {
                *out = injected;
                Ok(())
            },
            Some(target) => {
                let transformed = match self.transform_dialogues(&injected, &target, newstyle) {
                    Ok(t) => t,
                    Err(e) => {
                        return Err(e);
                    },
                };
                *out = transformed;
                Ok(())
            },
        }
    }
}

} // verus!
