//! One pass over a track that prepares it for styling: normalizes the
//! script-info keys (render resolution, border scaling) to fixed defaults,
//! remembers where the info section ends and where the last style
//! definition stands, and counts how often each dialogue style occurs.

use vstd::prelude::*;

use crate::errors::{ParserError, ParseRes};
use crate::codec::spec_parse;
use crate::parser::Parser;
use crate::text::{contains_seq, has_prefix, trim, dec_str, chars_of, string_of, trim_vec};

verus! {

/// Horizontal render resolution written into the script info.
pub const RES_X: u32 = 640;

/// Vertical render resolution written into the script info.
pub const RES_Y: u32 = 360;

/// The state of the preparation pass.
pub struct SpecPrep {
    pub in_info: bool,
    pub in_styles: bool,
    pub has_x: bool,
    pub has_y: bool,
    pub has_scaled: bool,
    pub post_info: Option<int>,
    pub counts: Seq<(Seq<char>, int)>,
    pub last_style: Option<int>,
    pub out: Seq<Seq<char>>,
}

/// The state before any line is read.
pub open spec fn prep_init() -> SpecPrep {
    SpecPrep {
        in_info: false,
        in_styles: false,
        has_x: false,
        has_y: false,
        has_scaled: false,
        post_info: None,
        counts: Seq::empty(),
        last_style: None,
        out: Seq::empty(),
    }
}

/// The rendered horizontal-resolution line.
pub open spec fn resx_line() -> Seq<char> {
    "PlayResX:"@ + seq![' '] + dec_str(RES_X as int)
}

/// The rendered vertical-resolution line.
pub open spec fn resy_line() -> Seq<char> {
    "PlayResY:"@ + seq![' '] + dec_str(RES_Y as int)
}

/// The rendered border-scaling line.
pub open spec fn scaled_line() -> Seq<char> {
    "ScaledBorderAndShadow:"@ + seq![' '] + "yes"@
}

/// Section tracking: which critical section the trimmed line enters or
/// leaves.
pub open spec fn prep_update_state(st: SpecPrep, t: Seq<char>) -> SpecPrep {
    if contains_seq(t, "[Script Info]"@) {
        SpecPrep { in_info: true, in_styles: false, ..st }
    } else if trim(t) == "[V4+ Styles]"@ {
        SpecPrep { in_info: false, in_styles: true, ..st }
    } else if has_prefix(trim(t), "["@) {
        SpecPrep { in_info: false, in_styles: false, ..st }
    } else {
        st
    }
}

/// Closes the info section: the missing keys are appended with their
/// defaults, and the end of the section is remembered once.
pub open spec fn prep_finalize(st: SpecPrep) -> SpecPrep {
    let out1 = if st.has_x {
        st.out
    } else {
        st.out.push(resx_line())
    };
    let out2 = if st.has_y {
        out1
    } else {
        out1.push(resy_line())
    };
    let out3 = if st.has_scaled {
        out2
    } else {
        out2.push(scaled_line())
    };
    SpecPrep {
        in_info: false,
        post_info: match st.post_info {
            Some(p) => Some(p),
            None => Some(out3.len() as int),
        },
        out: out3,
        ..st
    }
}

/// One trimmed line of the info section: a resolution or scaling key is
/// replaced by its default; a blank line closes the section. The second
/// component says whether the line was consumed here.
pub open spec fn prep_info_line(st: SpecPrep, t: Seq<char>) -> (SpecPrep, bool) {
    if has_prefix(trim(t), "PlayResX:"@) {
        (SpecPrep { has_x: true, out: st.out.push(resx_line()), ..st }, true)
    } else if has_prefix(trim(t), "PlayResY:"@) {
        (SpecPrep { has_y: true, out: st.out.push(resy_line()), ..st }, true)
    } else if has_prefix(trim(t), "ScaledBorderAndShadow:"@) {
        (SpecPrep { has_scaled: true, out: st.out.push(scaled_line()), ..st }, true)
    } else if trim(t).len() == 0 {
        (prep_finalize(st), false)
    } else {
        (st, false)
    }
}

/// Bumps the count of one style, first occurrence appending at the end.
pub open spec fn bump_counts(counts: Seq<(Seq<char>, int)>, s: Seq<char>) -> Seq<
    (Seq<char>, int),
>
    decreases counts.len(),
{
    if counts.len() == 0 {
        seq![(s, 1int)]
    } else if counts[0].0 == s {
        seq![(counts[0].0, counts[0].1 + 1)] + counts.drop_first()
    } else {
        seq![counts[0]] + bump_counts(counts.drop_first(), s)
    }
}

/// An ordinary line: style definitions are indexed, dialogue styles are
/// counted, the line itself is kept verbatim.
pub open spec fn prep_standard(st: SpecPrep, line: Seq<char>) -> Result<SpecPrep, ParserError> {
    let st1 = if st.in_styles && has_prefix(trim(line), "Style:"@) {
        SpecPrep { last_style: Some(st.out.len() as int), ..st }
    } else {
        st
    };
    if crate::parser::spec_is_dialogue(line) {
        match spec_parse(line) {
            Err(e) => Err(e),
            Ok(r) => Ok(
                SpecPrep {
                    counts: bump_counts(st1.counts, r.style),
                    out: st1.out.push(line),
                    ..st1
                },
            ),
        }
    } else {
        Ok(SpecPrep { out: st1.out.push(line), ..st1 })
    }
}

/// One whole line of the pass.
pub open spec fn prep_step(st: SpecPrep, line: Seq<char>) -> Result<SpecPrep, ParserError> {
    let t = trim(line);
    let st1 = prep_update_state(st, t);
    if st1.in_info {
        let (st2, handled) = prep_info_line(st1, t);
        if handled {
            Ok(st2)
        } else {
            prep_standard(st2, line)
        }
    } else {
        prep_standard(st1, line)
    }
}

/// The pass over a whole track.
pub open spec fn prep_fold(ls: Seq<Seq<char>>, st: SpecPrep) -> Result<SpecPrep, ParserError>
    decreases ls.len(),
{
    if ls.len() == 0 {
        Ok(st)
    } else {
        match prep_step(st, ls[0]) {
            Err(e) => Err(e),
            Ok(st2) => prep_fold(ls.drop_first(), st2),
        }
    }
}

/// Index of the first style with the greatest count.
pub open spec fn best_index(counts: Seq<(Seq<char>, int)>) -> int
    decreases counts.len(),
{
    if counts.len() <= 1 {
        0
    } else {
        let b = best_index(counts.drop_last());
        if counts.last().1 > counts[b].1 {
            counts.len() - 1
        } else {
            b
        }
    }
}

/// The first style with the greatest count, if any style was counted.
pub open spec fn dominant_of(counts: Seq<(Seq<char>, int)>) -> Option<Seq<char>> {
    if counts.len() == 0 {
        None
    } else {
        Some(counts[best_index(counts)].0)
    }
}

/// Analyzes a track before styling: normalized info keys, section indexes
/// and style counts.
pub struct ScriptPreparer {
    is_script_info: bool,
    has_scaled_border: bool,
    has_playresx: bool,
    has_playresy: bool,
    post_info_idx: Option<usize>,
    style_counter: Vec<(String, usize)>,
    last_style_idx: Option<usize>,
    is_v4_styles: bool,
    parser: Parser,
}

impl ScriptPreparer {
    /// The pass state this preparer holds, alongside the lines written so
    /// far.
    pub closed spec fn view_with(&self, out: Seq<Seq<char>>) -> SpecPrep {
        SpecPrep {
            in_info: self.is_script_info,
            in_styles: self.is_v4_styles,
            has_x: self.has_playresx,
            has_y: self.has_playresy,
            has_scaled: self.has_scaled_border,
            post_info: match self.post_info_idx {
                Some(p) => Some(p as int),
                None => None,
            },
            counts: Seq::new(
                self.style_counter@.len(),
                |i: int| (self.style_counter@[i].0@, self.style_counter@[i].1 as int),
            ),
            last_style: match self.last_style_idx {
                Some(p) => Some(p as int),
                None => None,
            },
            out,
        }
    }

    pub fn new() -> (r: Self)
        ensures
            r.view_with(Seq::empty()) == prep_init(),
    {
        let r = ScriptPreparer {
            is_script_info: false,
            has_scaled_border: false,
            has_playresx: false,
            has_playresy: false,
            post_info_idx: None,
            style_counter: Vec::new(),
            last_style_idx: None,
            is_v4_styles: false,
            parser: Parser::new(),
        };
        proof {
            assert(r.view_with(Seq::empty()).counts =~= prep_init().counts);
        }
        r
    }

    /// Where new style sections are created: just past the info section, or
    /// at the end if no blank line ever closed it.
    pub fn post_info_idx(&self, out: &Vec<String>) -> (r: usize)
        ensures
            r as int == match self.view_with(out.deep_view()).post_info {
                Some(p) => p,
                None => out.deep_view().len() as int,
            },
            r <= out@.len() || self.view_with(out.deep_view()).post_info is Some,
    {
        match self.post_info_idx {
            Some(p) => p,
            None => out.len(),
        }
    }

    /// Index of the last style definition, if one was seen.
    pub fn post_style_idx(&self) -> (r: Option<usize>)
        ensures
            match r {
                Some(p) => self.view_with(Seq::empty()).last_style == Some(p as int),
                None => self.view_with(Seq::empty()).last_style is None,
            },
    {
        self.last_style_idx
    }

    /// The first style with the greatest dialogue count, if any.
    pub fn dominant_style(&self) -> (r: Option<String>)
        ensures
            match r {
                Some(s) => dominant_of(self.view_with(Seq::empty()).counts) == Some(s@),
                None => dominant_of(self.view_with(Seq::empty()).counts) is None,
            },
    {
        let ghost counts = self.view_with(Seq::empty()).counts;
        let n = self.style_counter.len();
        if n == 0 {
            return None;
        }
        let mut best: usize = 0;
        let mut i: usize = 1;
        proof {
            assert(counts.subrange(0, 1) =~= seq![counts[0]]);
            assert(best_index(counts.subrange(0, 1)) == 0);
        }
        while i < n
            invariant
                1 <= i <= n,
                best < i,
                n == self.style_counter@.len(),
                counts == self.view_with(Seq::empty()).counts,
                counts.len() == n,
                best as int == best_index(counts.subrange(0, i as int)),
            decreases n - i,
        {
            proof {
                let pre = counts.subrange(0, i as int + 1);
                assert(pre.drop_last() =~= counts.subrange(0, i as int));
                assert(pre.last() == counts[i as int]);
            }
            if self.style_counter[i].1 > self.style_counter[best].1 {
                best = i;
            }
            i = i + 1;
        }
        proof {
            assert(counts.subrange(0, n as int) =~= counts);
        }
        Some(self.style_counter[best].0.clone())
    }

    /// Section tracking for one trimmed line.
    fn update_state(&mut self, trimmed: &str, Ghost(outdv): Ghost<Seq<Seq<char>>>)
        ensures
            final(self).view_with(outdv) == prep_update_state(
                old(self).view_with(outdv),
                trimmed@,
            ),
    {
        if self.parser.is_script_info(trimmed) {
            self.is_script_info = true;
            self.is_v4_styles = false;
        } else if self.parser.is_v4_styles(trimmed) {
            self.is_v4_styles = true;
            self.is_script_info = false;
        } else if self.parser.is_section_start(trimmed) {
            self.is_script_info = false;
            self.is_v4_styles = false;
        }
    }

    /// One trimmed line while inside the info section.
    fn proc_info_line(&mut self, trimmed: &str, out: &mut Vec<String>) -> (handled: bool)
        ensures
            ({
                let step = prep_info_line(old(self).view_with(old(out).deep_view()), trimmed@);
                final(self).view_with(final(out).deep_view()) == step.0 && handled == step.1
            }),
    {
        let ghost st0 = self.view_with(out.deep_view());
        if self.parser.is_playresx(trimmed) {
            let ghost dv0 = out.deep_view();
            out.push(self.parser.format_playresx(RES_X));
            self.has_playresx = true;
            proof {
                assert(out.deep_view() =~~= dv0.push(resx_line()));
            }
            true
        } else if self.parser.is_playresy(trimmed) {
            let ghost dv0 = out.deep_view();
            out.push(self.parser.format_playresy(RES_Y));
            self.has_playresy = true;
            proof {
                assert(out.deep_view() =~~= dv0.push(resy_line()));
            }
            true
        } else if self.parser.is_scaled_border(trimmed) {
            let ghost dv0 = out.deep_view();
            out.push(self.parser.format_scaled_border(true));
            self.has_scaled_border = true;
            proof {
                assert(out.deep_view() =~~= dv0.push(scaled_line()));
            }
            true
        } else {
            let tv = crate::text::chars_of(trimmed);
            let tt = trim_vec(tv.as_slice());
            proof {
                crate::text::lemma_trim_idempotent(trimmed@);
            }
            if tt.len() == 0 {
                // blank line: close the info section, injecting missing keys
                let ghost dv0 = out.deep_view();
                if !self.has_playresx {
                    out.push(self.parser.format_playresx(RES_X));
                }
                if !self.has_playresy {
                    out.push(self.parser.format_playresy(RES_Y));
                }
                if !self.has_scaled_border {
                    out.push(self.parser.format_scaled_border(true));
                }
                self.is_script_info = false;
                if self.post_info_idx.is_none() {
                    self.post_info_idx = Some(out.len());
                }
                proof {
                    let st1 = prep_finalize(st0);
                    assert(out.deep_view() =~~= st1.out);
                }
                false
            } else {
                false
            }
        }
    }

    /// An ordinary line: style definitions indexed, dialogue styles counted,
    /// the line kept verbatim.
    fn proc_standard_line(&mut self, line: &String, out: &mut Vec<String>) -> (r: ParseRes<()>)
        requires
            forall|j: int|
                0 <= j < old(self).view_with(Seq::empty()).counts.len() ==> (#[trigger] old(
                    self,
                ).view_with(Seq::empty()).counts[j]).1 < usize::MAX,
        ensures
            r is Ok ==> prep_standard(old(self).view_with(old(out).deep_view()), line@) == Ok::<
                SpecPrep,
                ParserError,
            >(final(self).view_with(final(out).deep_view())),
            r matches Err(e) ==> prep_standard(old(self).view_with(old(out).deep_view()), line@)
                == Err::<SpecPrep, _>(e) && *final(out) == *old(out),
    {
        if self.is_v4_styles && self.parser.is_style_definition(line.as_str()) {
            self.last_style_idx = Some(out.len());
        }
        if self.parser.is_dialogue(line.as_str()) {
            let style = match self.parser.get_style(line.as_str()) {
                Ok(s) => s,
                Err(e) => {
                    return Err(e);
                },
            };
            proof {
                let cn = self.view_with(Seq::empty()).counts;
                let co = old(self).view_with(Seq::empty()).counts;
                assert(cn == co);
                assert forall|j: int| 0 <= j < cn.len() implies (#[trigger] cn[j]).1
                    < usize::MAX by {
                    assert(cn[j] == co[j]);
                }
            }
            self.count_style(&style);
        }
        let ghost dv0 = out.deep_view();
        out.push(line.clone());
        proof {
            assert(out.deep_view() =~~= dv0.push(line@));
        }
        Ok(())
    }

    /// The whole preparation pass: every line read once, info keys
    /// normalized, style counts and section indexes gathered.
    pub fn analyze(&mut self, lines: &[String], out: &mut Vec<String>) -> (r: ParseRes<()>)
        requires
            old(out)@.len() == 0,
            old(self).view_with(Seq::empty()) == prep_init(),
        ensures
            r is Ok ==> prep_fold(lines.deep_view(), prep_init()) == Ok::<SpecPrep, ParserError>(
                final(self).view_with(final(out).deep_view()),
            ),
            r matches Err(e) ==> prep_fold(lines.deep_view(), prep_init()) == Err::<SpecPrep, _>(
                e,
            ),
    {
        let ghost dv = lines.deep_view();
        let n = lines.len();
        let mut i: usize = 0;
        proof {
            assert(dv.skip(0) =~= dv);
            assert(out.deep_view() =~= Seq::<Seq<char>>::empty());
            assert(self.view_with(out.deep_view()) == prep_init());
        }
        while i < n
            invariant
                i <= n,
                n == lines@.len(),
                dv == lines.deep_view(),
                dv.len() == n,
                prep_fold(dv, prep_init()) == prep_fold(
                    dv.skip(i as int),
                    self.view_with(out.deep_view()),
                ),
                forall|j: int|
                    0 <= j < self.view_with(Seq::empty()).counts.len() ==> (
                #[trigger] self.view_with(Seq::empty()).counts[j]).1 <= i,
            decreases n - i,
        {
            let ghost rest = dv.skip(i as int);
            let ghost st0 = self.view_with(out.deep_view());
            let ghost st0e = self.view_with(Seq::empty());
            proof {
                assert(rest[0] == dv[i as int]);
                assert(rest.drop_first() =~= dv.skip(i as int + 1));
                assert(st0e.counts =~= st0.counts);
            }
            let cv = crate::text::chars_of(lines[i].as_str());
            let tv = trim_vec(cv.as_slice());
            let trimmed = string_of(tv.as_slice());
            self.update_state(trimmed.as_str(), Ghost(out.deep_view()));
            let ghost st1 = self.view_with(out.deep_view());
            let mut handled = false;
            if self.is_script_info {
                handled = self.proc_info_line(trimmed.as_str(), out);
            }
            proof {
                let cn = self.view_with(Seq::empty()).counts;
                assert(cn =~= self.view_with(out.deep_view()).counts);
                assert(cn == st0.counts);
                assert forall|j: int| 0 <= j < cn.len() implies (#[trigger] cn[j]).1
                    < usize::MAX by {
                    assert(cn[j] == st0e.counts[j]);
                    assert(st0e.counts[j].1 <= i);
                }
            }
            if !handled {
                match self.proc_standard_line(&lines[i], out) {
                    Ok(()) => {},
                    Err(e) => {
                        return Err(e);
                    },
                }
            }
            proof {
                assert(prep_step(st0, dv[i as int]) == Ok::<SpecPrep, ParserError>(
                    self.view_with(out.deep_view()),
                ));
                let stn = self.view_with(Seq::empty());
                assert(stn.counts =~= self.view_with(out.deep_view()).counts);
                if crate::parser::spec_is_dialogue(dv[i as int]) && spec_parse(dv[i as int]) is Ok
                    && !handled {
                    let bumped = bump_counts(st0.counts, spec_parse(dv[i as int])->Ok_0.style);
                    lemma_bump_bound(st0.counts, spec_parse(dv[i as int])->Ok_0.style, i as int);
                    assert(stn.counts == bumped);
                    assert forall|j: int| 0 <= j < stn.counts.len() implies (
                    #[trigger] stn.counts[j]).1 <= i + 1 by {
                        assert(stn.counts[j] == bumped[j]);
                    }
                } else {
                    assert(stn.counts == st0.counts);
                    assert forall|j: int| 0 <= j < stn.counts.len() implies (
                    #[trigger] stn.counts[j]).1 <= i + 1 by {
                        assert(stn.counts[j] == st0.counts[j]);
                    }
                }
            }
            i = i + 1;
        }
        proof {
            assert(dv.skip(n as int).len() == 0);
        }
        Ok(())
    }

    /// Bumps the counted occurrences of one style.
    fn count_style(&mut self, style: &String)
        requires
            forall|j: int|
                0 <= j < old(self).view_with(Seq::empty()).counts.len() ==> (#[trigger] old(
                    self,
                ).view_with(Seq::empty()).counts[j]).1 < usize::MAX,
        ensures
            final(self).view_with(Seq::empty()) == (SpecPrep {
                counts: bump_counts(old(self).view_with(Seq::empty()).counts, style@),
                ..old(self).view_with(Seq::empty())
            }),
    {
        let ghost counts0 = self.view_with(Seq::empty()).counts;
        let n = self.style_counter.len();
        let mut i: usize = 0;
        while i < n
            invariant
                i <= n,
                n == self.style_counter@.len(),
                *self == *old(self),
                counts0 == self.view_with(Seq::empty()).counts,
                counts0.len() == n,
                forall|j: int| 0 <= j < counts0.len() ==> (#[trigger] counts0[j]).1 < usize::MAX,
                forall|j: int| 0 <= j < i ==> (#[trigger] counts0[j]).0 != style@,
            decreases n - i,
        {
            let hit = self.style_counter[i].0 == *style;
            if hit {
                let key = self.style_counter[i].0.clone();
                let c = self.style_counter[i].1;
                proof {
                    assert(counts0[i as int].1 == c as int);
                }
                self.style_counter.set(i, (key, c + 1));
                proof {
                    lemma_bump_at(counts0, style@, i as int);
                    assert(self.view_with(Seq::empty()).counts =~= counts0.update(
                        i as int,
                        (counts0[i as int].0, counts0[i as int].1 + 1),
                    ));
                }
                return ;
            }
            i = i + 1;
        }
        self.style_counter.push((style.clone(), 1));
        proof {
            lemma_bump_missing(counts0, style@);
            assert(self.view_with(Seq::empty()).counts =~= counts0.push((style@, 1int)));
        }
    }
}

/// The `out` component of the pass state is the line sequence it was read
/// with.
pub proof fn lemma_view_out(p: &ScriptPreparer, o: Seq<Seq<char>>)
    ensures
        p.view_with(o).out == o,
{
}

/// The pass state is the same whatever lines stand beside it: only the
/// `out` component differs.
pub proof fn lemma_view_out_irrelevant(p: &ScriptPreparer, a: Seq<Seq<char>>, b: Seq<Seq<char>>)
    ensures
        p.view_with(a) == (SpecPrep { out: a, ..p.view_with(b) }),
{
    assert(p.view_with(a).counts =~= p.view_with(b).counts);
}

/// Bumping raises no count past one more than the previous bound.
proof fn lemma_bump_bound(counts: Seq<(Seq<char>, int)>, s: Seq<char>, b: int)
    requires
        0 <= b,
        forall|j: int| 0 <= j < counts.len() ==> (#[trigger] counts[j]).1 <= b,
    ensures
        forall|j: int|
            0 <= j < bump_counts(counts, s).len() ==> (#[trigger] bump_counts(counts, s)[j]).1
                <= b + 1,
    decreases counts.len(),
{
    if counts.len() == 0 {
    } else if counts[0].0 == s {
        let r = seq![(counts[0].0, counts[0].1 + 1)] + counts.drop_first();
        assert forall|j: int| 0 <= j < r.len() implies (#[trigger] r[j]).1 <= b + 1 by {
            if j > 0 {
                assert(r[j] == counts[j]);
            }
        }
    } else {
        assert(forall|j: int|
            0 <= j < counts.drop_first().len() ==> (#[trigger] counts.drop_first()[j]).1 <= b);
        lemma_bump_bound(counts.drop_first(), s, b);
        let r = seq![counts[0]] + bump_counts(counts.drop_first(), s);
        assert forall|j: int| 0 <= j < r.len() implies (#[trigger] r[j]).1 <= b + 1 by {
            if j > 0 {
                assert(r[j] == bump_counts(counts.drop_first(), s)[j - 1]);
            }
        }
    }
}

/// Bumping a style that is absent appends it with count one.
proof fn lemma_bump_missing(counts: Seq<(Seq<char>, int)>, s: Seq<char>)
    requires
        forall|j: int| 0 <= j < counts.len() ==> (#[trigger] counts[j]).0 != s,
    ensures
        bump_counts(counts, s) == counts.push((s, 1int)),
    decreases counts.len(),
{
    if counts.len() == 0 {
        assert(bump_counts(counts, s) =~= counts.push((s, 1int)));
    } else {
        assert(forall|j: int|
            0 <= j < counts.drop_first().len() ==> (#[trigger] counts.drop_first()[j]).0 != s);
        lemma_bump_missing(counts.drop_first(), s);
        assert(bump_counts(counts, s) =~= counts.push((s, 1int)));
    }
}

/// Bumping a style found first at position `i` raises that count by one.
proof fn lemma_bump_at(counts: Seq<(Seq<char>, int)>, s: Seq<char>, i: int)
    requires
        0 <= i < counts.len(),
        counts[i].0 == s,
        forall|j: int| 0 <= j < i ==> (#[trigger] counts[j]).0 != s,
    ensures
        bump_counts(counts, s) == counts.update(i, (counts[i].0, counts[i].1 + 1)),
    decreases counts.len(),
{
    if i == 0 {
        assert(bump_counts(counts, s) =~= counts.update(0, (counts[0].0, counts[0].1 + 1)));
    } else {
        assert(counts.drop_first()[i - 1].0 == s);
        assert(forall|j: int|
            0 <= j < i - 1 ==> (#[trigger] counts.drop_first()[j]).0 != s);
        lemma_bump_at(counts.drop_first(), s, i - 1);
        assert(bump_counts(counts, s) =~= counts.update(i, (counts[i].0, counts[i].1 + 1)));
    }
}

} // verus!
