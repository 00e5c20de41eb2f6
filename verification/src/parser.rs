//! The stateless record parser and classifier. One `Parser` value is shared
//! by every component; each method reads a raw line and answers one question
//! about it or rewrites one field.
//!
//! Classification is case-insensitive where the format demands it: the scene
//! vocabulary, the forbidden style categories and the technical effect
//! keywords are matched against the lower-cased field.

use vstd::prelude::*;

use crate::errors::{ParserError, ParseRes};
use crate::record::AssLine;
use crate::codec::{spec_parse, spec_format, parse_record, format_record};
use crate::text::{
    chars_of, string_of, trim_vec, lower_vec, contains_exec, has_prefix_exec, chars_eq,
    contains_seq, has_prefix, lower, trim, find_char, dec_str, dec_of, append_chars,
    lemma_find_char_found,
};

verus! {

/// The line is a dialogue record: it begins with the dialogue marker.
pub open spec fn spec_is_dialogue(s: Seq<char>) -> bool {
    has_prefix(s, "Dialogue: "@)
}

/// The name field marks a bonus scene: it contains one of the scene
/// vocabulary words, compared without regard to case.
pub open spec fn scene_name(n: Seq<char>) -> bool {
    ||| contains_seq(lower(n), "additional scene"@)
    ||| contains_seq(lower(n), "extra scene"@)
    ||| contains_seq(lower(n), "bonus scene"@)
    ||| contains_seq(lower(n), "special"@)
}

/// The style names a forbidden category (song cues and credits).
pub open spec fn special_style(st: Seq<char>) -> bool {
    ||| contains_seq(lower(st), "opening"@)
    ||| contains_seq(lower(st), "ending"@)
    ||| contains_seq(lower(st), "op"@)
    ||| contains_seq(lower(st), "ed"@)
}

/// The effect field names a templating or programmatic keyword.
pub open spec fn technical_effect(e: Seq<char>) -> bool {
    let t = trim(lower(e));
    t == "fx"@ || has_prefix(t, "template"@) || has_prefix(t, "code"@)
}

/// The text with every shortest `{...}` span removed.
pub open spec fn strip_tags(s: Seq<char>) -> Seq<char>
    decreases s.len(),
    via strip_tags_dec
{
    if s.len() == 0 {
        s
    } else if s[0] == '{' {
        match find_char(s.drop_first(), '}') {
            None => s,
            Some(j) => strip_tags(s.subrange(j + 2, s.len() as int)),
        }
    } else {
        seq![s[0]] + strip_tags(s.drop_first())
    }
}

#[via_fn]
proof fn strip_tags_dec(s: Seq<char>) {
    if s.len() > 0 && s[0] == '{' && find_char(s.drop_first(), '}') is Some {
        lemma_find_char_found(s.drop_first(), '}');
    }
}

/// Total length of the shortest `{...}` spans of the text.
pub open spec fn tags_len(s: Seq<char>) -> int
    decreases s.len(),
    via tags_len_dec
{
    if s.len() == 0 {
        0
    } else if s[0] == '{' {
        match find_char(s.drop_first(), '}') {
            None => 0,
            Some(j) => j + 2 + tags_len(s.subrange(j + 2, s.len() as int)),
        }
    } else {
        tags_len(s.drop_first())
    }
}

#[via_fn]
proof fn tags_len_dec(s: Seq<char>) {
    if s.len() > 0 && s[0] == '{' && find_char(s.drop_first(), '}') is Some {
        lemma_find_char_found(s.drop_first(), '}');
    }
}

/// Nothing visible is left of the text once the override spans are removed.
pub open spec fn empty_after_strip(t: Seq<char>) -> bool {
    trim(strip_tags(t)).len() == 0
}

/// Threshold over which a line's override spans count as heavy effects.
pub open spec fn excessive_tags_threshold() -> int {
    50
}

/// Whether the record is a bonus-scene record, or the parse error of the
/// line. A line that is no dialogue record is simply not a scene.
pub open spec fn spec_is_scene(s: Seq<char>) -> Result<bool, ParserError> {
    if !spec_is_dialogue(s) {
        Ok(false)
    } else {
        match spec_parse(s) {
            Err(e) => Err(e),
            Ok(r) => Ok(scene_name(r.name)),
        }
    }
}

/// Whether the record is technical garbage: a technical effect, heavy
/// override spans in its text, or no visible text at all.
pub open spec fn spec_is_garbage(s: Seq<char>) -> Result<bool, ParserError> {
    match spec_parse(s) {
        Err(e) => Err(e),
        Ok(r) => Ok(
            technical_effect(r.effect) || tags_len(r.text) > excessive_tags_threshold()
                || empty_after_strip(r.text),
        ),
    }
}

/// The duplicate-detection key of a record: start, end and style.
pub open spec fn spec_line_key(start: int, end: int, style: Seq<char>) -> Seq<char> {
    dec_str(start) + seq!['|'] + dec_str(end) + seq!['|'] + style
}

/// Removes every shortest `{...}` span of the text.
pub fn strip_tags_exec(v: &[char]) -> (r: Vec<char>)
    ensures
        r@ == strip_tags(v@),
{
    let n = v.len();
    let mut out: Vec<char> = Vec::new();
    let mut pos: usize = 0;
    proof {
        assert(v@.subrange(0, n as int) =~= v@);
    }
    while pos < n
        invariant
            pos <= n,
            n == v@.len(),
            strip_tags(v@) =~= out@ + strip_tags(v@.subrange(pos as int, n as int)),
        decreases n - pos,
    {
        let ghost rest = v@.subrange(pos as int, n as int);
        if v[pos] == '{' {
            let tail = crate::timecode::subvec(v, pos + 1, n);
            proof {
                assert(tail@ =~= rest.drop_first());
            }
            match crate::timecode::find_char_exec(tail.as_slice(), '}') {
                Some(j) => {
                    proof {
                        lemma_find_char_found(tail@, '}');
                        assert(v@.subrange(pos + j + 2, n as int) =~= rest.subrange(
                            j + 2,
                            rest.len() as int,
                        ));
                    }
                    pos = pos + j + 2;
                },
                None => {
                    // no closing brace anywhere: the rest is kept verbatim
                    proof {
                        assert(strip_tags(rest) == rest);
                    }
                    let keep = crate::timecode::subvec(v, pos, n);
                    crate::text::append_chars(&mut out, keep.as_slice());
                    proof {
                        assert(out@ =~= strip_tags(v@));
                    }
                    return out;
                },
            }
        } else {
            proof {
                assert(strip_tags(rest) == seq![rest[0]] + strip_tags(rest.drop_first()));
                assert(v@.subrange(pos + 1, n as int) =~= rest.drop_first());
            }
            out.push(v[pos]);
            pos = pos + 1;
        }
    }
    proof {
        assert(strip_tags(v@.subrange(n as int, n as int)) == v@.subrange(n as int, n as int));
        assert(out@ =~= strip_tags(v@));
    }
    out
}

/// Total length of the shortest `{...}` spans.
pub fn tags_len_exec(v: &[char]) -> (r: usize)
    ensures
        r == tags_len(v@),
{
    let n = v.len();
    let mut acc: usize = 0;
    let mut pos: usize = 0;
    proof {
        assert(v@.subrange(0, n as int) =~= v@);
    }
    while pos < n
        invariant
            pos <= n,
            n == v@.len(),
            acc <= pos,
            tags_len(v@) == acc + tags_len(v@.subrange(pos as int, n as int)),
        decreases n - pos,
    {
        let ghost rest = v@.subrange(pos as int, n as int);
        if v[pos] == '{' {
            let tail = crate::timecode::subvec(v, pos + 1, n);
            proof {
                assert(tail@ =~= rest.drop_first());
            }
            match crate::timecode::find_char_exec(tail.as_slice(), '}') {
                Some(j) => {
                    proof {
                        lemma_find_char_found(tail@, '}');
                        assert(v@.subrange(pos + j + 2, n as int) =~= rest.subrange(
                            j + 2,
                            rest.len() as int,
                        ));
                        crate::parser::lemma_tags_len_bounds(
                            v@.subrange(pos + j + 2, n as int),
                        );
                    }
                    acc = acc + j + 2;
                    pos = pos + j + 2;
                },
                None => {
                    proof {
                        assert(tags_len(rest) == 0);
                    }
                    return acc;
                },
            }
        } else {
            proof {
                assert(v@.subrange(pos + 1, n as int) =~= rest.drop_first());
            }
            pos = pos + 1;
        }
    }
    proof {
        assert(tags_len(v@.subrange(n as int, n as int)) == 0);
    }
    acc
}

/// The span total is never negative and never exceeds the text length.
pub proof fn lemma_tags_len_bounds(s: Seq<char>)
    ensures
        0 <= tags_len(s) <= s.len(),
    decreases s.len(),
{
    if s.len() > 0 {
        if s[0] == '{' {
            match find_char(s.drop_first(), '}') {
                None => {},
                Some(j) => {
                    lemma_find_char_found(s.drop_first(), '}');
                    lemma_tags_len_bounds(s.subrange(j + 2, s.len() as int));
                },
            }
        } else {
            lemma_tags_len_bounds(s.drop_first());
        }
    }
}

/// The stateless parser and classifier shared across components.
pub struct Parser;

impl Parser {
    pub fn new() -> (r: Self)
        ensures
            r == (Parser {}),
    {
        Parser {}
    }

    /// Parses one raw line into a structured record.
    pub fn parse_ass_line(&self, line: &str) -> (r: ParseRes<AssLine>)
        ensures
            r matches Ok(rec) ==> spec_parse(line@) == Ok::<_, ParserError>(rec@),
            r matches Err(e) ==> spec_parse(line@) == Err::<crate::record::SpecRecord, _>(e),
    {
        let v = chars_of(line);
        parse_record(v.as_slice())
    }

    /// Marker of the style-definition section.
    pub fn get_styles_tag(&self) -> (r: String)
        ensures
            r@ == "[V4+ Styles]"@,
    {
        String::from_str("[V4+ Styles]")
    }

    /// Column layout of style-definition lines.
    pub fn get_styles_format(&self) -> (r: String)
        ensures
            r@
                == "Format: Name, Fontname, Fontsize, PrimaryColour, SecondaryColour, OutlineColour, BackColour, Bold, Italic, Underline, StrikeOut, ScaleX, ScaleY, Spacing, Angle, BorderStyle, Outline, Shadow, Alignment, MarginL, MarginR, MarginV, Encoding"@,
    {
        String::from_str(
            "Format: Name, Fontname, Fontsize, PrimaryColour, SecondaryColour, OutlineColour, BackColour, Bold, Italic, Underline, StrikeOut, ScaleX, ScaleY, Spacing, Angle, BorderStyle, Outline, Shadow, Alignment, MarginL, MarginR, MarginV, Encoding",
        )
    }

    /// Offset, in centiseconds, between a reference record and the record
    /// that should align with it.
    pub fn get_new_offset(&self, next_line: &str, next_block_line: &str) -> (r: ParseRes<i64>)
        ensures
            r matches Ok(d) ==> {
                &&& spec_parse(next_line@) matches Ok(n)
                &&& spec_parse(next_block_line@) matches Ok(b)
                &&& spec_parse(next_line@) matches Ok(n) ==> spec_parse(next_block_line@)
                    matches Ok(b) ==> d == b.start - n.start
            },
            r matches Err(e) ==> spec_parse(next_line@) == Err::<crate::record::SpecRecord,
                _,
            >(e) || (spec_parse(next_line@) is Ok && spec_parse(next_block_line@) == Err::<
                crate::record::SpecRecord,
                _,
            >(e)),
    {
        let next = match self.parse_ass_line(next_line) {
            Ok(n) => n,
            Err(e) => {
                return Err(e);
            },
        };
        let next_block = match self.parse_ass_line(next_block_line) {
            Ok(b) => b,
            Err(e) => {
                return Err(e);
            },
        };
        proof {
            lemma_parse_start_bounds(next_line@);
            lemma_parse_start_bounds(next_block_line@);
        }
        Ok(next_block.start - next.start)
    }

    /// The record's style field.
    pub fn get_style(&self, line: &str) -> (r: ParseRes<String>)
        ensures
            r matches Ok(s) ==> spec_parse(line@) matches Ok(rec) && s@ == rec.style,
            r matches Err(e) ==> spec_parse(line@) == Err::<crate::record::SpecRecord, _>(e),
    {
        match self.parse_ass_line(line) {
            Ok(rec) => Ok(rec.style),
            Err(e) => Err(e),
        }
    }

    /// The record's text field.
    pub fn get_text(&self, line: &str) -> (r: ParseRes<String>)
        ensures
            r matches Ok(s) ==> spec_parse(line@) matches Ok(rec) && s@ == rec.text,
            r matches Err(e) ==> spec_parse(line@) == Err::<crate::record::SpecRecord, _>(e),
    {
        match self.parse_ass_line(line) {
            Ok(rec) => Ok(rec.text),
            Err(e) => Err(e),
        }
    }

    /// The record's start time, in centiseconds.
    pub fn get_start_time(&self, line: &str) -> (r: ParseRes<i64>)
        ensures
            r matches Ok(t) ==> spec_parse(line@) matches Ok(rec) && t == rec.start,
            r matches Err(e) ==> spec_parse(line@) == Err::<crate::record::SpecRecord, _>(e),
    {
        match self.parse_ass_line(line) {
            Ok(rec) => Ok(rec.start),
            Err(e) => Err(e),
        }
    }

    /// The record's end time, in centiseconds.
    pub fn get_end_time(&self, line: &str) -> (r: ParseRes<i64>)
        ensures
            r matches Ok(t) ==> spec_parse(line@) matches Ok(rec) && t == rec.end,
            r matches Err(e) ==> spec_parse(line@) == Err::<crate::record::SpecRecord, _>(e),
    {
        match self.parse_ass_line(line) {
            Ok(rec) => Ok(rec.end),
            Err(e) => Err(e),
        }
    }

    /// The duplicate-detection key of the record: start, end and style.
    pub fn get_line_key(&self, line: &str) -> (r: ParseRes<String>)
        ensures
            r matches Ok(k) ==> spec_parse(line@) matches Ok(rec) && k@ == spec_line_key(
                rec.start,
                rec.end,
                rec.style,
            ),
            r matches Err(e) ==> spec_parse(line@) == Err::<crate::record::SpecRecord, _>(e),
    {
        let rec = match self.parse_ass_line(line) {
            Ok(rec) => rec,
            Err(e) => {
                return Err(e);
            },
        };
        proof {
            lemma_parse_start_bounds(line@);
        }
        let mut out: Vec<char> = Vec::new();
        let ds = dec_of(rec.start as u64);
        append_chars(&mut out, ds.as_slice());
        out.push('|');
        let de = dec_of(rec.end as u64);
        append_chars(&mut out, de.as_slice());
        out.push('|');
        let st = chars_of(rec.style.as_str());
        append_chars(&mut out, st.as_slice());
        proof {
            assert(out@ =~= spec_line_key(rec.start as int, rec.end as int, rec.style@));
        }
        Ok(string_of(out.as_slice()))
    }

    /// Rewrites the record's start time; a negative time clamps to zero.
    pub fn set_start_time(&self, line: &str, new_start: i64) -> (r: ParseRes<String>)
        ensures
            r matches Ok(s) ==> spec_parse(line@) matches Ok(rec) && s@ == spec_format(
                crate::record::SpecRecord { start: clamp0(new_start as int), ..rec },
            ),
            r matches Err(e) ==> spec_parse(line@) == Err::<crate::record::SpecRecord, _>(e),
    {
        match self.parse_ass_line(line) {
            Ok(rec) => {
                let start = if new_start < 0 {
                    0
                } else {
                    new_start
                };
                let updated = AssLine { start, ..rec };
                proof {
                    lemma_parse_start_bounds(line@);
                }
                Ok(format_record(&updated))
            },
            Err(e) => Err(e),
        }
    }

    /// Rewrites the record's end time; a negative time clamps to zero.
    pub fn set_end_time(&self, line: &str, new_end: i64) -> (r: ParseRes<String>)
        ensures
            r matches Ok(s) ==> spec_parse(line@) matches Ok(rec) && s@ == spec_format(
                crate::record::SpecRecord { end: clamp0(new_end as int), ..rec },
            ),
            r matches Err(e) ==> spec_parse(line@) == Err::<crate::record::SpecRecord, _>(e),
    {
        match self.parse_ass_line(line) {
            Ok(rec) => {
                let end = if new_end < 0 {
                    0
                } else {
                    new_end
                };
                let updated = AssLine { end, ..rec };
                proof {
                    lemma_parse_start_bounds(line@);
                }
                Ok(format_record(&updated))
            },
            Err(e) => Err(e),
        }
    }

    /// Whether the line is a bonus-scene record.
    pub fn is_scene_line(&self, line: &str) -> (r: ParseRes<bool>)
        ensures
            r == spec_is_scene(line@),
    {
        if !self.is_dialogue(line) {
            return Ok(false);
        }
        match self.parse_ass_line(line) {
            Ok(rec) => {
                let name = chars_of(rec.name.as_str());
                let low = lower_vec(name.as_slice());
                let w1 = chars_of("additional scene");
                let w2 = chars_of("extra scene");
                let w3 = chars_of("bonus scene");
                let w4 = chars_of("special");
                Ok(
                    contains_exec(low.as_slice(), w1.as_slice()) || contains_exec(
                        low.as_slice(),
                        w2.as_slice(),
                    ) || contains_exec(low.as_slice(), w3.as_slice()) || contains_exec(
                        low.as_slice(),
                        w4.as_slice(),
                    ),
                )
            },
            Err(e) => Err(e),
        }
    }

    /// Whether the record's style names a forbidden category.
    pub fn is_special_style(&self, line: &str) -> (r: ParseRes<bool>)
        ensures
            r matches Ok(b) ==> spec_parse(line@) matches Ok(rec) && b == special_style(rec.style),
            r matches Err(e) ==> spec_parse(line@) == Err::<crate::record::SpecRecord, _>(e),
    {
        match self.parse_ass_line(line) {
            Ok(rec) => {
                let style = chars_of(rec.style.as_str());
                let low = lower_vec(style.as_slice());
                let w1 = chars_of("opening");
                let w2 = chars_of("ending");
                let w3 = chars_of("op");
                let w4 = chars_of("ed");
                Ok(
                    contains_exec(low.as_slice(), w1.as_slice()) || contains_exec(
                        low.as_slice(),
                        w2.as_slice(),
                    ) || contains_exec(low.as_slice(), w3.as_slice()) || contains_exec(
                        low.as_slice(),
                        w4.as_slice(),
                    ),
                )
            },
            Err(e) => Err(e),
        }
    }

    /// Whether nothing visible is left of the record's text once override
    /// spans are removed.
    pub fn is_text_empty(&self, line: &str) -> (r: ParseRes<bool>)
        ensures
            r matches Ok(b) ==> spec_parse(line@) matches Ok(rec) && b == empty_after_strip(
                rec.text,
            ),
            r matches Err(e) ==> spec_parse(line@) == Err::<crate::record::SpecRecord, _>(e),
    {
        match self.parse_ass_line(line) {
            Ok(rec) => {
                let text = chars_of(rec.text.as_str());
                let stripped = strip_tags_exec(text.as_slice());
                let trimmed = trim_vec(stripped.as_slice());
                Ok(trimmed.len() == 0)
            },
            Err(e) => Err(e),
        }
    }

    /// Whether the text's override spans exceed the heavy-effect threshold.
    pub fn has_excessive_tags(&self, text: &str) -> (r: bool)
        ensures
            r == (tags_len(text@) > excessive_tags_threshold()),
    {
        let v = chars_of(text);
        let total = tags_len_exec(v.as_slice());
        total > 50
    }

    /// Whether the record is technical garbage.
    pub fn is_technical_garbage(&self, line: &str) -> (r: ParseRes<bool>)
        ensures
            r == spec_is_garbage(line@),
    {
        match self.parse_ass_line(line) {
            Ok(rec) => {
                let effect = chars_of(rec.effect.as_str());
                let low = lower_vec(effect.as_slice());
                let trimmed = trim_vec(low.as_slice());
                let fx = chars_of("fx");
                let template = chars_of("template");
                let code = chars_of("code");
                let technical = chars_eq(trimmed.as_slice(), fx.as_slice()) || has_prefix_exec(
                    trimmed.as_slice(),
                    template.as_slice(),
                ) || has_prefix_exec(trimmed.as_slice(), code.as_slice());
                if technical {
                    return Ok(true);
                }
                let text = chars_of(rec.text.as_str());
                let total = tags_len_exec(text.as_slice());
                if total > 50 {
                    return Ok(true);
                }
                let stripped = strip_tags_exec(text.as_slice());
                let clean = trim_vec(stripped.as_slice());
                Ok(clean.len() == 0)
            },
            Err(e) => Err(e),
        }
    }

    /// The line opens the events section.
    pub fn is_events_section(&self, line: &str) -> (r: bool)
        ensures
            r == has_prefix(line@, "[Events]"@),
    {
        let v = chars_of(line);
        let p = chars_of("[Events]");
        has_prefix_exec(v.as_slice(), p.as_slice())
    }

    /// The line declares the column layout of a section.
    pub fn is_format_line(&self, line: &str) -> (r: bool)
        ensures
            r == has_prefix(line@, "Format:"@),
    {
        let v = chars_of(line);
        let p = chars_of("Format:");
        has_prefix_exec(v.as_slice(), p.as_slice())
    }

    /// The line is a dialogue record.
    pub fn is_dialogue(&self, line: &str) -> (r: bool)
        ensures
            r == spec_is_dialogue(line@),
    {
        let v = chars_of(line);
        let p = chars_of("Dialogue: ");
        has_prefix_exec(v.as_slice(), p.as_slice())
    }

    /// The line mentions the script-info section marker.
    pub fn is_script_info(&self, line: &str) -> (r: bool)
        ensures
            r == contains_seq(line@, "[Script Info]"@),
    {
        let v = chars_of(line);
        let p = chars_of("[Script Info]");
        contains_exec(v.as_slice(), p.as_slice())
    }

    /// The trimmed line is exactly the style-section marker.
    pub fn is_v4_styles(&self, line: &str) -> (r: bool)
        ensures
            r == (trim(line@) == "[V4+ Styles]"@),
    {
        let v = chars_of(line);
        let t = trim_vec(v.as_slice());
        let p = chars_of("[V4+ Styles]");
        chars_eq(t.as_slice(), p.as_slice())
    }

    /// The trimmed line opens some section.
    pub fn is_section_start(&self, line: &str) -> (r: bool)
        ensures
            r == has_prefix(trim(line@), "["@),
    {
        let v = chars_of(line);
        let t = trim_vec(v.as_slice());
        let p = chars_of("[");
        has_prefix_exec(t.as_slice(), p.as_slice())
    }

    /// The trimmed line sets the horizontal render resolution.
    pub fn is_playresx(&self, line: &str) -> (r: bool)
        ensures
            r == has_prefix(trim(line@), "PlayResX:"@),
    {
        let v = chars_of(line);
        let t = trim_vec(v.as_slice());
        let p = chars_of("PlayResX:");
        has_prefix_exec(t.as_slice(), p.as_slice())
    }

    /// The trimmed line sets the vertical render resolution.
    pub fn is_playresy(&self, line: &str) -> (r: bool)
        ensures
            r == has_prefix(trim(line@), "PlayResY:"@),
    {
        let v = chars_of(line);
        let t = trim_vec(v.as_slice());
        let p = chars_of("PlayResY:");
        has_prefix_exec(t.as_slice(), p.as_slice())
    }

    /// The trimmed line sets the border-scaling flag.
    pub fn is_scaled_border(&self, line: &str) -> (r: bool)
        ensures
            r == has_prefix(trim(line@), "ScaledBorderAndShadow:"@),
    {
        let v = chars_of(line);
        let t = trim_vec(v.as_slice());
        let p = chars_of("ScaledBorderAndShadow:");
        has_prefix_exec(t.as_slice(), p.as_slice())
    }

    /// Renders the horizontal-resolution key with the given value.
    pub fn format_playresx(&self, value: u32) -> (r: String)
        ensures
            r@ == "PlayResX:"@ + seq![' '] + dec_str(value as int),
    {
        let mut out: Vec<char> = Vec::new();
        let p = chars_of("PlayResX:");
        append_chars(&mut out, p.as_slice());
        out.push(' ');
        let d = dec_of(value as u64);
        append_chars(&mut out, d.as_slice());
        string_of(out.as_slice())
    }

    /// Renders the vertical-resolution key with the given value.
    pub fn format_playresy(&self, value: u32) -> (r: String)
        ensures
            r@ == "PlayResY:"@ + seq![' '] + dec_str(value as int),
    {
        let mut out: Vec<char> = Vec::new();
        let p = chars_of("PlayResY:");
        append_chars(&mut out, p.as_slice());
        out.push(' ');
        let d = dec_of(value as u64);
        append_chars(&mut out, d.as_slice());
        string_of(out.as_slice())
    }

    /// Renders the border-scaling key with a yes/no value.
    pub fn format_scaled_border(&self, active: bool) -> (r: String)
        ensures
            active ==> r@ == "ScaledBorderAndShadow:"@ + seq![' '] + "yes"@,
            !active ==> r@ == "ScaledBorderAndShadow:"@ + seq![' '] + "no"@,
    {
        let mut out: Vec<char> = Vec::new();
        let p = chars_of("ScaledBorderAndShadow:");
        append_chars(&mut out, p.as_slice());
        out.push(' ');
        let word = if active {
            chars_of("yes")
        } else {
            chars_of("no")
        };
        append_chars(&mut out, word.as_slice());
        string_of(out.as_slice())
    }

    /// The trimmed line is a style definition.
    pub fn is_style_definition(&self, line: &str) -> (r: bool)
        ensures
            r == has_prefix(trim(line@), "Style:"@),
    {
        let v = chars_of(line);
        let t = trim_vec(v.as_slice());
        let p = chars_of("Style:");
        has_prefix_exec(t.as_slice(), p.as_slice())
    }

    /// Rewrites the record's text field and serializes the result.
    pub fn replace_text(&self, line: &str, translation: &str) -> (r: ParseRes<String>)
        ensures
            r matches Ok(s) ==> spec_parse(line@) matches Ok(rec) && s@ == spec_format(
                crate::record::SpecRecord { text: translation@, ..rec },
            ),
            r matches Err(e) ==> spec_parse(line@) == Err::<crate::record::SpecRecord, _>(e),
    {
        match self.parse_ass_line(line) {
            Ok(rec) => {
                let updated = AssLine { text: String::from_str(translation), ..rec };
                proof {
                    lemma_parse_start_bounds(line@);
                }
                Ok(format_record(&updated))
            },
            Err(e) => Err(e),
        }
    }

    /// Rewrites the record's style field and serializes the result.
    pub fn replace_style(&self, line: &str, style: &str) -> (r: ParseRes<String>)
        ensures
            r matches Ok(s) ==> spec_parse(line@) matches Ok(rec) && s@ == spec_format(
                crate::record::SpecRecord { style: style@, ..rec },
            ),
            r matches Err(e) ==> spec_parse(line@) == Err::<crate::record::SpecRecord, _>(e),
    {
        match self.parse_ass_line(line) {
            Ok(rec) => {
                let updated = AssLine { style: String::from_str(style), ..rec };
                proof {
                    lemma_parse_start_bounds(line@);
                }
                Ok(format_record(&updated))
            },
            Err(e) => Err(e),
        }
    }
}

/// Negative values clamp to zero.
pub open spec fn clamp0(x: int) -> int {
    if x < 0 {
        0
    } else {
        x
    }
}

/// A parsed record's times are within the timestamp bound.
pub proof fn lemma_parse_start_bounds(line: Seq<char>)
    ensures
        spec_parse(line) matches Ok(rec) ==> 0 <= rec.start
            <= crate::timecode::TIME_CAP_CS && 0 <= rec.end <= crate::timecode::TIME_CAP_CS,
{
    if spec_parse(line) is Ok {
        let body = line.subrange("Dialogue: "@.len() as int, line.len() as int);
        let parts = crate::codec::split_fields(body, crate::codec::field_count());
        lemma_parse_time_bounds(parts[1]);
        lemma_parse_time_bounds(parts[2]);
    }
}

/// A parsed timestamp is within the timestamp bound.
pub proof fn lemma_parse_time_bounds(s: Seq<char>)
    ensures
        crate::timecode::spec_parse_time(s) matches Some(v) ==> 0 <= v
            <= crate::timecode::TIME_CAP_CS,
{
    match find_char(s, ':') {
        None => {},
        Some(i1) => {
            let h = s.subrange(0, i1);
            let r1 = s.subrange(i1 + 1, s.len() as int);
            match find_char(r1, ':') {
                None => {},
                Some(i2) => {
                    let m = r1.subrange(0, i2);
                    let r2 = r1.subrange(i2 + 1, r1.len() as int);
                    let sec = match find_char(r2, ':') {
                        None => r2,
                        Some(i3) => r2.subrange(0, i3),
                    };
                    match find_char(sec, '.') {
                        None => {},
                        Some(j) => {
                            let ss = sec.subrange(0, j);
                            let rest = sec.subrange(j + 1, sec.len() as int);
                            let cs = match find_char(rest, '.') {
                                None => rest,
                                Some(k) => rest.subrange(0, k),
                            };
                            if crate::text::all_digits(h) && crate::text::all_digits(m)
                                && crate::text::all_digits(ss) && crate::text::all_digits(cs) {
                                crate::text::lemma_dec_val_nonneg(h);
                                crate::text::lemma_dec_val_nonneg(m);
                                crate::text::lemma_dec_val_nonneg(ss);
                                crate::text::lemma_dec_val_nonneg(cs);
                            }
                        },
                    }
                },
            }
        },
    }
}

} // verus!
