//! The dialogue-record grammar: the comma-separated payload behind the
//! `Dialogue: ` marker, its parse into a structured record, and the canonical
//! serialization that writes records back out. The round-trip law — a
//! formatted record parses back to the same semantic fields — is proved at
//! the bottom of the module.

use vstd::prelude::*;

use crate::errors::{ParserError, ParseRes};
use crate::record::{AssLine, SpecRecord};
use crate::text::{
    find_char, has_prefix, trim, lemma_find_char_at, lemma_find_char_found, is_digit, chars_of,
    string_of, trim_vec, append_chars, dec_str, pad2,
};
use crate::timecode::{
    TIME_CAP_CS, spec_parse_time, spec_format_time, parse_time, format_time, subvec,
    find_char_exec, lemma_time_roundtrip,
};

verus! {

/// Number of comma-separated fields of a record payload.
pub open spec fn field_count() -> nat {
    10
}

/// The payload split on commas into at most `n` fields, the last one greedy.
pub open spec fn split_fields(s: Seq<char>, n: nat) -> Seq<Seq<char>>
    decreases n,
{
    if n <= 1 {
        seq![s]
    } else {
        match find_char(s, ',') {
            None => seq![s],
            Some(i) => seq![s.subrange(0, i)]
                + split_fields(s.subrange(i + 1, s.len() as int), (n - 1) as nat),
        }
    }
}

/// The parse of one raw line into a record, or the error it raises.
pub open spec fn spec_parse(line: Seq<char>) -> Result<SpecRecord, ParserError> {
    if !has_prefix(line, "Dialogue: "@) {
        Err(ParserError::DialoguePrefix)
    } else {
        let body = line.subrange("Dialogue: "@.len() as int, line.len() as int);
        let parts = split_fields(body, field_count());
        if parts.len() < field_count() {
            Err(ParserError::MissingFields { found: parts.len() as usize })
        } else {
            match spec_parse_time(parts[1]) {
                None => Err(ParserError::TimeParse),
                Some(st) => match spec_parse_time(parts[2]) {
                    None => Err(ParserError::TimeParse),
                    Some(en) => Ok(
                        SpecRecord {
                            layer: parts[0],
                            start: st,
                            end: en,
                            style: trim(parts[3]),
                            name: trim(parts[4]),
                            effect: trim(parts[8]),
                            text: trim(parts[9]),
                        },
                    ),
                },
            }
        }
    }
}

/// The canonical serialization of a record: fixed layer `10`, the record's
/// times and fields, zeroed margins.
pub open spec fn spec_format(r: SpecRecord) -> Seq<char> {
    "Dialogue: "@ + seq!['1', '0', ','] + spec_format_time(r.start) + seq![',']
        + spec_format_time(r.end) + seq![','] + r.style + seq![','] + r.name
        + seq![',', '0', ',', '0', ',', '0', ','] + r.effect + seq![','] + r.text
}

/// A record whose fields can round-trip through the serialization: times in
/// range, the trimmed fields free of commas and surrounding whitespace.
pub open spec fn rec_wf(r: SpecRecord) -> bool {
    &&& 0 <= r.start <= TIME_CAP_CS
    &&& 0 <= r.end <= TIME_CAP_CS
    &&& no_comma(r.style) && trim(r.style) == r.style
    &&& no_comma(r.name) && trim(r.name) == r.name
    &&& no_comma(r.effect) && trim(r.effect) == r.effect
    &&& trim(r.text) == r.text
}

/// No character of `s` is a comma.
pub open spec fn no_comma(s: Seq<char>) -> bool {
    forall|i: int| 0 <= i < s.len() ==> s[i] != ','
}

/// Splits a payload on commas into at most ten fields.
pub fn split_fields_exec(v: &[char]) -> (parts: Vec<Vec<char>>)
    ensures
        parts.deep_view() == split_fields(v@, field_count()),
        1 <= parts.len() <= field_count(),
{
    let n = v.len();
    let mut parts: Vec<Vec<char>> = Vec::new();
    let mut pos: usize = 0;
    proof {
        assert(v@.subrange(0, n as int) =~= v@);
        assert(parts.deep_view() =~= Seq::<Seq<char>>::empty());
        assert(parts.deep_view() + split_fields(v@, field_count()) =~= split_fields(
            v@,
            field_count(),
        ));
    }
    loop
        invariant_except_break
            parts.len() <= 8,
        invariant
            pos <= n,
            n == v@.len(),
            parts.len() <= 9,
            split_fields(v@, field_count()) =~= parts.deep_view() + split_fields(
                v@.subrange(pos as int, n as int),
                (field_count() - parts.len()) as nat,
            ),
        ensures
            pos <= n,
            n == v@.len(),
            parts.len() <= 9,
            split_fields(v@, field_count()) =~= parts.deep_view() + split_fields(
                v@.subrange(pos as int, n as int),
                (field_count() - parts.len()) as nat,
            ),
            parts.len() == 9 || find_char(v@.subrange(pos as int, n as int), ',') is None,
        decreases n - pos,
    {
        let rest = subvec(v, pos, n);
        let ghost left = (field_count() - parts.len()) as nat;
        let ghost dv0 = parts.deep_view();
        match find_char_exec(rest.as_slice(), ',') {
            Some(i) => {
                proof {
                    lemma_find_char_found(rest@, ',');
                }
                let field = subvec(v, pos, pos + i);
                proof {
                    assert(field@ =~= rest@.subrange(0, i as int));
                    assert(v@.subrange(pos + i + 1, n as int) =~= rest@.subrange(
                        i + 1,
                        rest@.len() as int,
                    ));
                    assert(split_fields(rest@, left) == seq![rest@.subrange(0, i as int)]
                        + split_fields(
                        rest@.subrange(i + 1, rest@.len() as int),
                        (left - 1) as nat,
                    ));
                }
                parts.push(field);
                pos = pos + i + 1;
                proof {
                    assert(parts.deep_view() =~~= dv0.push(field@));
                }
                if parts.len() == 9 {
                    break;
                }
            },
            None => {
                proof {
                    assert(split_fields(rest@, left) == seq![rest@]);
                }
                break;
            },
        }
    }
    // the final field takes everything that is left, commas included
    let last = subvec(v, pos, n);
    let ghost left = (field_count() - parts.len()) as nat;
    let ghost dv1 = parts.deep_view();
    proof {
        assert(split_fields(v@.subrange(pos as int, n as int), left) == seq![last@]);
    }
    parts.push(last);
    proof {
        assert(parts.deep_view() =~~= dv1.push(last@));
        assert(parts.deep_view() =~= split_fields(v@, field_count()));
    }
    parts
}

/// Every field a split yields except the last is free of commas.
pub proof fn lemma_split_parts_no_comma(s: Seq<char>, n: nat)
    ensures
        forall|k: int|
            0 <= k < split_fields(s, n).len() - 1 ==> no_comma(#[trigger] split_fields(s, n)[k]),
    decreases n,
{
    if n > 1 {
        match find_char(s, ',') {
            None => {},
            Some(i) => {
                lemma_find_char_found(s, ',');
                let rest = s.subrange(i + 1, s.len() as int);
                lemma_split_parts_no_comma(rest, (n - 1) as nat);
                assert(no_comma(s.subrange(0, i)));
                assert(forall|k: int|
                    1 <= k < split_fields(s, n).len() - 1 ==> split_fields(s, n)[k]
                        == split_fields(rest, (n - 1) as nat)[k - 1]);
            },
        }
    }
}

/// One step of the split: a comma-free field followed by a comma comes off
/// the front.
pub proof fn lemma_split_one(s: Seq<char>, f: Seq<char>, rest: Seq<char>, n: nat)
    requires
        n >= 2,
        no_comma(f),
        s =~= f + seq![','] + rest,
    ensures
        split_fields(s, n) == seq![f] + split_fields(rest, (n - 1) as nat),
{
    assert(s[f.len() as int] == ',');
    assert(forall|j: int| 0 <= j < f.len() ==> s[j] == f[j]);
    lemma_find_char_at(s, ',', f.len() as int);
    assert(s.subrange(0, f.len() as int) =~= f);
    assert(s.subrange(f.len() as int + 1, s.len() as int) =~= rest);
}

proof fn lemma_format_time_no_comma(v: int)
    ensures
        no_comma(spec_format_time(v)),
{
    let s = spec_format_time(v);
    crate::text::lemma_dec_str_digits(v / 360000);
    assert forall|i: int| 0 <= i < s.len() implies s[i] != ',' by {
        let h = dec_str(v / 360000);
        let hl = h.len() as int;
        if i < hl {
            assert(s[i] == h[i]);
            assert(is_digit(h[i]));
            assert((',' as u32) == 44);
        } else if i == hl || i == hl + 3 {
            assert(s[i] == ':');
        } else if i == hl + 6 {
            assert(s[i] == '.');
        } else {
            let m = pad2((v % 360000) / 6000);
            let ss = pad2((v % 6000) / 100);
            let cs = pad2(v % 100);
            assert(s[i] == m[i - hl - 1] || s[i] == ss[i - hl - 4] || s[i] == cs[i - hl - 7]);
            assert((',' as u32) == 44 && ('0' as u32) == 48);
        }
    }
}

/// Parses one raw line into a structured record.
pub fn parse_record(v: &[char]) -> (r: ParseRes<AssLine>)
    ensures
        r matches Ok(rec) ==> spec_parse(v@) == Ok::<SpecRecord, ParserError>(rec@),
        r matches Err(e) ==> spec_parse(v@) == Err::<SpecRecord, ParserError>(e),
{
    let prefix = chars_of("Dialogue: ");
    if !crate::text::has_prefix_exec(v, prefix.as_slice()) {
        return Err(ParserError::DialoguePrefix);
    }
    let body = subvec(v, prefix.len(), v.len());
    proof {
        assert(body@ == v@.subrange("Dialogue: "@.len() as int, v@.len() as int));
    }
    let parts = split_fields_exec(body.as_slice());
    if parts.len() < crate::record::ASS_FIELDS_COUNT {
        return Err(ParserError::MissingFields { found: parts.len() });
    }
    proof {
        assert(parts.deep_view().len() == parts.len());
        assert(parts.deep_view()[1] == parts@[1]@);
        assert(parts.deep_view()[2] == parts@[2]@);
        assert(parts.deep_view()[0] == parts@[0]@);
        assert(parts.deep_view()[3] == parts@[3]@);
        assert(parts.deep_view()[4] == parts@[4]@);
        assert(parts.deep_view()[8] == parts@[8]@);
        assert(parts.deep_view()[9] == parts@[9]@);
    }
    let st = match parse_time(parts[1].as_slice()) {
        Some(x) => x,
        None => {
            return Err(ParserError::TimeParse);
        },
    };
    let en = match parse_time(parts[2].as_slice()) {
        Some(x) => x,
        None => {
            return Err(ParserError::TimeParse);
        },
    };
    let style = trim_vec(parts[3].as_slice());
    let name = trim_vec(parts[4].as_slice());
    let effect = trim_vec(parts[8].as_slice());
    let text = trim_vec(parts[9].as_slice());
    Ok(
        AssLine {
            layer: string_of(parts[0].as_slice()),
            start: st as i64,
            end: en as i64,
            style: string_of(style.as_slice()),
            name: string_of(name.as_slice()),
            effect: string_of(effect.as_slice()),
            text: string_of(text.as_slice()),
        },
    )
}

/// Serializes a record in canonical form.
pub fn format_record(rec: &AssLine) -> (r: String)
    requires
        0 <= rec.start,
        0 <= rec.end,
    ensures
        r@ == spec_format(rec@),
{
    let mut out: Vec<char> = Vec::new();
    let prefix = chars_of("Dialogue: ");
    append_chars(&mut out, prefix.as_slice());
    out.push('1');
    out.push('0');
    out.push(',');
    let t1 = format_time(rec.start as u64);
    append_chars(&mut out, t1.as_slice());
    out.push(',');
    let t2 = format_time(rec.end as u64);
    append_chars(&mut out, t2.as_slice());
    out.push(',');
    let style = chars_of(rec.style.as_str());
    append_chars(&mut out, style.as_slice());
    out.push(',');
    let name = chars_of(rec.name.as_str());
    append_chars(&mut out, name.as_slice());
    out.push(',');
    out.push('0');
    out.push(',');
    out.push('0');
    out.push(',');
    out.push('0');
    out.push(',');
    let effect = chars_of(rec.effect.as_str());
    append_chars(&mut out, effect.as_slice());
    out.push(',');
    let text = chars_of(rec.text.as_str());
    append_chars(&mut out, text.as_slice());
    proof {
        assert(out@ =~= spec_format(rec@));
    }
    string_of(out.as_slice())
}

/// Every record a parse yields is well formed: its times are bounded and
/// its trimmed fields are free of commas and surrounding whitespace.
pub proof fn lemma_parse_wf(line: Seq<char>)
    ensures
        spec_parse(line) matches Ok(r) ==> rec_wf(r),
{
    if spec_parse(line) is Ok {
        let body = line.subrange("Dialogue: "@.len() as int, line.len() as int);
        let parts = split_fields(body, field_count());
        crate::parser::lemma_parse_time_bounds(parts[1]);
        crate::parser::lemma_parse_time_bounds(parts[2]);
        lemma_split_parts_no_comma(body, field_count());
        assert(no_comma(parts[3]) && no_comma(parts[4]) && no_comma(parts[8]));
        crate::text::lemma_no_char_trim(parts[3], ',');
        crate::text::lemma_no_char_trim(parts[4], ',');
        crate::text::lemma_no_char_trim(parts[8], ',');
        crate::text::lemma_trim_idempotent(parts[3]);
        crate::text::lemma_trim_idempotent(parts[4]);
        crate::text::lemma_trim_idempotent(parts[8]);
        crate::text::lemma_trim_idempotent(parts[9]);
    }
}

/// Round trip: a serialized well-formed record parses back to the same
/// semantic fields, with the canonical layer.
#[verifier::rlimit(100)]
pub proof fn lemma_format_parse(r: SpecRecord)
    requires
        rec_wf(r),
    ensures
        spec_parse(spec_format(r)) == Ok::<SpecRecord, ParserError>(
            SpecRecord {
                layer: seq!['1', '0'],
                start: r.start,
                end: r.end,
                style: r.style,
                name: r.name,
                effect: r.effect,
                text: r.text,
            },
        ),
{
    reveal_strlit("Dialogue: ");
    let line = spec_format(r);
    let t1 = spec_format_time(r.start);
    let t2 = spec_format_time(r.end);
    assert(has_prefix(line, "Dialogue: "@)) by {
        assert(line.subrange(0, 10) =~= "Dialogue: "@);
    }
    let body = line.subrange(10, line.len() as int);

    let f0: Seq<char> = seq!['1', '0'];
    let r1 = t1 + seq![','] + t2 + seq![','] + r.style + seq![','] + r.name
        + seq![',', '0', ',', '0', ',', '0', ','] + r.effect + seq![','] + r.text;
    let r2 = t2 + seq![','] + r.style + seq![','] + r.name
        + seq![',', '0', ',', '0', ',', '0', ','] + r.effect + seq![','] + r.text;
    let r3 = r.style + seq![','] + r.name + seq![',', '0', ',', '0', ',', '0', ','] + r.effect
        + seq![','] + r.text;
    let r4 = r.name + seq![',', '0', ',', '0', ',', '0', ','] + r.effect + seq![','] + r.text;
    let r5 = seq!['0'] + seq![','] + seq!['0'] + seq![','] + seq!['0'] + seq![','] + r.effect
        + seq![','] + r.text;
    let r6 = seq!['0'] + seq![','] + seq!['0'] + seq![','] + r.effect + seq![','] + r.text;
    let r7 = seq!['0'] + seq![','] + r.effect + seq![','] + r.text;
    let r8 = r.effect + seq![','] + r.text;
    let zero: Seq<char> = seq!['0'];

    lemma_format_time_no_comma(r.start);
    lemma_format_time_no_comma(r.end);

    assert(body =~= f0 + seq![','] + r1);
    lemma_split_one(body, f0, r1, 10);
    assert(r1 =~= t1 + seq![','] + r2);
    lemma_split_one(r1, t1, r2, 9);
    assert(r2 =~= t2 + seq![','] + r3);
    lemma_split_one(r2, t2, r3, 8);
    assert(r3 =~= r.style + seq![','] + r4);
    lemma_split_one(r3, r.style, r4, 7);
    assert(r4 =~= r.name + seq![','] + r5);
    lemma_split_one(r4, r.name, r5, 6);
    assert(r5 =~= zero + seq![','] + r6);
    lemma_split_one(r5, zero, r6, 5);
    assert(r6 =~= zero + seq![','] + r7);
    lemma_split_one(r6, zero, r7, 4);
    assert(r7 =~= zero + seq![','] + r8);
    lemma_split_one(r7, zero, r8, 3);
    assert(r8 =~= r.effect + seq![','] + r.text);
    lemma_split_one(r8, r.effect, r.text, 2);

    let parts = split_fields(body, field_count());
    assert(parts =~= seq![f0, t1, t2, r.style, r.name, zero, zero, zero, r.effect, r.text]);
    assert(parts.len() == 10);

    lemma_time_roundtrip(r.start);
    lemma_time_roundtrip(r.end);
    assert(spec_parse_time(parts[1]) == Some(r.start));
    assert(spec_parse_time(parts[2]) == Some(r.end));
}

} // verus!
