//! The `H:MM:SS.CS` timestamp notation: conversion to and from whole
//! centiseconds, and the proof that formatting then parsing is the identity.
//!
//! Parsing mirrors the record grammar: the text is split on `:`; the first
//! two parts are hours and minutes, the third is split again on `.` into
//! seconds and centiseconds; parts beyond those are ignored. Every component
//! must be a non-empty run of decimal digits, and the total value must stay
//! under `TIME_CAP_CS`, a bound far beyond any real subtitle track that keeps
//! all later timing arithmetic inside `i64`.

use vstd::prelude::*;

use vstd::arithmetic::div_mod::{
    lemma_fundamental_div_mod, lemma_mod_mod, lemma_mod_bound,
};

use crate::text::{
    all_digits, dec_val, dec_str, pad2, find_char, is_digit,
    lemma_find_char_at, lemma_find_char_none, lemma_find_char_found,
    lemma_dec_val_nonneg, lemma_dec_str_digits, lemma_dec_str_val, lemma_pad2_val,
    parse_digits, dec_of, pad2_of, append_chars,
};

verus! {

/// Upper bound, in centiseconds, on any timestamp value this crate handles.
pub const TIME_CAP_CS: u64 = 1_000_000_000_000;

/// The value, in centiseconds, denoted by a timestamp text, if any.
pub open spec fn spec_parse_time(s: Seq<char>) -> Option<int> {
    match find_char(s, ':') {
        None => None,
        Some(i1) => {
            let h = s.subrange(0, i1);
            let r1 = s.subrange(i1 + 1, s.len() as int);
            match find_char(r1, ':') {
                None => None,
                Some(i2) => {
                    let m = r1.subrange(0, i2);
                    let r2 = r1.subrange(i2 + 1, r1.len() as int);
                    let sec = match find_char(r2, ':') {
                        None => r2,
                        Some(i3) => r2.subrange(0, i3),
                    };
                    match find_char(sec, '.') {
                        None => None,
                        Some(j) => {
                            let ss = sec.subrange(0, j);
                            let rest = sec.subrange(j + 1, sec.len() as int);
                            let cs = match find_char(rest, '.') {
                                None => rest,
                                Some(k) => rest.subrange(0, k),
                            };
                            spec_combine_time(h, m, ss, cs)
                        },
                    }
                },
            }
        },
    }
}

/// Combines the four digit components into centiseconds.
pub open spec fn spec_combine_time(
    h: Seq<char>,
    m: Seq<char>,
    ss: Seq<char>,
    cs: Seq<char>,
) -> Option<int> {
    if h.len() > 0 && all_digits(h) && m.len() > 0 && all_digits(m) && ss.len() > 0
        && all_digits(ss) && cs.len() > 0 && all_digits(cs) {
        let v = dec_val(h) * 360000 + dec_val(m) * 6000 + dec_val(ss) * 100 + dec_val(cs);
        if v <= TIME_CAP_CS {
            Some(v)
        } else {
            None
        }
    } else {
        None
    }
}

/// The timestamp text denoting `v` centiseconds: unpadded hours, then
/// two-digit minutes, seconds and centiseconds.
pub open spec fn spec_format_time(v: int) -> Seq<char> {
    dec_str(v / 360000) + seq![':'] + pad2((v % 360000) / 6000) + seq![':']
        + pad2((v % 6000) / 100) + seq!['.'] + pad2(v % 100)
}

/// Copy of the range `[a, b)` of a slice.
pub fn subvec(v: &[char], a: usize, b: usize) -> (r: Vec<char>)
    requires
        a <= b <= v@.len(),
    ensures
        r@ == v@.subrange(a as int, b as int),
{
    let mut r: Vec<char> = Vec::new();
    let mut i: usize = a;
    while i < b
        invariant
            a <= i <= b <= v@.len(),
            r@ =~= v@.subrange(a as int, i as int),
        decreases b - i,
    {
        r.push(v[i]);
        i = i + 1;
    }
    assert(r@ =~= v@.subrange(a as int, b as int));
    r
}

/// Position of the first occurrence of `c`, if any.
pub fn find_char_exec(v: &[char], c: char) -> (r: Option<usize>)
    ensures
        match r {
            Some(i) => find_char(v@, c) == Some(i as int),
            None => find_char(v@, c) is None,
        },
{
    let mut i: usize = 0;
    while i < v.len()
        invariant
            i <= v@.len(),
            forall|j: int| 0 <= j < i ==> v@[j] != c,
        decreases v@.len() - i,
    {
        if v[i] == c {
            proof {
                lemma_find_char_at(v@, c, i as int);
            }
            return Some(i);
        }
        i = i + 1;
    }
    proof {
        lemma_find_char_none(v@, c);
    }
    None
}

/// Parses a timestamp text into centiseconds.
pub fn parse_time(v: &[char]) -> (r: Option<u64>)
    ensures
        match r {
            Some(x) => spec_parse_time(v@) == Some(x as int) && x <= TIME_CAP_CS,
            None => spec_parse_time(v@) is None,
        },
{
    let n = v.len();
    let i1 = match find_char_exec(v, ':') {
        Some(i) => i,
        None => {
            return None;
        },
    };
    proof {
        lemma_find_char_found(v@, ':');
    }
    let h = subvec(v, 0, i1);
    let r1 = subvec(v, i1 + 1, n);
    let n1 = r1.len();
    let i2 = match find_char_exec(r1.as_slice(), ':') {
        Some(i) => i,
        None => {
            return None;
        },
    };
    proof {
        lemma_find_char_found(r1@, ':');
    }
    let m = subvec(r1.as_slice(), 0, i2);
    let r2 = subvec(r1.as_slice(), i2 + 1, n1);
    let sec = match find_char_exec(r2.as_slice(), ':') {
        Some(i3) => {
            proof {
                lemma_find_char_found(r2@, ':');
            }
            subvec(r2.as_slice(), 0, i3)
        },
        None => r2,
    };
    let j = match find_char_exec(sec.as_slice(), '.') {
        Some(j) => j,
        None => {
            return None;
        },
    };
    proof {
        lemma_find_char_found(sec@, '.');
    }
    let nsec = sec.len();
    let ss = subvec(sec.as_slice(), 0, j);
    let rest = subvec(sec.as_slice(), j + 1, nsec);
    let cs = match find_char_exec(rest.as_slice(), '.') {
        Some(k) => {
            proof {
                lemma_find_char_found(rest@, '.');
            }
            subvec(rest.as_slice(), 0, k)
        },
        None => rest,
    };
    combine_time(h.as_slice(), m.as_slice(), ss.as_slice(), cs.as_slice())
}

/// Combines the four digit components, checking digits and the cap.
fn combine_time(h: &[char], m: &[char], ss: &[char], cs: &[char]) -> (r: Option<u64>)
    ensures
        match r {
            Some(x) => spec_combine_time(h@, m@, ss@, cs@) == Some(x as int),
            None => spec_combine_time(h@, m@, ss@, cs@) is None,
        },
{
    let hv = match parse_digits(h, TIME_CAP_CS) {
        Some(x) => x,
        None => {
            proof {
                component_over_cap(h@, m@, ss@, cs@);
            }
            return None;
        },
    };
    let mv = match parse_digits(m, TIME_CAP_CS) {
        Some(x) => x,
        None => {
            proof {
                component_over_cap(h@, m@, ss@, cs@);
            }
            return None;
        },
    };
    let sv = match parse_digits(ss, TIME_CAP_CS) {
        Some(x) => x,
        None => {
            proof {
                component_over_cap(h@, m@, ss@, cs@);
            }
            return None;
        },
    };
    let cv = match parse_digits(cs, TIME_CAP_CS) {
        Some(x) => x,
        None => {
            proof {
                component_over_cap(h@, m@, ss@, cs@);
            }
            return None;
        },
    };
    let total = hv * 360000 + mv * 6000 + sv * 100 + cv;
    if total > TIME_CAP_CS {
        None
    } else {
        Some(total)
    }
}

/// If any component is a digit run whose value exceeds the cap, the combined
/// value exceeds the cap as well.
proof fn component_over_cap(h: Seq<char>, m: Seq<char>, ss: Seq<char>, cs: Seq<char>)
    ensures
        (h.len() > 0 && all_digits(h) && m.len() > 0 && all_digits(m) && ss.len() > 0
            && all_digits(ss) && cs.len() > 0 && all_digits(cs)) ==> {
            let v = dec_val(h) * 360000 + dec_val(m) * 6000 + dec_val(ss) * 100 + dec_val(cs);
            (dec_val(h) > TIME_CAP_CS || dec_val(m) > TIME_CAP_CS || dec_val(ss) > TIME_CAP_CS
                || dec_val(cs) > TIME_CAP_CS) ==> v > TIME_CAP_CS
        },
{
    if h.len() > 0 && all_digits(h) && m.len() > 0 && all_digits(m) && ss.len() > 0
        && all_digits(ss) && cs.len() > 0 && all_digits(cs) {
        lemma_dec_val_nonneg(h);
        lemma_dec_val_nonneg(m);
        lemma_dec_val_nonneg(ss);
        lemma_dec_val_nonneg(cs);
    }
}

/// Renders `v` centiseconds as timestamp text.
pub fn format_time(v: u64) -> (r: Vec<char>)
    ensures
        r@ == spec_format_time(v as int),
{
    let mut out: Vec<char> = Vec::new();
    let hours = dec_of(v / 360000);
    append_chars(&mut out, hours.as_slice());
    out.push(':');
    let minutes = pad2_of((v % 360000) / 6000);
    append_chars(&mut out, minutes.as_slice());
    out.push(':');
    let seconds = pad2_of((v % 6000) / 100);
    append_chars(&mut out, seconds.as_slice());
    out.push('.');
    let centis = pad2_of(v % 100);
    append_chars(&mut out, centis.as_slice());
    assert(out@ =~= spec_format_time(v as int));
    out
}

proof fn lemma_digits_not_special(s: Seq<char>)
    requires
        all_digits(s),
    ensures
        forall|j: int| 0 <= j < s.len() ==> s[j] != ':',
        forall|j: int| 0 <= j < s.len() ==> s[j] != '.',
        forall|j: int| 0 <= j < s.len() ==> s[j] != ',',
{
    assert forall|j: int| 0 <= j < s.len() implies s[j] != ':' && s[j] != '.' && s[j] != ','
    by {
        assert(is_digit(s[j]));
        assert((':' as u32) == 58 && ('.' as u32) == 46 && (',' as u32) == 44);
    }
}

/// Formatting a value and parsing the result gives the value back.
pub proof fn lemma_time_roundtrip(v: int)
    requires
        0 <= v <= TIME_CAP_CS,
    ensures
        spec_parse_time(spec_format_time(v)) == Some(v),
{
    let hq = v / 360000;
    let mq = (v % 360000) / 6000;
    let sq = (v % 6000) / 100;
    let cq = v % 100;
    let h = dec_str(hq);
    let m = pad2(mq);
    let ss = pad2(sq);
    let cs = pad2(cq);
    let s = spec_format_time(v);

    lemma_mod_bound(v, 360000);
    lemma_mod_bound(v, 6000);
    lemma_mod_bound(v, 100);
    assert(0 <= hq) by {
        vstd::arithmetic::div_mod::lemma_div_pos_is_pos(v, 360000);
    }
    assert(0 <= mq < 60 && 0 <= sq < 60 && 0 <= cq < 100);

    lemma_dec_str_digits(hq);
    lemma_dec_str_val(hq);
    lemma_pad2_val(mq);
    lemma_pad2_val(sq);
    lemma_pad2_val(cq);
    lemma_digits_not_special(h);
    lemma_digits_not_special(m);
    lemma_digits_not_special(ss);
    lemma_digits_not_special(cs);

    let hl = h.len() as int;
    let ml = m.len() as int;

    // first colon
    assert(s[hl] == ':');
    assert(forall|j: int| 0 <= j < hl ==> s[j] == h[j]);
    lemma_find_char_at(s, ':', hl);
    assert(s.subrange(0, hl) =~= h);
    let r1 = s.subrange(hl + 1, s.len() as int);
    assert(r1 =~= m + seq![':'] + ss + seq!['.'] + cs);

    // second colon
    assert(r1[ml] == ':');
    assert(forall|j: int| 0 <= j < ml ==> r1[j] == m[j]);
    lemma_find_char_at(r1, ':', ml);
    assert(r1.subrange(0, ml) =~= m);
    let r2 = r1.subrange(ml + 1, r1.len() as int);
    assert(r2 =~= ss + seq!['.'] + cs);

    // no further colon
    assert(forall|j: int| 0 <= j < r2.len() ==> r2[j] != ':');
    lemma_find_char_none(r2, ':');

    // the dot between seconds and centiseconds
    assert(r2[2] == '.');
    assert(forall|j: int| 0 <= j < 2 ==> r2[j] == ss[j]);
    lemma_find_char_at(r2, '.', 2);
    assert(r2.subrange(0, 2) =~= ss);
    let rest = r2.subrange(3, r2.len() as int);
    assert(rest =~= cs);
    lemma_find_char_none(cs, '.');

    // the combined value is v again
    lemma_fundamental_div_mod(v, 360000);
    lemma_fundamental_div_mod(v % 360000, 6000);
    lemma_fundamental_div_mod(v % 6000, 100);
    lemma_mod_mod(v, 6000, 60);
    assert(6000 * 60 == 360000);
    assert((v % 360000) % 6000 == v % 6000);
    lemma_mod_mod(v, 100, 60);
    assert(100 * 60 == 6000);
    assert((v % 6000) % 100 == v % 100);
    assert(hq * 360000 + mq * 6000 + sq * 100 + cq == v);
    assert(spec_combine_time(h, m, ss, cs) == Some(v));
}

} // verus!
