//! Character-sequence utilities shared by the whole crate: conversions between
//! `String` and `Vec<char>`, trimming, case folding, substring search, and
//! decimal digit parsing and formatting.
//!
//! Whitespace and case folding are defined over the characters the subtitle
//! format actually uses: ASCII whitespace, ASCII letters and the accented
//! Spanish letters the language heuristic looks for.

use vstd::prelude::*;

verus! {

/// Whitespace characters recognised by `trim`.
pub open spec fn is_space(c: char) -> bool {
    c == ' ' || c == '\t' || c == '\n' || c == '\r' || c == '\u{b}' || c == '\u{c}'
}

/// Lower-case image of one character: ASCII letters plus the accented
/// letters that the language heuristic searches for.
pub open spec fn lower_char(c: char) -> char {
    if 'A' <= c && c <= 'Z' {
        (((c as u32) + 32) as u8) as char
    } else if c == '\u{c1}' {
        '\u{e1}'
    } else if c == '\u{c9}' {
        '\u{e9}'
    } else if c == '\u{cd}' {
        '\u{ed}'
    } else if c == '\u{d3}' {
        '\u{f3}'
    } else if c == '\u{da}' {
        '\u{fa}'
    } else if c == '\u{d1}' {
        '\u{f1}'
    } else {
        c
    }
}

/// Lower-case image of a whole sequence.
pub open spec fn lower(s: Seq<char>) -> Seq<char> {
    Seq::new(s.len(), |i: int| lower_char(s[i]))
}

/// Sequence with leading whitespace removed.
pub open spec fn trim_front(s: Seq<char>) -> Seq<char>
    decreases s.len(),
{
    if s.len() > 0 && is_space(s[0]) {
        trim_front(s.drop_first())
    } else {
        s
    }
}

/// Sequence with trailing whitespace removed.
pub open spec fn trim_back(s: Seq<char>) -> Seq<char>
    decreases s.len(),
{
    if s.len() > 0 && is_space(s[s.len() - 1]) {
        trim_back(s.drop_last())
    } else {
        s
    }
}

/// Sequence with both leading and trailing whitespace removed.
pub open spec fn trim(s: Seq<char>) -> Seq<char> {
    trim_back(trim_front(s))
}

/// The pattern `p` occurs in `s` starting at position `i`.
pub open spec fn match_at(s: Seq<char>, p: Seq<char>, i: int) -> bool {
    0 <= i && i + p.len() <= s.len() && s.subrange(i, i + p.len()) =~= p
}

/// The pattern `p` occurs somewhere in `s`.
pub open spec fn contains_seq(s: Seq<char>, p: Seq<char>) -> bool {
    exists|i: int| match_at(s, p, i)
}

/// `s` begins with the pattern `p`.
pub open spec fn has_prefix(s: Seq<char>, p: Seq<char>) -> bool {
    p.len() <= s.len() && s.subrange(0, p.len() as int) =~= p
}

/// Position of the first occurrence of `c` in `s`.
pub open spec fn find_char(s: Seq<char>, c: char) -> Option<int>
    decreases s.len(),
{
    if s.len() == 0 {
        None
    } else if s[0] == c {
        Some(0)
    } else {
        match find_char(s.drop_first(), c) {
            Some(j) => Some(j + 1),
            None => None,
        }
    }
}

pub proof fn lemma_find_char_at(s: Seq<char>, c: char, i: int)
    requires
        0 <= i < s.len(),
        s[i] == c,
        forall|j: int| 0 <= j < i ==> s[j] != c,
    ensures
        find_char(s, c) == Some(i),
    decreases s.len(),
{
    if i == 0 {
    } else {
        assert(s.drop_first()[i - 1] == c);
        assert(forall|j: int| 0 <= j < i - 1 ==> s.drop_first()[j] != c);
        lemma_find_char_at(s.drop_first(), c, i - 1);
    }
}

pub proof fn lemma_find_char_none(s: Seq<char>, c: char)
    requires
        forall|j: int| 0 <= j < s.len() ==> s[j] != c,
    ensures
        find_char(s, c) is None,
    decreases s.len(),
{
    if s.len() > 0 {
        assert(forall|j: int| 0 <= j < s.drop_first().len() ==> s.drop_first()[j] != c);
        lemma_find_char_none(s.drop_first(), c);
    }
}

pub proof fn lemma_find_char_found(s: Seq<char>, c: char)
    requires
        find_char(s, c) is Some,
    ensures
        0 <= find_char(s, c)->Some_0 < s.len(),
        s[find_char(s, c)->Some_0] == c,
        forall|j: int| 0 <= j < find_char(s, c)->Some_0 ==> s[j] != c,
    decreases s.len(),
{
    if s.len() > 0 && s[0] != c {
        lemma_find_char_found(s.drop_first(), c);
        let k = find_char(s.drop_first(), c)->Some_0;
        assert(forall|j: int| 1 <= j < k + 1 ==> s[j] == s.drop_first()[j - 1]);
    }
}

/// Relies on `String::push`: appends one character at the end.
#[verifier::external_body]
pub fn push_char(s: &mut String, c: char)
    ensures
        final(s)@ == old(s)@.push(c),
{
    s.push(c);
}

/// Collects the characters of a string slice into a vector.
pub fn chars_of(s: &str) -> (r: Vec<char>)
    ensures
        r@ == s@,
{
    let n = s.unicode_len();
    let mut r: Vec<char> = Vec::new();
    let mut i: usize = 0;
    while i < n
        invariant
            n == s@.len(),
            i <= n,
            r@ =~= s@.subrange(0, i as int),
        decreases n - i,
    {
        r.push(s.get_char(i));
        i = i + 1;
    }
    assert(r@ =~= s@);
    r
}

/// Builds a string from a sequence of characters.
pub fn string_of(v: &[char]) -> (r: String)
    ensures
        r@ == v@,
{
    let mut r = String::new();
    let mut i: usize = 0;
    while i < v.len()
        invariant
            i <= v@.len(),
            r@ =~= v@.subrange(0, i as int),
        decreases v@.len() - i,
    {
        push_char(&mut r, v[i]);
        i = i + 1;
    }
    assert(r@ =~= v@);
    r
}

/// Character-wise equality of two slices.
pub fn chars_eq(a: &[char], b: &[char]) -> (r: bool)
    ensures
        r == (a@ =~= b@),
{
    if a.len() != b.len() {
        return false;
    }
    let mut i: usize = 0;
    while i < a.len()
        invariant
            a@.len() == b@.len(),
            i <= a@.len(),
            forall|j: int| 0 <= j < i ==> a@[j] == b@[j],
        decreases a@.len() - i,
    {
        if a[i] != b[i] {
            return false;
        }
        i = i + 1;
    }
    true
}

/// Lower-cases every character of a slice.
pub fn lower_vec(v: &[char]) -> (r: Vec<char>)
    ensures
        r@ == lower(v@),
{
    let mut r: Vec<char> = Vec::new();
    let mut i: usize = 0;
    while i < v.len()
        invariant
            i <= v@.len(),
            r@.len() == i,
            forall|j: int| 0 <= j < i ==> r@[j] == lower_char(v@[j]),
        decreases v@.len() - i,
    {
        let c = v[i];
        let lc: char = if 'A' <= c && c <= 'Z' {
            (((c as u32) + 32) as u8) as char
        } else if c == '\u{c1}' {
            '\u{e1}'
        } else if c == '\u{c9}' {
            '\u{e9}'
        } else if c == '\u{cd}' {
            '\u{ed}'
        } else if c == '\u{d3}' {
            '\u{f3}'
        } else if c == '\u{da}' {
            '\u{fa}'
        } else if c == '\u{d1}' {
            '\u{f1}'
        } else {
            c
        };
        assert(lc == lower_char(v@[i as int]));
        r.push(lc);
        i = i + 1;
    }
    assert(r@ =~= lower(v@));
    r
}

fn is_space_exec(c: char) -> (r: bool)
    ensures
        r == is_space(c),
{
    c == ' ' || c == '\t' || c == '\n' || c == '\r' || c == '\u{b}' || c == '\u{c}'
}

proof fn lemma_trim_front_step(s: Seq<char>, lo: int)
    requires
        0 <= lo < s.len(),
        forall|j: int| 0 <= j < lo ==> is_space(s[j]),
        trim_front(s) == trim_front(s.subrange(lo, s.len() as int)),
        is_space(s[lo]),
    ensures
        trim_front(s) == trim_front(s.subrange(lo + 1, s.len() as int)),
{
    let t = s.subrange(lo, s.len() as int);
    assert(t.len() > 0 && is_space(t[0]));
    assert(t.drop_first() =~= s.subrange(lo + 1, s.len() as int));
}

proof fn lemma_trim_back_step(s: Seq<char>, hi: int)
    requires
        0 < hi <= s.len(),
        trim_back(s) == trim_back(s.subrange(0, hi)),
        is_space(s[hi - 1]),
    ensures
        trim_back(s) == trim_back(s.subrange(0, hi - 1)),
{
    let t = s.subrange(0, hi);
    assert(t.len() > 0 && is_space(t[t.len() - 1]));
    assert(t.drop_last() =~= s.subrange(0, hi - 1));
}

/// Removes leading and trailing whitespace.
pub fn trim_vec(v: &[char]) -> (r: Vec<char>)
    ensures
        r@ == trim(v@),
{
    let ghost s = v@;
    proof {
        assert(s.subrange(0, s.len() as int) =~= s);
    }
    let mut lo: usize = 0;
    while lo < v.len() && is_space_exec(v[lo])
        invariant
            lo <= s.len(),
            v@ == s,
            forall|j: int| 0 <= j < lo ==> is_space(s[j]),
            trim_front(s) == trim_front(s.subrange(lo as int, s.len() as int)),
        decreases s.len() - lo,
    {
        proof {
            lemma_trim_front_step(s, lo as int);
        }
        lo = lo + 1;
    }
    // front part is now trimmed
    let ghost f = s.subrange(lo as int, s.len() as int);
    proof {
        if lo < s.len() {
            assert(!is_space(f[0]));
        }
        assert(trim_front(f) == f);
        assert(trim(s) == trim_back(f));
    }
    let mut hi: usize = v.len();
    while hi > lo && is_space_exec(v[hi - 1])
        invariant
            lo <= hi <= s.len(),
            v@ == s,
            trim_back(f) == trim_back(s.subrange(lo as int, hi as int)),
        decreases hi,
    {
        proof {
            let g = s.subrange(lo as int, hi as int);
            assert(g.len() > 0 && is_space(g[g.len() - 1]));
            assert(g.drop_last() =~= s.subrange(lo as int, hi as int - 1));
        }
        hi = hi - 1;
    }
    proof {
        let g = s.subrange(lo as int, hi as int);
        if hi > lo {
            assert(!is_space(g[g.len() - 1]));
        }
        assert(trim_back(g) == g);
        assert(trim(s) == s.subrange(lo as int, hi as int));
    }
    let mut r: Vec<char> = Vec::new();
    let mut i: usize = lo;
    while i < hi
        invariant
            lo <= i <= hi <= s.len(),
            v@ == s,
            r@ =~= s.subrange(lo as int, i as int),
        decreases hi - i,
    {
        r.push(v[i]);
        i = i + 1;
    }
    assert(r@ =~= s.subrange(lo as int, hi as int));
    r
}

/// Whether `p` occurs in `s` as a contiguous subsequence.
pub fn contains_at_exec(s: &[char], p: &[char], i: usize) -> (r: bool)
    requires
        i + p@.len() <= s@.len(),
    ensures
        r == match_at(s@, p@, i as int),
{
    let n = s.len();
    let m = p.len();
    let mut j: usize = 0;
    while j < m
        invariant
            n == s@.len(),
            m == p@.len(),
            i + m <= n,
            j <= m,
            forall|k: int| 0 <= k < j ==> s@[i + k] == p@[k],
        decreases m - j,
    {
        if s[i + j] != p[j] {
            assert(s@.subrange(i as int, i + p@.len()) != p@) by {
                assert(s@.subrange(i as int, i + p@.len())[j as int] != p@[j as int]);
            }
            return false;
        }
        j = j + 1;
    }
    assert(s@.subrange(i as int, i + p@.len()) =~= p@);
    true
}

/// Whether `p` occurs anywhere in `s`.
pub fn contains_exec(s: &[char], p: &[char]) -> (r: bool)
    ensures
        r == contains_seq(s@, p@),
{
    if p.len() > s.len() {
        assert(forall|i: int| !match_at(s@, p@, i));
        return false;
    }
    if p.len() == 0 {
        assert(s@.subrange(0, 0) =~= p@);
        assert(match_at(s@, p@, 0));
        return true;
    }
    let mut i: usize = 0;
    let last = s.len() - p.len();
    while i <= last
        invariant
            1 <= p@.len() <= s@.len(),
            s@.len() == s.len(),
            last == s@.len() - p@.len(),
            i <= last + 1,
            forall|k: int| 0 <= k < i ==> !match_at(s@, p@, k),
        decreases last - i + 1,
    {
        if contains_at_exec(s, p, i) {
            assert(match_at(s@, p@, i as int));
            return true;
        }
        i = i + 1;
    }
    assert(forall|k: int| !match_at(s@, p@, k));
    false
}

/// Whether `s` begins with `p`.
pub fn has_prefix_exec(s: &[char], p: &[char]) -> (r: bool)
    ensures
        r == has_prefix(s@, p@),
{
    if p.len() > s.len() {
        return false;
    }
    contains_at_exec(s, p, 0)
}

/// Decimal digit test.
pub open spec fn is_digit(c: char) -> bool {
    48 <= c as u32 && c as u32 <= 57
}

/// All characters of `s` are decimal digits.
pub open spec fn all_digits(s: Seq<char>) -> bool {
    forall|i: int| 0 <= i < s.len() ==> is_digit(#[trigger] s[i])
}

/// Numeric value of a digit character.
pub open spec fn digit_val(c: char) -> int {
    c as u32 - 48
}

/// Value of a sequence of decimal digits.
pub open spec fn dec_val(s: Seq<char>) -> int
    decreases s.len(),
{
    if s.len() == 0 {
        0
    } else {
        dec_val(s.drop_last()) * 10 + digit_val(s.last())
    }
}

/// Digit character for a value below ten.
pub open spec fn digit_char(d: int) -> char {
    ((d + 48) as u8) as char
}

/// Decimal notation of a non-negative integer, without leading zeros.
pub open spec fn dec_str(n: int) -> Seq<char>
    decreases n,
{
    if n <= 0 {
        seq!['0']
    } else if n < 10 {
        seq![digit_char(n)]
    } else {
        dec_str(n / 10).push(digit_char(n % 10))
    }
}

/// Two-digit zero-padded decimal notation, for values below one hundred.
pub open spec fn pad2(n: int) -> Seq<char> {
    seq![digit_char(n / 10), digit_char(n % 10)]
}

pub proof fn lemma_trim_front_head(s: Seq<char>)
    ensures
        trim_front(s).len() > 0 ==> !is_space(trim_front(s)[0]),
    decreases s.len(),
{
    if s.len() > 0 && is_space(s[0]) {
        lemma_trim_front_head(s.drop_first());
    }
}

/// Back-trimming keeps a prefix of the original, position for position.
pub proof fn lemma_trim_back_prefix(s: Seq<char>)
    ensures
        trim_back(s).len() <= s.len(),
        forall|i: int| 0 <= i < trim_back(s).len() ==> trim_back(s)[i] == s[i],
    decreases s.len(),
{
    if s.len() > 0 && is_space(s[s.len() - 1]) {
        lemma_trim_back_prefix(s.drop_last());
        assert forall|i: int| 0 <= i < trim_back(s).len() implies trim_back(s)[i] == s[i] by {
            assert(trim_back(s)[i] == s.drop_last()[i]);
        }
    }
}

pub proof fn lemma_trim_back_tail(s: Seq<char>)
    ensures
        trim_back(s).len() > 0 ==> !is_space(trim_back(s)[trim_back(s).len() - 1]),
    decreases s.len(),
{
    if s.len() > 0 && is_space(s[s.len() - 1]) {
        lemma_trim_back_tail(s.drop_last());
    }
}

/// Trimming an already-trimmed sequence changes nothing.
pub proof fn lemma_trim_idempotent(s: Seq<char>)
    ensures
        trim(trim(s)) == trim(s),
{
    let tf = trim_front(s);
    let t = trim_back(tf);
    lemma_trim_front_head(s);
    lemma_trim_back_prefix(tf);
    lemma_trim_back_tail(tf);
    if t.len() > 0 {
        assert(t[0] == tf[0]);
        assert(!is_space(t[0]));
    }
    assert(trim_front(t) == t);
    assert(trim_back(t) == t);
}

/// A character test that holds everywhere survives front-trimming.
pub proof fn lemma_no_char_trim_front(s: Seq<char>, c: char)
    requires
        forall|i: int| 0 <= i < s.len() ==> s[i] != c,
    ensures
        forall|i: int| 0 <= i < trim_front(s).len() ==> trim_front(s)[i] != c,
    decreases s.len(),
{
    if s.len() > 0 && is_space(s[0]) {
        assert(forall|i: int| 0 <= i < s.drop_first().len() ==> s.drop_first()[i] != c);
        lemma_no_char_trim_front(s.drop_first(), c);
        assert forall|i: int| 0 <= i < trim_front(s).len() implies trim_front(s)[i] != c by {
            assert(trim_front(s)[i] == trim_front(s.drop_first())[i]);
        }
    }
}

/// A character test that holds everywhere survives trimming.
pub proof fn lemma_no_char_trim(s: Seq<char>, c: char)
    requires
        forall|i: int| 0 <= i < s.len() ==> s[i] != c,
    ensures
        forall|i: int| 0 <= i < trim(s).len() ==> trim(s)[i] != c,
{
    lemma_no_char_trim_front(s, c);
    lemma_trim_back_prefix(trim_front(s));
    assert forall|i: int| 0 <= i < trim(s).len() implies trim(s)[i] != c by {
        assert(trim(s)[i] == trim_front(s)[i]);
    }
}

pub proof fn lemma_digit_char_val(d: int)
    requires
        0 <= d <= 9,
    ensures
        is_digit(digit_char(d)),
        digit_val(digit_char(d)) == d,
{
    let b: u8 = (d + 48) as u8;
    assert(digit_char(d) as u32 == b as u32);
}

pub proof fn lemma_dec_val_nonneg(s: Seq<char>)
    requires
        all_digits(s),
    ensures
        dec_val(s) >= 0,
    decreases s.len(),
{
    if s.len() > 0 {
        assert(all_digits(s.drop_last()));
        lemma_dec_val_nonneg(s.drop_last());
        assert(is_digit(s.last()));
    }
}

/// A longer digit string never has a smaller value.
pub proof fn lemma_dec_val_prefix(s: Seq<char>, k: int)
    requires
        all_digits(s),
        0 <= k <= s.len(),
    ensures
        dec_val(s) >= dec_val(s.subrange(0, k)),
    decreases s.len() - k,
{
    if k < s.len() {
        lemma_dec_val_prefix(s, k + 1);
        let p = s.subrange(0, k + 1);
        assert(p.drop_last() =~= s.subrange(0, k));
        assert(all_digits(s.subrange(0, k)));
        lemma_dec_val_nonneg(s.subrange(0, k));
        assert(is_digit(p.last()));
    } else {
        assert(s.subrange(0, k) =~= s);
    }
}

pub proof fn lemma_dec_str_digits(n: int)
    ensures
        all_digits(dec_str(n)),
        dec_str(n).len() >= 1,
    decreases n,
{
    if n >= 10 {
        lemma_dec_str_digits(n / 10);
        assert(is_digit(digit_char(n % 10)));
        assert(forall|i: int|
            0 <= i < dec_str(n).len() ==> is_digit(#[trigger] dec_str(n)[i]));
    }
}

pub proof fn lemma_dec_str_val(n: int)
    requires
        n >= 0,
    ensures
        dec_val(dec_str(n)) == n,
    decreases n,
{
    if n < 10 {
        lemma_digit_char_val(n);
        assert(dec_str(n).drop_last() =~= Seq::<char>::empty());
        assert(dec_val(Seq::<char>::empty()) == 0);
        assert(dec_val(dec_str(n)) == 0 * 10 + digit_val(dec_str(n).last()));
    } else {
        lemma_dec_str_val(n / 10);
        lemma_digit_char_val(n % 10);
        assert(dec_str(n).drop_last() =~= dec_str(n / 10));
        assert(dec_val(dec_str(n)) == dec_val(dec_str(n / 10)) * 10 + digit_val(digit_char(n % 10)));
    }
}

pub proof fn lemma_pad2_val(n: int)
    requires
        0 <= n < 100,
    ensures
        all_digits(pad2(n)),
        pad2(n).len() == 2,
        dec_val(pad2(n)) == n,
{
    lemma_digit_char_val(n / 10);
    lemma_digit_char_val(n % 10);
    let s1 = seq![digit_char(n / 10)];
    assert(s1.drop_last() =~= Seq::<char>::empty());
    assert(dec_val(Seq::<char>::empty()) == 0);
    assert(dec_val(s1) == 0 * 10 + digit_val(s1.last()));
    assert(pad2(n).drop_last() =~= s1);
    assert(pad2(n).last() == digit_char(n % 10));
    assert(dec_val(pad2(n)) == dec_val(s1) * 10 + digit_val(pad2(n).last()));
}

/// Value of a non-empty, all-digit slice, unless it exceeds `cap`.
pub fn parse_digits(v: &[char], cap: u64) -> (r: Option<u64>)
    requires
        cap <= 0x1000_0000_0000_0000,
    ensures
        r is Some <==> v@.len() > 0 && all_digits(v@) && dec_val(v@) <= cap,
        r is Some ==> r->0 == dec_val(v@),
{
    if v.len() == 0 {
        return None;
    }
    let mut acc: u64 = 0;
    let mut i: usize = 0;
    while i < v.len()
        invariant
            0 < v@.len(),
            i <= v@.len(),
            cap <= 0x1000_0000_0000_0000,
            acc <= cap,
            all_digits(v@.subrange(0, i as int)),
            acc == dec_val(v@.subrange(0, i as int)),
        decreases v@.len() - i,
    {
        let c = v[i];
        let u = c as u32;
        let ghost pre = v@.subrange(0, i as int);
        let ghost cur = v@.subrange(0, i as int + 1);
        proof {
            assert(cur.drop_last() =~= pre);
            assert(cur.last() == v@[i as int]);
        }
        if u < 48 || u > 57 {
            proof {
                assert(!is_digit(v@[i as int]));
            }
            return None;
        }
        let d = (u - 48) as u64;
        let next = acc * 10 + d;
        proof {
            assert(dec_val(cur) == dec_val(pre) * 10 + digit_val(cur.last()));
        }
        if next > cap {
            proof {
                assert(dec_val(cur) > cap);
                if all_digits(v@) {
                    lemma_dec_val_prefix(v@, i as int + 1);
                }
            }
            return None;
        }
        acc = next;
        i = i + 1;
    }
    proof {
        assert(v@.subrange(0, v@.len() as int) =~= v@);
    }
    Some(acc)
}

/// Decimal digits of `n`, without leading zeros.
pub fn dec_of(n: u64) -> (r: Vec<char>)
    ensures
        r@ == dec_str(n as int),
    decreases n,
{
    if n < 10 {
        let c = ((n as u8) + 48) as char;
        let mut r: Vec<char> = Vec::new();
        r.push(c);
        assert(r@ =~= dec_str(n as int));
        r
    } else {
        let mut r = dec_of(n / 10);
        let c = (((n % 10) as u8) + 48) as char;
        r.push(c);
        assert(r@ =~= dec_str(n as int));
        r
    }
}

/// Two zero-padded decimal digits of `n`.
pub fn pad2_of(n: u64) -> (r: Vec<char>)
    requires
        n < 100,
    ensures
        r@ == pad2(n as int),
{
    let mut r: Vec<char> = Vec::new();
    r.push((((n / 10) as u8) + 48) as char);
    r.push((((n % 10) as u8) + 48) as char);
    assert(r@ =~= pad2(n as int));
    r
}

/// Appends every character of `src` to `dst`.
pub fn append_chars(dst: &mut Vec<char>, src: &[char])
    ensures
        final(dst)@ == old(dst)@ + src@,
{
    let mut i: usize = 0;
    while i < src.len()
        invariant
            i <= src@.len(),
            dst@ =~= old(dst)@ + src@.subrange(0, i as int),
        decreases src@.len() - i,
    {
        dst.push(src[i]);
        i = i + 1;
    }
    assert(dst@ =~= old(dst)@ + src@);
}

} // verus!
