//! Language detection for the translation step: a fast lexical heuristic
//! that classifies clearly Spanish or clearly English text. Where the
//! heuristic cannot decide, it answers nothing and the caller falls back to
//! an external classifier.

use vstd::prelude::*;

use crate::text::{contains_seq, lower, lower_vec, contains_exec, chars_of};

verus! {

/// The lower-cased text contains a distinctly Spanish character.
pub open spec fn has_spanish_mark(t: Seq<char>) -> bool {
    ||| contains_seq(t, seq!['\u{e1}'])
    ||| contains_seq(t, seq!['\u{e9}'])
    ||| contains_seq(t, seq!['\u{ed}'])
    ||| contains_seq(t, seq!['\u{f3}'])
    ||| contains_seq(t, seq!['\u{fa}'])
    ||| contains_seq(t, seq!['\u{f1}'])
    ||| contains_seq(t, seq!['\u{bf}'])
    ||| contains_seq(t, seq!['\u{a1}'])
}

/// The lower-cased text contains a common English function word.
pub open spec fn has_english_word(t: Seq<char>) -> bool {
    ||| contains_seq(t, " the "@)
    ||| contains_seq(t, " and "@)
    ||| contains_seq(t, " you "@)
    ||| contains_seq(t, " is "@)
    ||| contains_seq(t, " are "@)
    ||| contains_seq(t, " i "@)
}

/// The lexical answer: Spanish marks come first, then English words;
/// otherwise undecided.
pub open spec fn spec_heuristic(text: Seq<char>) -> Option<bool> {
    let t = lower(text);
    if has_spanish_mark(t) {
        Some(false)
    } else if has_english_word(t) {
        Some(true)
    } else {
        None
    }
}

/// Decides which texts the translation step should touch.
pub struct Translator;

impl Translator {
    pub fn new() -> Self {
        Translator
    }

    /// The lexical answer for one text: `Some(true)` for English that wants
    /// translation, `Some(false)` for Spanish that stays, `None` when the
    /// text decides neither way.
    pub fn heuristic(&self, text: &str) -> (r: Option<bool>)
        ensures
            r == spec_heuristic(text@),
    {
        let cv = chars_of(text);
        let t = lower_vec(cv.as_slice());

        let m1 = chars_of("\u{e1}");
        let m2 = chars_of("\u{e9}");
        let m3 = chars_of("\u{ed}");
        let m4 = chars_of("\u{f3}");
        let m5 = chars_of("\u{fa}");
        let m6 = chars_of("\u{f1}");
        let m7 = chars_of("\u{bf}");
        let m8 = chars_of("\u{a1}");
        let spanish = contains_exec(t.as_slice(), m1.as_slice()) || contains_exec(
            t.as_slice(),
            m2.as_slice(),
        ) || contains_exec(t.as_slice(), m3.as_slice()) || contains_exec(
            t.as_slice(),
            m4.as_slice(),
        ) || contains_exec(t.as_slice(), m5.as_slice()) || contains_exec(
            t.as_slice(),
            m6.as_slice(),
        ) || contains_exec(t.as_slice(), m7.as_slice()) || contains_exec(
            t.as_slice(),
            m8.as_slice(),
        );
        proof {
            crate::translator::lemma_single_char_literals();
            assert(spanish == has_spanish_mark(lower(text@)));
        }
        if spanish {
            return Some(false);
        }
        let w1 = chars_of(" the ");
        let w2 = chars_of(" and ");
        let w3 = chars_of(" you ");
        let w4 = chars_of(" is ");
        let w5 = chars_of(" are ");
        let w6 = chars_of(" i ");
        let english = contains_exec(t.as_slice(), w1.as_slice()) || contains_exec(
            t.as_slice(),
            w2.as_slice(),
        ) || contains_exec(t.as_slice(), w3.as_slice()) || contains_exec(
            t.as_slice(),
            w4.as_slice(),
        ) || contains_exec(t.as_slice(), w5.as_slice()) || contains_exec(
            t.as_slice(),
            w6.as_slice(),
        );
        if english {
            Some(true)
        } else {
            None
        }
    }
}

/// The one-character Spanish marks spell out to their single characters.
proof fn lemma_single_char_literals()
    ensures
        "\u{e1}"@ =~= seq!['\u{e1}'],
        "\u{e9}"@ =~= seq!['\u{e9}'],
        "\u{ed}"@ =~= seq!['\u{ed}'],
        "\u{f3}"@ =~= seq!['\u{f3}'],
        "\u{fa}"@ =~= seq!['\u{fa}'],
        "\u{f1}"@ =~= seq!['\u{f1}'],
        "\u{bf}"@ =~= seq!['\u{bf}'],
        "\u{a1}"@ =~= seq!['\u{a1}'],
{
    reveal_strlit("\u{e1}");
    reveal_strlit("\u{e9}");
    reveal_strlit("\u{ed}");
    reveal_strlit("\u{f3}");
    reveal_strlit("\u{fa}");
    reveal_strlit("\u{f1}");
    reveal_strlit("\u{bf}");
    reveal_strlit("\u{a1}");
}

} // verus!
