//! Filters a track down to meaningful dialogue: only dialogue records stay,
//! noise (song-cue styles, invisible text, heavy effects, technical lines)
//! is dropped, and a record whose start, end and style repeat those of the
//! immediately preceding kept record is dropped as a duplicate.
//!
//! A dialogue-marked line that fails to parse is treated as droppable, not
//! as fatal: the pass always succeeds.

use vstd::prelude::*;

use crate::errors::{ParserError, ParseRes};
use crate::codec::spec_parse;
use crate::parser::{
    Parser, spec_is_dialogue, special_style, empty_after_strip, technical_effect, tags_len,
    excessive_tags_threshold,
};
use crate::record::SpecRecord;

verus! {

/// The duplicate-detection key of a record.
pub open spec fn key_of(r: SpecRecord) -> (int, int, Seq<char>) {
    (r.start, r.end, r.style)
}

/// The record is noise: forbidden style, invisible text, heavy override
/// spans on the raw line or in the text, or a technical effect.
pub open spec fn spec_skip(line: Seq<char>, r: SpecRecord) -> bool {
    ||| special_style(r.style)
    ||| empty_after_strip(r.text)
    ||| tags_len(line) > excessive_tags_threshold()
    ||| technical_effect(r.effect)
    ||| tags_len(r.text) > excessive_tags_threshold()
}

/// Whether the record is noise, or the parse error of the line.
pub open spec fn spec_should_skip(line: Seq<char>) -> Result<bool, ParserError> {
    match spec_parse(line) {
        Err(e) => Err(e),
        Ok(r) => Ok(spec_skip(line, r)),
    }
}

/// The cleaned image of a track, starting from a given last-kept key.
pub open spec fn spec_clean_from(
    ls: Seq<Seq<char>>,
    last: Option<(int, int, Seq<char>)>,
) -> Seq<Seq<char>>
    decreases ls.len(),
{
    if ls.len() == 0 {
        ls
    } else {
        let l = ls[0];
        let rest = ls.drop_first();
        if !spec_is_dialogue(l) {
            spec_clean_from(rest, last)
        } else {
            match spec_parse(l) {
                Err(_) => spec_clean_from(rest, last),
                Ok(r) => if spec_skip(l, r) {
                    spec_clean_from(rest, last)
                } else if last == Some(key_of(r)) {
                    spec_clean_from(rest, last)
                } else {
                    seq![l] + spec_clean_from(rest, Some(key_of(r)))
                },
            }
        }
    }
}

/// The cleaned image of a track.
pub open spec fn spec_clean(ls: Seq<Seq<char>>) -> Seq<Seq<char>> {
    spec_clean_from(ls, None)
}

/// Removes non-dialogue, noise and adjacent duplicates from a track.
pub struct Cleaner {
    parser: Parser,
}

impl Cleaner {
    pub fn new() -> Self {
        Cleaner { parser: Parser::new() }
    }

    /// Whether the record is noise, or the parse error of the line.
    pub fn should_skip_line(&self, line: &str) -> (r: ParseRes<bool>)
        ensures
            r == spec_should_skip(line@),
    {
        let is_special = match self.parser.is_special_style(line) {
            Ok(b) => b,
            Err(e) => {
                return Err(e);
            },
        };
        let is_empty = match self.parser.is_text_empty(line) {
            Ok(b) => b,
            Err(e) => {
                return Err(e);
            },
        };
        let too_many_tags = self.parser.has_excessive_tags(line);
        let is_technical_garbage = match self.parser.is_technical_garbage(line) {
            Ok(b) => b,
            Err(e) => {
                return Err(e);
            },
        };
        Ok(is_special || is_empty || too_many_tags || is_technical_garbage)
    }

    /// Cleans the track in place. A record that fails to parse is dropped
    /// rather than aborting the pass, so the result is always `Ok`.
    pub fn run(&mut self, lines: &mut Vec<String>) -> (r: ParseRes<()>)
        ensures
            final(lines).deep_view() == spec_clean(old(lines).deep_view()),
            r is Ok,
    {
        let ghost full = lines.deep_view();
        let n = lines.len();
        let mut out: Vec<String> = Vec::new();
        let mut last_key: Option<(i64, i64, String)> = None;
        let ghost mut spec_last: Option<(int, int, Seq<char>)> = None;
        let mut i: usize = 0;
        proof {
            assert(full.skip(0) =~= full);
        }
        while i < n
            invariant
                i <= n,
                n == lines@.len(),
                full == lines.deep_view(),
                full.len() == n,
                match last_key {
                    Some(k) => spec_last == Some((k.0 as int, k.1 as int, k.2@)),
                    None => spec_last is None,
                },
                spec_clean(full) =~~= out.deep_view() + spec_clean_from(
                    full.skip(i as int),
                    spec_last,
                ),
            decreases n - i,
        {
            let ghost rest = full.skip(i as int);
            let ghost lv = full[i as int];
            proof {
                assert(rest[0] == lv);
                assert(rest.drop_first() =~= full.skip(i as int + 1));
            }
            let line = &lines[i];
            let mut keep = false;
            let mut new_key: Option<(i64, i64, String)> = None;
            if self.parser.is_dialogue(line) {
                match self.should_skip_line(line) {
                    Err(_) => {
                        // malformed record: droppable, not fatal
                    },
                    Ok(true) => {},
                    Ok(false) => {
                        match self.parser.parse_ass_line(line) {
                            Err(_) => {
                                proof {
                                    assert(false);
                                }
                            },
                            Ok(rec) => {
                                let same = match &last_key {
                                    Some(k) => {
                                        k.0 == rec.start && k.1 == rec.end && k.2 == rec.style
                                    },
                                    None => false,
                                };
                                if !same {
                                    keep = true;
                                    new_key = Some((rec.start, rec.end, rec.style));
                                }
                            },
                        }
                    },
                }
            }
            if keep {
                let ghost dv0 = out.deep_view();
                out.push(lines[i].clone());
                proof {
                    assert(out.deep_view() =~~= dv0.push(lv));
                }
                match new_key {
                    Some(k) => {
                        proof {
                            spec_last = Some((k.0 as int, k.1 as int, k.2@));
                        }
                        last_key = Some(k);
                    },
                    None => {
                        proof {
                            assert(false);
                        }
                    },
                }
            }
            i = i + 1;
        }
        proof {
            assert(full.skip(n as int).len() == 0);
            assert(out.deep_view() =~~= spec_clean(full));
        }
        *lines = out;
        Ok(())
    }
}

/// Duplicate removal reaches only the immediately preceding kept record:
/// of three clean records where the first and third share a key but the
/// middle one differs, all three are kept.
pub proof fn lemma_dedup_adjacent_only(
    l1: Seq<char>,
    l2: Seq<char>,
    l3: Seq<char>,
    r1: SpecRecord,
    r2: SpecRecord,
    r3: SpecRecord,
)
    requires
        spec_is_dialogue(l1) && spec_parse(l1) == Ok::<SpecRecord, ParserError>(r1),
        spec_is_dialogue(l2) && spec_parse(l2) == Ok::<SpecRecord, ParserError>(r2),
        spec_is_dialogue(l3) && spec_parse(l3) == Ok::<SpecRecord, ParserError>(r3),
        !spec_skip(l1, r1) && !spec_skip(l2, r2) && !spec_skip(l3, r3),
        key_of(r1) == key_of(r3),
        key_of(r2) != key_of(r1),
    ensures
        spec_clean(seq![l1, l2, l3]) == seq![l1, l2, l3],
{
    let ls = seq![l1, l2, l3];
    assert(ls.drop_first() =~= seq![l2, l3]);
    assert(seq![l2, l3].drop_first() =~= seq![l3]);
    assert(seq![l3].drop_first() =~= Seq::<Seq<char>>::empty());
    assert(spec_clean_from(Seq::empty(), Some(key_of(r3))).len() == 0);
    assert(spec_clean_from(seq![l3], Some(key_of(r2))) == seq![l3] + spec_clean_from(
        Seq::empty(),
        Some(key_of(r3)),
    ));
    assert(spec_clean_from(seq![l2, l3], Some(key_of(r1))) == seq![l2] + spec_clean_from(
        seq![l3],
        Some(key_of(r2)),
    ));
    assert(spec_clean(ls) == seq![l1] + spec_clean_from(seq![l2, l3], Some(key_of(r1))));
    assert(spec_clean(ls) =~= seq![l1, l2, l3]);
}

/// Cleaning is idempotent: a second pass changes nothing.
pub proof fn lemma_clean_idempotent(ls: Seq<Seq<char>>)
    ensures
        spec_clean(spec_clean(ls)) == spec_clean(ls),
{
    lemma_clean_from_idempotent(ls, None);
}

proof fn lemma_clean_from_idempotent(ls: Seq<Seq<char>>, last: Option<(int, int, Seq<char>)>)
    ensures
        spec_clean_from(spec_clean_from(ls, last), last) == spec_clean_from(ls, last),
    decreases ls.len(),
{
    if ls.len() == 0 {
    } else {
        let l = ls[0];
        let rest = ls.drop_first();
        if !spec_is_dialogue(l) {
            lemma_clean_from_idempotent(rest, last);
        } else {
            match spec_parse(l) {
                Err(_) => {
                    lemma_clean_from_idempotent(rest, last);
                },
                Ok(r) => {
                    if spec_skip(l, r) || last == Some(key_of(r)) {
                        lemma_clean_from_idempotent(rest, last);
                    } else {
                        let k = Some(key_of(r));
                        lemma_clean_from_idempotent(rest, k);
                        let cleaned = seq![l] + spec_clean_from(rest, k);
                        assert(cleaned[0] == l);
                        assert(cleaned.drop_first() =~= spec_clean_from(rest, k));
                        assert(spec_clean_from(cleaned, last) == seq![l] + spec_clean_from(
                            spec_clean_from(rest, k),
                            k,
                        ));
                    }
                },
            }
        }
    }
}

} // verus!
