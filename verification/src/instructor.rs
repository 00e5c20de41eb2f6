//! Wraps the extracted scene texts into translation request batches: the
//! texts are cut into fixed-size chunks, each preceded by the instruction
//! block and a separator, with a blank spacer between chunks.

use vstd::prelude::*;

verus! {

/// Number of texts per request chunk.
pub const CHUNK_SIZE: usize = 40;

/// The instruction block that precedes each chunk.
pub const INSTRUCTION: &'static str = "Act as an expert anime translator. You will process a block of subtitles from ENGLISH to NEUTRAL LATIN AMERICAN SPANISH.\n    Strict rules:\n    1. MAINTAIN FORMAT: The total number of output lines must be exactly equal to the input.\n    2. DO NOT TRANSLATE OTHER LANGUAGES: If a line is in Japanese (romaji/kanji) or any other language, leave it identical.\n    3. TONE: Natural and colloquial Latin American anime style.\n    4. INTEGRITY: Do not omit any lines, even if they are empty or not in English.\n    5. OUTPUT: Return the FULL RESULT (translated lines and preserved original lines) ONLY within a Markdown code block, without additional comments.\n";

/// The request payload: instruction and separator before every chunk of up
/// to forty texts, a spacer after every chunk but the last.
pub open spec fn spec_instruct(ls: Seq<Seq<char>>) -> Seq<Seq<char>>
    decreases ls.len(),
{
    if ls.len() == 0 {
        Seq::empty()
    } else if ls.len() <= CHUNK_SIZE {
        seq![INSTRUCTION@, "---"@] + ls
    } else {
        seq![INSTRUCTION@, "---"@] + ls.take(CHUNK_SIZE as int) + seq!["\n"@] + spec_instruct(
            ls.skip(CHUNK_SIZE as int),
        )
    }
}

/// Builds translation request batches.
pub struct Instructor;

impl Instructor {
    pub fn new() -> Self {
        Instructor
    }

    /// The request payload for the given texts.
    pub fn run(&self, lines: &Vec<String>) -> (r: Vec<String>)
        ensures
            r.deep_view() == spec_instruct(lines.deep_view()),
    {
        let ghost dv = lines.deep_view();
        let n = lines.len();
        let mut result: Vec<String> = Vec::new();
        let mut pos: usize = 0;
        proof {
            assert(dv.skip(0) =~= dv);
        }
        while pos < n
            invariant
                pos <= n,
                n == lines@.len(),
                dv == lines.deep_view(),
                dv.len() == n,
                spec_instruct(dv) =~~= result.deep_view() + spec_instruct(dv.skip(pos as int)),
            decreases n - pos,
        {
            let ghost rest = dv.skip(pos as int);
            let ghost dv0 = result.deep_view();
            result.push(String::from_str(INSTRUCTION));
            result.push(String::from_str("---"));
            let chunk_end = if n - pos > CHUNK_SIZE {
                pos + CHUNK_SIZE
            } else {
                n
            };
            let mut j: usize = pos;
            while j < chunk_end
                invariant
                    pos <= j <= chunk_end <= n,
                    n == lines@.len(),
                    dv == lines.deep_view(),
                    dv.len() == n,
                    result.deep_view() =~~= dv0 + seq![INSTRUCTION@, "---"@] + dv.subrange(
                        pos as int,
                        j as int,
                    ),
                decreases chunk_end - j,
            {
                let ghost dvj = result.deep_view();
                result.push(lines[j].clone());
                proof {
                    assert(result.deep_view() =~~= dvj.push(dv[j as int]));
                }
                j = j + 1;
            }
            if chunk_end < n {
                let ghost before = result.deep_view();
                result.push(String::from_str("\n"));
                proof {
                    assert(result.deep_view() =~~= before.push("\n"@));
                    assert(rest.take(CHUNK_SIZE as int) =~= dv.subrange(
                        pos as int,
                        chunk_end as int,
                    ));
                    assert(rest.skip(CHUNK_SIZE as int) =~= dv.skip(chunk_end as int));
                    assert(rest.len() > CHUNK_SIZE);
                    assert(spec_instruct(rest) == seq![INSTRUCTION@, "---"@] + rest.take(
                        CHUNK_SIZE as int,
                    ) + seq!["\n"@] + spec_instruct(rest.skip(CHUNK_SIZE as int))) by {
                        reveal_with_fuel(spec_instruct, 2);
                    }
                    assert(result.deep_view() =~~= dv0 + (seq![INSTRUCTION@, "---"@] + dv.subrange(
                        pos as int,
                        chunk_end as int,
                    )).push("\n"@));
                }
            } else {
                proof {
                    assert(rest =~= dv.subrange(pos as int, chunk_end as int));
                    assert(spec_instruct(rest) =~= seq![INSTRUCTION@, "---"@] + rest);
                    assert(dv.skip(chunk_end as int).len() == 0);
                }
            }
            pos = chunk_end;
            proof {
                assert(spec_instruct(dv) =~~= result.deep_view() + spec_instruct(
                    dv.skip(pos as int),
                ));
            }
        }
        proof {
            assert(spec_instruct(dv.skip(n as int)).len() == 0);
            assert(result.deep_view() =~~= spec_instruct(dv));
        }
        result
    }
}

} // verus!
