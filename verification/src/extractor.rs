//! Pulls the text of every bonus-scene record out of a track, in order.
//! The collected list is the payload handed to the translation step.

use vstd::prelude::*;

use crate::errors::{ParserError, ParseRes};
use crate::codec::spec_parse;
use crate::parser::{Parser, spec_is_scene};

verus! {

/// The text of every bonus-scene record of the track, in order, or the
/// parse error of the first malformed dialogue record met.
pub open spec fn spec_extract(ls: Seq<Seq<char>>) -> Result<Seq<Seq<char>>, ParserError>
    decreases ls.len(),
{
    if ls.len() == 0 {
        Ok(Seq::empty())
    } else {
        match spec_is_scene(ls[0]) {
            Err(e) => Err(e),
            Ok(true) => match spec_extract(ls.drop_first()) {
                Err(e) => Err(e),
                Ok(t) => Ok(seq![spec_parse(ls[0])->Ok_0.text] + t),
            },
            Ok(false) => spec_extract(ls.drop_first()),
        }
    }
}

/// Collects bonus-scene text into a fresh list.
pub struct SceneExtractor {
    parser: Parser,
}

impl SceneExtractor {
    pub fn new() -> Self {
        SceneExtractor { parser: Parser::new() }
    }

    /// The scene texts of the track, in order.
    pub fn run(&mut self, lines: &[String]) -> (r: ParseRes<Vec<String>>)
        ensures
            r matches Ok(out) ==> spec_extract(lines.deep_view()) == Ok::<_, ParserError>(
                out.deep_view(),
            ),
            r matches Err(e) ==> spec_extract(lines.deep_view()) == Err::<Seq<Seq<char>>, _>(e),
    {
        let ghost dv = lines.deep_view();
        let n = lines.len();
        let mut out: Vec<String> = Vec::new();
        let mut i: usize = 0;
        proof {
            assert(dv.skip(0) =~= dv);
        }
        while i < n
            invariant
                i <= n,
                n == lines@.len(),
                dv == lines.deep_view(),
                dv.len() == n,
                forall|e: ParserError|
                    spec_extract(dv) == Err::<Seq<Seq<char>>, _>(e) <==> spec_extract(
                        dv.skip(i as int),
                    ) == Err::<Seq<Seq<char>>, _>(e),
                spec_extract(dv.skip(i as int)) matches Ok(tl) ==> spec_extract(dv) == Ok::<
                    _,
                    ParserError,
                >(out.deep_view() + tl),
            decreases n - i,
        {
            let ghost rest = dv.skip(i as int);
            proof {
                assert(rest[0] == dv[i as int]);
                assert(rest.drop_first() =~= dv.skip(i as int + 1));
            }
            match self.parser.is_scene_line(lines[i].as_str()) {
                Err(e) => {
                    return Err(e);
                },
                Ok(true) => {
                    let text = match self.parser.get_text(lines[i].as_str()) {
                        Ok(t) => t,
                        Err(_) => {
                            proof {
                                assert(false);
                            }
                            return Err(ParserError::DialoguePrefix);
                        },
                    };
                    let ghost dv0 = out.deep_view();
                    out.push(text);
                    proof {
                        assert(out.deep_view() =~~= dv0.push(spec_parse(dv[i as int])->Ok_0.text));
                        let tail = spec_extract(dv.skip(i as int + 1));
                        if tail is Ok {
                            let tl = tail->Ok_0;
                            assert(spec_extract(rest) == Ok::<_, ParserError>(
                                seq![spec_parse(dv[i as int])->Ok_0.text] + tl,
                            ));
                            assert(dv0 + (seq![spec_parse(dv[i as int])->Ok_0.text] + tl)
                                =~= out.deep_view() + tl);
                        }
                    }
                },
                Ok(false) => {},
            }
            i = i + 1;
        }
        proof {
            assert(dv.skip(n as int).len() == 0);
            assert(spec_extract(dv.skip(n as int)) == Ok::<_, ParserError>(
                Seq::<Seq<char>>::empty(),
            ));
            assert(out.deep_view() + Seq::<Seq<char>>::empty() =~= out.deep_view());
        }
        Ok(out)
    }
}

/// Collects bonus-scene text into a caller-supplied list.
pub struct AdditionalSceneExtractor {
    inner: SceneExtractor,
}

impl AdditionalSceneExtractor {
    pub fn new() -> Self {
        AdditionalSceneExtractor { inner: SceneExtractor::new() }
    }

    /// Appends the scene texts of the track to `output`. On failure the
    /// output list is left as it was.
    pub fn run(&mut self, lines: &[String], output: &mut Vec<String>) -> (r: ParseRes<()>)
        ensures
            r is Ok ==> spec_extract(lines.deep_view()) is Ok && final(output).deep_view() == old(
                output,
            ).deep_view() + spec_extract(lines.deep_view())->Ok_0,
            r matches Err(e) ==> spec_extract(lines.deep_view()) == Err::<Seq<Seq<char>>, _>(e)
                && *final(output) == *old(output),
    {
        let collected = match self.inner.run(lines) {
            Ok(c) => c,
            Err(e) => {
                return Err(e);
            },
        };
        let ghost cdv = collected.deep_view();
        let mut rest = collected;
        output.append(&mut rest);
        proof {
            assert(output.deep_view() =~~= old(output).deep_view() + cdv);
        }
        Ok(())
    }
}

} // verus!
