//! The merge engine's public face: consumes two pre-processed tracks and
//! emits one aligned track. The first track supplies the timing reference
//! and the scene blocks; the second supplies the text whose records are
//! re-timed onto the first track's timeline. The output carries the second
//! track's header.

use vstd::prelude::*;

use crate::errors::{ParserError, ParseRes};
use crate::collector::LineCollector;
use crate::line_processor::{LineProcessor, spec_process};
use crate::parser::Parser;
use crate::segmenter::{AssSegmenter, spec_header, spec_dialogues};

verus! {

/// The merged track: the second track's header, then its dialogue records
/// re-timed against the first track, with the first track's scene blocks
/// spliced in verbatim.
pub open spec fn spec_sync(a: Seq<Seq<char>>, b: Seq<Seq<char>>) -> Result<
    Seq<Seq<char>>,
    ParserError,
> {
    match spec_process(spec_dialogues(b), spec_dialogues(a)) {
        Err(e) => Err(e),
        Ok(body) => Ok(spec_header(b) + body),
    }
}

/// Merges two pre-processed tracks into one aligned track.
pub struct Synchronizer {
    segmenter: AssSegmenter,
    parser: Parser,
}

impl Synchronizer {
    pub fn new() -> Self {
        Synchronizer { segmenter: AssSegmenter::new(), parser: Parser::new() }
    }

    /// Merges the two tracks. Both must hold at least one dialogue record.
    pub fn run(&mut self, source_a: &[String], source_b: &[String]) -> (r: ParseRes<Vec<String>>)
        requires
            spec_dialogues(source_a.deep_view()).len() > 0,
            spec_dialogues(source_b.deep_view()).len() > 0,
        ensures
            r matches Ok(out) ==> spec_sync(source_a.deep_view(), source_b.deep_view()) == Ok::<
                _,
                ParserError,
            >(out.deep_view()),
            r matches Err(e) ==> spec_sync(source_a.deep_view(), source_b.deep_view()) == Err::<
                Seq<Seq<char>>,
                _,
            >(e),
    {
        let dialogues_a = self.segmenter.extract_dialogues(source_a, &self.parser);
        let dialogues_b = self.segmenter.extract_dialogues(source_b, &self.parser);
        let mut processor = LineProcessor::new();
        let processed = match processor.run(dialogues_b.as_slice(), dialogues_a.as_slice()) {
            Ok(lines) => lines,
            Err(e) => {
                return Err(e);
            },
        };
        let header_b = self.segmenter.extract_header(source_b, &self.parser);
        let mut out: Vec<String> = Vec::new();
        let collector = LineCollector::new();
        collector.collect_header_and_lines(&mut out, header_b.as_slice(), processed.as_slice());
        proof {
            assert(Seq::<Seq<char>>::empty() + spec_header(source_b.deep_view())
                + processed.deep_view() =~= spec_header(source_b.deep_view())
                + processed.deep_view());
        }
        Ok(out)
    }
}

} // verus!
