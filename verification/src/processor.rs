//! The processing facade one format exposes to the application: cleaning
//! and ordering, the merge, the translation round trip and styling, each a
//! thin composition of the verified components.

use vstd::prelude::*;

use crate::errors::ParserError;
use crate::applier::{SceneApplier, spec_apply};
use crate::cleaner::{Cleaner, spec_clean};
use crate::extractor::{SceneExtractor, spec_extract};
use crate::instructor::{Instructor, spec_instruct};
use crate::segmenter::spec_dialogues;
use crate::sorter::{Sorter, spec_sorter};
use crate::stylist::{Stylist, StyleType, spec_stylist};
use crate::synchronizer::{Synchronizer, spec_sync};

verus! {

/// The operations a subtitle format offers the application.
pub trait SubtitleProcessor {
    type Error;

    fn synchronize(&self, l_a: &[String], l_b: &[String]) -> Result<Vec<String>, Self::Error>;

    fn get_lines_to_translate(&self, lines: &mut Vec<String>) -> Result<
        Vec<String>,
        Self::Error,
    >;

    fn apply_translation(&self, lines: &mut Vec<String>, translations: &[String]) -> Result<
        Vec<String>,
        Self::Error,
    >;

    fn preprocessing(&self, lines: &mut Vec<String>) -> Result<Vec<String>, Self::Error>;

    fn has_additional_scene(&self, lines: &Vec<String>) -> Result<bool, Self::Error>;

    fn apply_style(&self, lines: &Vec<String>) -> Result<Vec<String>, Self::Error>;
}

/// The processor for the dialogue-record format of this crate.
pub struct AssProcessor {
    style_type: Option<StyleType>,
}

impl AssProcessor {
    /// The style profile a run applies: the configured one, or the default.
    pub closed spec fn chosen_profile(&self) -> StyleType {
        match self.style_type {
            Some(t) => t,
            None => StyleType::Main,
        }
    }

    pub fn new() -> (r: Self)
        ensures
            r.chosen_profile() == StyleType::Main,
    {
        AssProcessor { style_type: None }
    }

    fn identify_style(&self, s: &str) -> (r: StyleType)
        ensures
            r == (if s@ == "1"@ {
                StyleType::Main
            } else {
                StyleType::Second
            }),
    {
        let v = crate::text::chars_of(s);
        let one = crate::text::chars_of("1");
        if crate::text::chars_eq(v.as_slice(), one.as_slice()) {
            StyleType::Main
        } else {
            StyleType::Second
        }
    }

    /// Chooses the style profile from its configured name.
    pub fn with_style(self, style_name: Option<String>) -> (r: Self)
        ensures
            match style_name {
                Some(s) => r.chosen_profile() == (if s@ == "1"@ {
                    StyleType::Main
                } else {
                    StyleType::Second
                }),
                None => r.chosen_profile() == StyleType::Main,
            },
    {
        match style_name {
            Some(s) => AssProcessor { style_type: Some(self.identify_style(s.as_str())) },
            None => AssProcessor { style_type: None },
        }
    }
}

impl SubtitleProcessor for AssProcessor {
    type Error = ParserError;

    /// Merges the two tracks. A track without any dialogue record cannot
    /// anchor the merge and is rejected as malformed.
    fn synchronize(&self, l_a: &[String], l_b: &[String]) -> (r: Result<Vec<String>, ParserError>)
        ensures
            r matches Ok(out) ==> spec_dialogues(l_a.deep_view()).len() > 0 && spec_dialogues(
                l_b.deep_view(),
            ).len() > 0 && spec_sync(l_a.deep_view(), l_b.deep_view()) == Ok::<_, ParserError>(
                out.deep_view(),
            ),
            r matches Err(e) ==> (spec_dialogues(l_a.deep_view()).len() == 0 || spec_dialogues(
                l_b.deep_view(),
            ).len() == 0) && e == ParserError::DialoguePrefix || spec_sync(
                l_a.deep_view(),
                l_b.deep_view(),
            ) == Err::<Seq<Seq<char>>, _>(e),
    {
        let parser = crate::parser::Parser::new();
        let segmenter = crate::segmenter::AssSegmenter::new();
        let da = segmenter.extract_dialogues(l_a, &parser);
        let db = segmenter.extract_dialogues(l_b, &parser);
        if da.len() == 0 || db.len() == 0 {
            return Err(ParserError::DialoguePrefix);
        }
        Synchronizer::new().run(l_a, l_b)
    }

    /// The translation request payload: the scene texts, wrapped into
    /// instruction batches.
    fn get_lines_to_translate(&self, lines: &mut Vec<String>) -> (r: Result<
        Vec<String>,
        ParserError,
    >)
        ensures
            *final(lines) == *old(lines),
            r matches Ok(out) ==> spec_extract(old(lines).deep_view()) is Ok && out.deep_view()
                == spec_instruct(spec_extract(old(lines).deep_view())->Ok_0),
            r matches Err(e) ==> spec_extract(old(lines).deep_view()) == Err::<Seq<Seq<char>>, _>(
                e,
            ),
    {
        let additional_scenes = match SceneExtractor::new().run(lines.as_slice()) {
            Ok(t) => t,
            Err(e) => {
                return Err(e);
            },
        };
        Ok(Instructor::new().run(&additional_scenes))
    }

    /// Splices translated text back by position.
    fn apply_translation(&self, lines: &mut Vec<String>, translations: &[String]) -> (r: Result<
        Vec<String>,
        ParserError,
    >)
        ensures
            *final(lines) == *old(lines),
            r matches Ok(out) ==> spec_apply(old(lines).deep_view(), translations.deep_view(), 0)
                == Ok::<_, ParserError>(out.deep_view()),
            r matches Err(e) ==> spec_apply(old(lines).deep_view(), translations.deep_view(), 0)
                == Err::<Seq<Seq<char>>, _>(e),
    {
        SceneApplier::new().run(lines.as_slice(), translations)
    }

    /// Cleans the track in place, then returns its ordered image.
    fn preprocessing(&self, lines: &mut Vec<String>) -> (r: Result<Vec<String>, ParserError>)
        ensures
            final(lines).deep_view() == spec_clean(old(lines).deep_view()),
            r matches Ok(out) ==> spec_sorter(spec_clean(old(lines).deep_view())) == Ok::<
                _,
                ParserError,
            >(out.deep_view()),
            r matches Err(e) ==> spec_sorter(spec_clean(old(lines).deep_view())) == Err::<
                Seq<Seq<char>>,
                _,
            >(e),
    {
        match Cleaner::new().run(lines) {
            Ok(()) => {},
            Err(e) => {
                return Err(e);
            },
        }
        Sorter::new().run(lines.as_slice())
    }

    /// Whether any bonus-scene record is present.
    fn has_additional_scene(&self, lines: &Vec<String>) -> (r: Result<bool, ParserError>)
        ensures
            r matches Ok(b) ==> spec_extract(lines.deep_view()) is Ok && b == (spec_extract(
                lines.deep_view(),
            )->Ok_0.len() != 0),
            r matches Err(e) ==> spec_extract(lines.deep_view()) == Err::<Seq<Seq<char>>, _>(e),
    {
        let additional_scenes = match SceneExtractor::new().run(lines.as_slice()) {
            Ok(t) => t,
            Err(e) => {
                return Err(e);
            },
        };
        Ok(additional_scenes.len() != 0)
    }

    /// Applies the configured style profile.
    fn apply_style(&self, lines: &Vec<String>) -> (r: Result<Vec<String>, ParserError>)
        ensures
            r matches Ok(out) ==> spec_stylist(lines.deep_view(), self.chosen_profile()) == Ok::<
                _,
                ParserError,
            >(out.deep_view()),
            r matches Err(e) ==> spec_stylist(lines.deep_view(), self.chosen_profile()) == Err::<
                Seq<Seq<char>>,
                _,
            >(e),
    {
        let style = match &self.style_type {
            Some(t) => *t,
            None => StyleType::Main,
        };
        Stylist::new(&style).run(lines.as_slice())
    }
}

} // verus!
