//! Style profiles: a closed set of named visual profiles, each carrying one
//! style-definition line and the style name it rewrites dialogue to, and
//! the `Stylist` that applies a chosen profile to a whole track.

use vstd::prelude::*;

use crate::errors::{ParserError, ParseRes};
use crate::script_preparer::{
    ScriptPreparer, prep_fold, prep_init, dominant_of,
};
use crate::style_editor::{StyleEditor, spec_inject, spec_transform};

verus! {

/// The closed set of style profiles.
#[derive(Debug, Clone, Copy, PartialEq, Eq, Structural)]
pub enum StyleType {
    Main,
    Second,
}

/// The style name a profile rewrites dialogue to.
pub open spec fn profile_name(t: StyleType) -> Seq<char> {
    match t {
        StyleType::Main => "Main"@,
        StyleType::Second => "Second"@,
    }
}

/// The style-definition lines a profile injects.
pub open spec fn profile_styles(t: StyleType) -> Seq<Seq<char>> {
    match t {
        StyleType::Main => seq![
            "Style: Main,Trebuchet MS,24,&H00FFFFFF,&H000000FF,&H00000000,&H00000000,0,0,0,0,100,100,0,0,1,2,1,2,0010,0010,0018,1"@,
        ],
        StyleType::Second => seq![
            "Style: Second,Roboto,22,&H00FFFFFF,&H000000FF,&H00000000,&H00000000,0,0,0,0,100,100,0,0,1,2,1.5,2,10,10,10,1"@,
        ],
    }
}

/// One style profile: the style it writes and the definitions it injects.
pub trait StyleStrategy {
    /// The style name the profile rewrites dialogue to.
    spec fn name_spec(&self) -> Seq<char>;

    /// The style-definition lines the profile injects.
    spec fn styles_spec(&self) -> Seq<Seq<char>>;

    /// The profile's style name as text.
    fn style_name(&self) -> (r: String)
        ensures
            r@ == self.name_spec(),
    ;

    /// The profile's style-definition lines.
    fn styles(&self) -> (r: Vec<String>)
        ensures
            r.deep_view() == self.styles_spec(),
    ;
}

/// The default dialogue profile.
pub struct MainStrategy;

impl MainStrategy {
    pub fn new() -> Self {
        MainStrategy
    }
}

impl StyleStrategy for MainStrategy {
    open spec fn name_spec(&self) -> Seq<char> {
        profile_name(StyleType::Main)
    }

    open spec fn styles_spec(&self) -> Seq<Seq<char>> {
        profile_styles(StyleType::Main)
    }

    fn style_name(&self) -> (r: String) {
        String::from_str("Main")
    }

    fn styles(&self) -> (r: Vec<String>) {
        let mut v: Vec<String> = Vec::new();
        v.push(
            String::from_str(
                "Style: Main,Trebuchet MS,24,&H00FFFFFF,&H000000FF,&H00000000,&H00000000,0,0,0,0,100,100,0,0,1,2,1,2,0010,0010,0018,1",
            ),
        );
        proof {
            assert(v.deep_view() =~= self.styles_spec());
        }
        v
    }
}

/// The alternate dialogue profile.
pub struct SecondStrategy;

impl SecondStrategy {
    pub fn new() -> Self {
        SecondStrategy
    }
}

impl StyleStrategy for SecondStrategy {
    open spec fn name_spec(&self) -> Seq<char> {
        profile_name(StyleType::Second)
    }

    open spec fn styles_spec(&self) -> Seq<Seq<char>> {
        profile_styles(StyleType::Second)
    }

    fn style_name(&self) -> (r: String) {
        String::from_str("Second")
    }

    fn styles(&self) -> (r: Vec<String>) {
        let mut v: Vec<String> = Vec::new();
        v.push(
            String::from_str(
                "Style: Second,Roboto,22,&H00FFFFFF,&H000000FF,&H00000000,&H00000000,0,0,0,0,100,100,0,0,1,2,1.5,2,10,10,10,1",
            ),
        );
        proof {
            assert(v.deep_view() =~= self.styles_spec());
        }
        v
    }
}

/// Chooses the profile for a style type.
pub struct StrategyFactory;

impl StrategyFactory {
    pub fn create(style_type: &StyleType) -> (r: StrategyChoice)
        ensures
            r.name_spec() == profile_name(*style_type),
            r.styles_spec() == profile_styles(*style_type),
            r matches StrategyChoice::Main(_) <==> *style_type == StyleType::Main,
    {
        match style_type {
            StyleType::Main => StrategyChoice::Main(MainStrategy::new()),
            StyleType::Second => StrategyChoice::Second(SecondStrategy::new()),
        }
    }
}

/// A chosen profile, one of the closed set.
pub enum StrategyChoice {
    Main(MainStrategy),
    Second(SecondStrategy),
}

impl StyleStrategy for StrategyChoice {
    open spec fn name_spec(&self) -> Seq<char> {
        match self {
            StrategyChoice::Main(_) => profile_name(StyleType::Main),
            StrategyChoice::Second(_) => profile_name(StyleType::Second),
        }
    }

    open spec fn styles_spec(&self) -> Seq<Seq<char>> {
        match self {
            StrategyChoice::Main(_) => profile_styles(StyleType::Main),
            StrategyChoice::Second(_) => profile_styles(StyleType::Second),
        }
    }

    fn style_name(&self) -> (r: String) {
        match self {
            StrategyChoice::Main(s) => s.style_name(),
            StrategyChoice::Second(s) => s.style_name(),
        }
    }

    fn styles(&self) -> (r: Vec<String>) {
        match self {
            StrategyChoice::Main(s) => s.styles(),
            StrategyChoice::Second(s) => s.styles(),
        }
    }
}

/// The styled image of a track under a profile: the preparation pass, the
/// injected definitions, and — where a dominant style exists — the rewrite
/// of that style and of every bonus-scene record.
pub open spec fn spec_stylist(ls: Seq<Seq<char>>, t: StyleType) -> Result<
    Seq<Seq<char>>,
    ParserError,
> {
    match prep_fold(ls, prep_init()) {
        Err(e) => Err(e),
        Ok(st) => {
            let injected = spec_inject(st.out, st.last_style, st.post_info, profile_styles(t));
            match dominant_of(st.counts) {
                None => Ok(injected),
                Some(target) => spec_transform(injected, target, profile_name(t)),
            }
        },
    }
}

/// Applies one style profile to a whole track.
pub struct Stylist {
    strategy: StrategyChoice,
}

impl Stylist {
    /// The profile this stylist applies.
    pub closed spec fn profile(&self) -> StyleType {
        match self.strategy {
            StrategyChoice::Main(_) => StyleType::Main,
            StrategyChoice::Second(_) => StyleType::Second,
        }
    }

    pub fn new(style_type: &StyleType) -> (r: Self)
        ensures
            r.profile() == *style_type,
    {
        Stylist { strategy: StrategyFactory::create(style_type) }
    }

    /// The styled image of the track.
    pub fn run(&self, lines: &[String]) -> (r: ParseRes<Vec<String>>)
        ensures
            r matches Ok(out) ==> spec_stylist(lines.deep_view(), self.profile()) == Ok::<
                _,
                ParserError,
            >(out.deep_view()),
            r matches Err(e) ==> spec_stylist(lines.deep_view(), self.profile()) == Err::<
                Seq<Seq<char>>,
                _,
            >(e),
    {
        let mut output_lines: Vec<String> = Vec::new();
        let mut script_preparer = ScriptPreparer::new();
        match script_preparer.analyze(lines, &mut output_lines) {
            Ok(()) => {},
            Err(e) => {
                return Err(e);
            },
        }
        proof {
            crate::style_editor::lemma_prep_bounds(lines.deep_view(), prep_init());
            crate::script_preparer::lemma_view_out(&script_preparer, output_lines.deep_view());
        }
        let styles = self.strategy.styles();
        let name = self.strategy.style_name();
        let mut style_editor = StyleEditor::new();
        match style_editor.edit(&script_preparer, &styles, name.as_str(), &mut output_lines) {
            Ok(()) => {},
            Err(e) => {
                return Err(e);
            },
        }
        Ok(output_lines)
    }
}

} // verus!
