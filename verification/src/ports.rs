//! The ports the surrounding application implements: line sources and
//! sinks, the subtitle repository, and the user-facing view, together with
//! the plain configuration values they exchange.

use vstd::prelude::*;

use crate::errors::{IOError, RepoRes};

verus! {

/// A synchronous line source: hands over the full ordered line list.
pub trait Reader {
    fn read_lines(&self) -> Result<Vec<String>, IOError>;
}

/// A synchronous line sink: accepts lines one at a time or all at once.
pub trait Writer {
    fn write_line(&mut self, line: &str) -> Result<(), IOError>;

    fn write_lines(&mut self, lines: &[String]) -> Result<(), IOError>;
}

/// Whole-track storage, addressed by an identifier.
pub trait SubtitleRepository {
    fn get_all(&self, id: &str) -> RepoRes<Vec<String>>;

    fn save(&self, id: &str, lines: &[String]) -> RepoRes<()>;
}

/// The stages the front end reports while a run progresses.
#[derive(Debug, Clone, Copy, PartialEq, Eq, Structural)]
pub enum AppStatus {
    Welcome,
    Reading,
    ReadingA,
    ReadingB,
    Preprocessing,
    Processing,
    Translating,
    NoLinesToTranslate,
    Styling,
    Writing,
    AskTranslation,
    TranslationFileFound,
    Success,
}

/// The two input tracks a run works on.
#[derive(Debug, Clone)]
pub struct AppPaths {
    pub path_a: String,
    pub path_b: String,
}

/// The choices a run was configured with.
#[derive(Debug, Clone)]
pub struct AppOptions {
    pub output_path: String,
    pub format_type: String,
    pub sync_enabled: bool,
    pub style: Option<String>,
    pub translation_enabled: bool,
    pub ai_type: Option<String>,
}

/// Everything a run needs to know.
#[derive(Debug, Clone)]
pub struct AppConfig {
    pub paths: AppPaths,
    pub options: AppOptions,
}

/// The user-facing front end: prompts, progress and errors.
pub trait AppView {
    fn get_format(&self) -> String;

    fn request_path_a(&self, ext: &str) -> String;

    fn request_path_b(&self, ext: &str) -> String;

    fn request_path_result(&self, ext: &str) -> String;

    fn display_status(&self, status: AppStatus);

    fn display_error(&self, message: &str);

    fn get_sync_enabled(&self) -> bool;

    fn get_options(&self, output_path: &str, ext: &str, sync_enabled: bool) -> AppOptions;

    fn confirm_translation_ready(&self) -> bool;
}

} // verus!
