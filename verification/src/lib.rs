//! Subtitle track synchronization: parsing, cleaning, sorting and merging of
//! timed dialogue records, with support for extracting and re-injecting the
//! text of bonus-scene records around an external translation step.

pub mod text;
pub mod errors;
pub mod line;
pub mod record;
pub mod timecode;
pub mod codec;
pub mod parser;
pub mod segmenter;
pub mod collector;
pub mod cleaner;
pub mod sorter;
pub mod blocks;
pub mod steps;
pub mod line_processor;
pub mod synchronizer;
pub mod extractor;
pub mod applier;
pub mod script_preparer;
pub mod style_editor;
pub mod stylist;
pub mod instructor;
pub mod translator;
pub mod processor;
pub mod ports;
