use durazubs::errors::{AssError, IOError, ParserError, RepositoryError};
use durazubs::instructor::Instructor;
use durazubs::record::AssField;
use durazubs::translator::Translator;

#[test]
fn test_field_indexes() {
    assert_eq!(AssField::Layer.index(), 0);
    assert_eq!(AssField::Start.index(), 1);
    assert_eq!(AssField::End.index(), 2);
    assert_eq!(AssField::Style.index(), 3);
    assert_eq!(AssField::Name.index(), 4);
    assert_eq!(AssField::Effect.index(), 8);
    assert_eq!(AssField::Text.index(), 9);
}

#[test]
fn test_instructor_single_chunk() {
    let lines: Vec<String> = vec!["one".to_string(), "two".to_string()];
    let out = Instructor::new().run(&lines);
    assert_eq!(out.len(), 4);
    assert!(out[0].starts_with("Act as an expert anime translator."));
    assert_eq!(out[1], "---");
    assert_eq!(out[2], "one");
    assert_eq!(out[3], "two");
}

#[test]
fn test_instructor_empty() {
    let lines: Vec<String> = Vec::new();
    let out = Instructor::new().run(&lines);
    assert!(out.is_empty());
}

#[test]
fn test_instructor_chunk_boundary() {
    // exactly forty texts form one chunk without a trailing spacer
    let lines: Vec<String> = (0..40).map(|i| format!("line {}", i)).collect();
    let out = Instructor::new().run(&lines);
    assert_eq!(out.len(), 42);
    assert_eq!(out[41], "line 39");

    // one more text opens a second chunk, separated by a blank spacer
    let lines: Vec<String> = (0..41).map(|i| format!("line {}", i)).collect();
    let out = Instructor::new().run(&lines);
    assert_eq!(out.len(), 40 + 2 + 1 + 2 + 1);
    assert_eq!(out[42], "\n");
    assert!(out[43].starts_with("Act as an expert anime translator."));
    assert_eq!(out[44], "---");
    assert_eq!(out[45], "line 40");
}

#[test]
fn test_heuristic_verdicts() {
    let t = Translator::new();
    assert_eq!(t.heuristic("Clearly the words are English"), Some(true));
    assert_eq!(t.heuristic("¿Cómo estás hoy?"), Some(false));
    assert_eq!(t.heuristic("MAÑANA"), Some(false));
    assert_eq!(t.heuristic("zzz"), None);
    // Spanish marks win over English function words
    assert_eq!(t.heuristic("the día"), Some(false));
}

#[test]
fn test_io_error_messages() {
    assert_eq!(
        IOError::ReadError { context: "a.txt".to_string() }.message(),
        "Failed to read from: a.txt"
    );
    assert_eq!(
        IOError::WriteError { context: "b.txt".to_string() }.message(),
        "Failed to write to: b.txt"
    );
    assert_eq!(
        IOError::ConnectionFailed { context: "host".to_string() }.message(),
        "Connection error: host"
    );
    assert_eq!(
        IOError::InvalidData { details: "bad".to_string() }.message(),
        "Invalid data: bad"
    );
}

#[test]
fn test_repository_error_messages() {
    assert_eq!(
        RepositoryError::SourceNotFound { context: "x".to_string() }.message(),
        "Source not found: x"
    );
    assert_eq!(
        RepositoryError::ReadError { context: "x".to_string() }.message(),
        "Failed to read data from: x"
    );
    assert_eq!(
        RepositoryError::AccessDenied { context: "x".to_string() }.message(),
        "Access denied: x"
    );
    assert_eq!(
        RepositoryError::SaveFailed { context: "x".to_string() }.message(),
        "Failed to save data to: x"
    );
    assert_eq!(
        RepositoryError::InvalidFormat { details: "x".to_string() }.message(),
        "Format error: x"
    );
}

#[test]
fn test_pipeline_error_wrapping() {
    let e = AssError::from_parser(ParserError::DialoguePrefix);
    assert_eq!(e.message(), "Prefix Error: Line does not start with 'Dialogue:'");
    let e = AssError::from_repository(RepositoryError::AccessDenied { context: "x".to_string() });
    assert_eq!(e.message(), "Access denied: x");
}
