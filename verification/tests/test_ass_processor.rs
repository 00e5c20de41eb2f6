use durazubs::errors::{ParseRes, ParserError};
use durazubs::processor::{AssProcessor, SubtitleProcessor};

fn synchronize_case(input_a: &[&str], input_b: &[&str]) -> ParseRes<Vec<String>> {
    let proc = AssProcessor::new();
    let lines_a: Vec<String> = input_a.iter().map(|s| s.to_string()).collect();
    let lines_b: Vec<String> = input_b.iter().map(|s| s.to_string()).collect();
    proc.synchronize(&lines_a, &lines_b)
}

#[test]
fn test_process_success() -> ParseRes<()> {
    let result = synchronize_case(
        &[
            "[Events]",
            "Format: Layer, Start, End, Style, Name, MarginL, MarginR, MarginV, Effect, Text",
            "Dialogue: 0,0:00:01.00,0:00:02.00,Default,,0,0,0,,Line 1",
        ],
        &[
            "[Events]",
            "Format: Layer, Start, End, Style, Name, MarginL, MarginR, MarginV, Effect, Text",
            "Dialogue: 0,0:00:01.00,0:00:02.00,Default,,0,0,0,,Línea 1",
        ],
    )?;
    assert!(
        result.iter().any(|l| l.contains("Línea 1")),
        "Case failed: basic process success"
    );
    Ok(())
}

#[test]
fn test_generic_synchronization_logic() -> ParseRes<()> {
    // Timing recalibration with noise outside the dialogue section. The
    // merged records are re-serialized canonically: fixed layer, zeroed
    // margins.
    let synced = synchronize_case(
        &[
            "[Events]",
            "Format: Layer, Start, End, Style, Name, MarginL, MarginR, MarginV, Effect, Text",
            "Comment: 0,0:00:00.00,0:00:05.00,Noise,,0,0,0,,DISCARD_ME",
            "Dialogue: 10,0:00:01.50,0:00:03.00,OldStyle,Actor,0,0,0,,Line 1 text A",
            "Dialogue: 10,0:00:04.00,0:00:07.00,OldStyle,Actor,0,0,0,,Line 2 text A",
        ],
        &[
            "[Events]",
            "Format: Layer, Start, End, Style, Name, MarginL, MarginR, MarginV, Effect, Text",
            "Dialogue: 0,0:00:00.50,0:00:02.50,OtherStyle,,0000,0000,0000,,Line 1 text B",
            "Dialogue: 0,0:00:03.00,0:00:05.50,OtherStyle,,0000,0000,0000,,Line 2 Text B",
        ],
    )?;
    let expected = [
        "[Events]",
        "Format: Layer, Start, End, Style, Name, MarginL, MarginR, MarginV, Effect, Text",
        "Dialogue: 10,0:00:01.50,0:00:03.50,OtherStyle,,0,0,0,,Line 1 text B",
        "Dialogue: 10,0:00:04.00,0:00:06.50,OtherStyle,,0,0,0,,Line 2 Text B",
    ];
    for (i, expected_line) in expected.iter().enumerate() {
        assert_eq!(synced[i], *expected_line, "Sync mismatch at line {}", i);
    }
    Ok(())
}

#[test]
fn test_error_propagation_short() {
    let result = synchronize_case(
        &["[Events]", "Dialogue: 0,0:00:01.00,Error"],
        &[
            "[Events]",
            "Dialogue: 0,0:00:01.00,0:00:02.00,Default,,0,0,0,,Ok",
        ],
    );
    match result {
        Err(ParserError::MissingFields { found }) => {
            assert_eq!(found, 3, "Field count mismatch for the corrupt track")
        },
        _ => panic!("Expected MissingFields(3), got {:?}", result),
    }
}

#[test]
fn test_error_propagation_incomplete() {
    let result = synchronize_case(
        &[
            "[Events]",
            "Dialogue: 0,0:00:01.00,0:00:02.00,Style,Name,0,0",
        ],
        &[
            "[Events]",
            "Dialogue: 0,0:00:01.00,0:00:02.00,Default,,0,0,0,,Ok",
        ],
    );
    match result {
        Err(ParserError::MissingFields { found }) => {
            assert_eq!(found, 7, "Field count mismatch for the incomplete track")
        },
        _ => panic!("Expected MissingFields(7), got {:?}", result),
    }
}

fn extract_case() -> ParseRes<Vec<String>> {
    let proc = AssProcessor::new();
    let mut lines: Vec<String> = [
        "[Events]",
        "Format: Layer, Start, End, Style, Name, MarginL, MarginR, MarginV, Effect, Text",
        "Dialogue: 0,0:00:20.00,0:00:22.00,Default,,0,0,0,,Normal line",
        "Dialogue: 0,0:00:10.00,0:00:12.00,Default,ADDITIONAL SCENE,0,0,0,,Second extra",
        "Dialogue: 0,0:00:05.00,0:00:07.00,Default,ADDITIONAL SCENE,0,0,0,,First extra",
    ]
    .iter()
    .map(|s| s.to_string())
    .collect();
    proc.get_lines_to_translate(&mut lines)
}

#[test]
fn test_extract_lines_structure() -> ParseRes<()> {
    let result = extract_case()?;
    assert_eq!(result.len(), 4, "Structure mismatch");
    Ok(())
}

#[test]
fn test_extract_lines_content_integrity() -> ParseRes<()> {
    let result = extract_case()?;
    let expected = [
        "Act as an expert anime translator. You will process a block of subtitles from ENGLISH to NEUTRAL LATIN AMERICAN SPANISH.",
        "---",
        "Second extra",
        "First extra",
    ];
    for (i, expected_text) in expected.iter().enumerate() {
        assert!(result[i].contains(expected_text), "Content mismatch at line {}", i);
    }
    Ok(())
}
