use durazubs::errors::{ParseRes, ParserError};
use durazubs::extractor::SceneExtractor;

fn run_case(name: &str, input: &[&str], expected: &[&str]) -> ParseRes<()> {
    let input: Vec<String> = input.iter().map(|s| s.to_string()).collect();
    let expected: Vec<String> = expected.iter().map(|s| s.to_string()).collect();
    let mut extractor = SceneExtractor::new();
    let result = extractor.run(&input)?;
    assert_eq!(result, expected, "Failed at case: {}", name);
    Ok(())
}

#[test]
fn tests_test_extract_basic_case() -> ParseRes<()> {
    run_case(
        "extracts basic additional scenes",
        &[
            "[Script Info]",
            "Title: Full Scene Test",
            "ScriptType: v4.00+",
            "",
            "[Events]",
            "Format: Layer, Start, End, Style, Name, MarginL, MarginR, MarginV, Effect, Text",
            "Dialogue: 0,0:00:00.50,0:00:02.50,Default,Character1,0,0,0,,Hey! Are you ready?",
            "Dialogue: 0,0:00:03.00,0:00:05.00,Default,ADDITIONAL SCENE,0,0,0,,Extra scene 1 line 1",
            "Dialogue: 0,0:00:05.50,0:00:07.00,Default,ADDITIONAL SCENE,0,0,0,,Extra scene 1 line 2",
            "Dialogue: 0,0:00:07.50,0:00:09.00,Default,Character2,0,0,0,,Let's go!",
            "Dialogue: 0,0:00:09.50,0:00:11.50,Default,ADDITIONAL SCENE,0,0,0,,Extra scene 2 line 1",
            "Dialogue: 0,0:00:12.00,0:00:14.00,Default,ADDITIONAL SCENE,0,0,0,,Extra scene 2 line 2",
            "Dialogue: 0,0:00:14.50,0:00:16.00,Default,Character3,0,0,0,,See you there!",
            "Dialogue: 0,0:00:16.50,0:00:18.00,Default,ADDITIONAL SCENE,0,0,0,,Final extra line",
            "Dialogue: 0,0:00:18.50,0:00:20.00,Default,Character1,0,0,0,,Bye!",
            "Dialogue: 0,0:00:20.50,0:00:22.50,Default,Character2,0,0,0,,Take care!",
            "Dialogue: 0,0:00:23.00,0:00:25.00,Default,ADDITIONAL SCENE,0,0,0,,Bonus scene line",
        ],
        &[
            "Extra scene 1 line 1",
            "Extra scene 1 line 2",
            "Extra scene 2 line 1",
            "Extra scene 2 line 2",
            "Final extra line",
            "Bonus scene line",
        ],
    )
}

#[test]
fn tests_test_extract_without_additional_scenes() -> ParseRes<()> {
    run_case(
        "file without additional scenes",
        &[
            "[Events]",
            "Dialogue: 0,0:00:01.00,0:00:02.00,Default,CHAR1,0,0,0,,Hello",
            "Dialogue: 0,0:00:02.50,0:00:03.00,Default,CHAR2,0,0,0,,Bye",
        ],
        &[],
    )
}

#[test]
fn tests_test_extract_only_additional_scenes() -> ParseRes<()> {
    run_case(
        "file with only additional scenes",
        &[
            "Dialogue: 0,0:00:01.00,0:00:02.00,Default,ADDITIONAL SCENE,0,0,0,,Extra 1",
            "Dialogue: 0,0:00:02.50,0:00:03.50,Default,ADDITIONAL SCENE,0,0,0,,Extra 2",
        ],
        &["Extra 1", "Extra 2"],
    )
}

#[test]
#[should_panic]
fn test_fails_on_corrupt_data() {
    run_case(
        "fails on corrupt dialogue line",
        &["Dialogue: invalid,metadata,no,text"],
        &[],
    )
    .unwrap();
}

#[test]
fn test_error_missing_fields() {
    let result = run_case(
        "fails when dialogue has missing fields",
        &["Dialogue: 0,0:00:01.00,NotEnoughFields"],
        &[],
    );
    match result {
        Err(ParserError::MissingFields { found }) => assert_eq!(found, 3),
        _ => panic!("Expected MissingFields(3), got {:?}", result),
    }
}
