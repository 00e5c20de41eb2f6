use durazubs::errors::ParseRes;
use durazubs::sorter::Sorter;

fn run_case(name: &str, input: &[&str], expected: &[&str]) -> ParseRes<()> {
    let input: Vec<String> = input.iter().map(|s| s.to_string()).collect();
    let expected: Vec<String> = expected.iter().map(|s| s.to_string()).collect();
    let sorter = Sorter::new();
    let result = sorter.run(&input)?;
    assert_eq!(result, expected, "Failed at case: {}", name);
    Ok(())
}

#[test]
fn test_basic_ordering() -> ParseRes<()> {
    run_case(
        "basic line ordering",
        &[
            "[Script Info]",
            "Title: Basic Test",
            "",
            "[Events]",
            "Format: Layer, Start, End, Style, Name, MarginL, MarginR, MarginV, Effect, Text",
            "Dialogue: 0,0:00:05.00,0:00:06.00,Default,,0,0,0,,Line 3",
            "Dialogue: 0,0:00:01.00,0:00:02.00,Default,,0,0,0,,Line 1",
            "Dialogue: 0,0:00:03.00,0:00:04.00,Default,,0,0,0,,Line 2",
        ],
        &[
            "[Script Info]",
            "Title: Basic Test",
            "",
            "[Events]",
            "Format: Layer, Start, End, Style, Name, MarginL, MarginR, MarginV, Effect, Text",
            "Dialogue: 0,0:00:01.00,0:00:02.00,Default,,0,0,0,,Line 1",
            "Dialogue: 0,0:00:03.00,0:00:04.00,Default,,0,0,0,,Line 2",
            "Dialogue: 0,0:00:05.00,0:00:06.00,Default,,0,0,0,,Line 3",
        ],
    )
}

#[test]
fn test_ordering_with_metadata() -> ParseRes<()> {
    run_case(
        "ordering with lines outside the events section",
        &[
            "[Script Info]",
            "Title: With lines outside Events",
            "SomeMetadata: true",
            "",
            "[V4+ Styles]",
            "Format: Name,Fontname,Fontsize,PrimaryColour",
            "Style: Default,Arial,20,&H00FFFFFF",
            "",
            "[Events]",
            "Format: Layer, Start, End, Style, Name, MarginL, MarginR, MarginV, Effect, Text",
            "Dialogue: 0,0:00:04.00,0:00:05.00,Default,,0,0,0,,C",
            "Dialogue: 0,0:00:02.00,0:00:03.00,Default,,0,0,0,,B",
            "Dialogue: 0,0:00:01.00,0:00:02.00,Default,,0,0,0,,A",
        ],
        &[
            "[Script Info]",
            "Title: With lines outside Events",
            "SomeMetadata: true",
            "",
            "[V4+ Styles]",
            "Format: Name,Fontname,Fontsize,PrimaryColour",
            "Style: Default,Arial,20,&H00FFFFFF",
            "",
            "[Events]",
            "Format: Layer, Start, End, Style, Name, MarginL, MarginR, MarginV, Effect, Text",
            "Dialogue: 0,0:00:01.00,0:00:02.00,Default,,0,0,0,,A",
            "Dialogue: 0,0:00:02.00,0:00:03.00,Default,,0,0,0,,B",
            "Dialogue: 0,0:00:04.00,0:00:05.00,Default,,0,0,0,,C",
        ],
    )
}

#[test]
fn test_ordering_close_times() -> ParseRes<()> {
    run_case(
        "ordering with close timestamps",
        &[
            "[Script Info]",
            "",
            "[Events]",
            "Format: Layer, Start, End, Style, Name, MarginL, MarginR, MarginV, Effect, Text",
            "Dialogue: 0,0:00:01.50,0:00:02.00,Default,,0,0,0,,B",
            "Dialogue: 0,0:00:01.40,0:00:02.00,Default,,0,0,0,,A",
            "Dialogue: 0,0:00:01.90,0:00:02.00,Default,,0,0,0,,C",
        ],
        &[
            "[Script Info]",
            "",
            "[Events]",
            "Format: Layer, Start, End, Style, Name, MarginL, MarginR, MarginV, Effect, Text",
            "Dialogue: 0,0:00:01.40,0:00:02.00,Default,,0,0,0,,A",
            "Dialogue: 0,0:00:01.50,0:00:02.00,Default,,0,0,0,,B",
            "Dialogue: 0,0:00:01.90,0:00:02.00,Default,,0,0,0,,C",
        ],
    )
}

#[test]
#[should_panic]
fn test_fails_on_corrupt_time() {
    run_case(
        "fails on corrupt timestamp",
        &["Dialogue: 0,99:XX:99.00,0:00:02.00,Default,,0,0,0,,Error"],
        &[],
    )
    .unwrap();
}

// Sorting is idempotent: running the sorter on its own output is a no-op.
#[test]
fn test_sorter_idempotent() {
    let input: Vec<String> = [
        "[Events]",
        "Dialogue: 0,0:00:09.00,0:00:10.00,Default,,0,0,0,,Z",
        "Dialogue: 0,0:00:01.00,0:00:02.00,Default,,0,0,0,,A",
        "Dialogue: 0,0:00:04.00,0:00:05.00,Default,,0,0,0,,M",
    ]
    .iter()
    .map(|s| s.to_string())
    .collect();
    let sorter = Sorter::new();
    let once = sorter.run(&input).unwrap();
    let twice = sorter.run(&once).unwrap();
    assert_eq!(once, twice);
}

// Adjacent sorted dialogue pairs never decrease in millisecond-quantized
// start time; records with equal starts keep their original order.
#[test]
fn test_sorter_output_ordered_and_stable() {
    let input: Vec<String> = [
        "Dialogue: 0,0:00:02.00,0:00:03.00,Default,,0,0,0,,Second at two",
        "Dialogue: 0,0:00:01.00,0:00:09.00,Default,,0,0,0,,At one",
        "Dialogue: 0,0:00:02.00,0:00:03.50,Default,,0,0,0,,Third at two",
    ]
    .iter()
    .map(|s| s.to_string())
    .collect();
    let result = Sorter::new().run(&input).unwrap();
    assert_eq!(
        result,
        vec![
            "Dialogue: 0,0:00:01.00,0:00:09.00,Default,,0,0,0,,At one".to_string(),
            "Dialogue: 0,0:00:02.00,0:00:03.00,Default,,0,0,0,,Second at two".to_string(),
            "Dialogue: 0,0:00:02.00,0:00:03.50,Default,,0,0,0,,Third at two".to_string(),
        ]
    );
}
