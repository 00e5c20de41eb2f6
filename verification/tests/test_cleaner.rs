use durazubs::cleaner::Cleaner;

fn run_case(name: &str, input: &[&str], expected: &[&str]) {
    let mut lines: Vec<String> = input.iter().map(|s| s.to_string()).collect();
    let expected: Vec<String> = expected.iter().map(|s| s.to_string()).collect();
    let mut cleaner = Cleaner::new();
    let _ = cleaner.run(&mut lines);
    assert_eq!(lines, expected, "Failed at case: {}", name);
}

#[test]
fn test_clean_basic_duplicates() {
    run_case(
        "removes basic duplicate lines",
        &[
            "[Events]",
            "Format: Layer, Start, End, Style, Name, MarginL, MarginR, MarginV, Effect, Text",
            "Dialogue: 0,0:00:01.00,0:00:04.00,Default,,0000,0000,0000,,Line A",
            "Dialogue: 0,0:00:01.00,0:00:04.00,Default,,0000,0000,0000,,Line A",
            "Dialogue: 0,0:00:02.00,0:00:05.00,Default,,0000,0000,0000,,Line B",
        ],
        &[
            "Dialogue: 0,0:00:01.00,0:00:04.00,Default,,0000,0000,0000,,Line A",
            "Dialogue: 0,0:00:02.00,0:00:05.00,Default,,0000,0000,0000,,Line B",
        ],
    );
}

#[test]
fn test_clean_filter_effects() {
    run_case(
        "keeps lines with ordinary effects",
        &[
            "[Events]",
            "Format: Layer, Start, End, Style, Name, MarginL, MarginR, MarginV, Effect, Text",
            "Dialogue: 0,0:00:01.00,0:00:03.00,Default,,0,0,0,,Normal line 1",
            "Dialogue: 0,0:00:03.00,0:00:05.00,Default,,0,0,0,,Normal line 2",
            "Dialogue: 0,0:00:05.00,0:00:07.00,Default,,0,0,0,fade,This line should be removed",
            "Dialogue: 0,0:00:07.00,0:00:09.00,Default,,0,0,0,,Normal line 3",
            "Dialogue: 0,0:00:09.00,0:00:11.00,Default,,0,0,0,blur,Another line to be removed",
        ],
        &[
            "Dialogue: 0,0:00:01.00,0:00:03.00,Default,,0,0,0,,Normal line 1",
            "Dialogue: 0,0:00:03.00,0:00:05.00,Default,,0,0,0,,Normal line 2",
            "Dialogue: 0,0:00:05.00,0:00:07.00,Default,,0,0,0,fade,This line should be removed",
            "Dialogue: 0,0:00:07.00,0:00:09.00,Default,,0,0,0,,Normal line 3",
            "Dialogue: 0,0:00:09.00,0:00:11.00,Default,,0,0,0,blur,Another line to be removed",
        ],
    );
}

#[test]
fn test_clean_remove_op_style() {
    run_case(
        "removes lines with forbidden styles",
        &[
            "[Script Info]",
            "Title: Test 2",
            "",
            "[Events]",
            "Format: Layer, Start, End, Style, Name, MarginL, MarginR, MarginV, Effect, Text",
            "Dialogue: 0,0:00:01.00,0:00:03.00,Default,,0000,0000,0000,,Hello world",
            "Dialogue: 0,0:00:03.00,0:00:05.00,Default,,0000,0000,0000,,Another line",
            "Dialogue: 0,0:00:05.00,0:00:07.00,OP,,0000,0000,0000,,This should be removed",
        ],
        &[
            "Dialogue: 0,0:00:01.00,0:00:03.00,Default,,0000,0000,0000,,Hello world",
            "Dialogue: 0,0:00:03.00,0:00:05.00,Default,,0000,0000,0000,,Another line",
        ],
    );
}

#[test]
fn test_clean_with_format() {
    run_case(
        "keeps lines with format but removes empty ones",
        &[
            "[Events]",
            "Format: Layer, Start, End, Style, Name, MarginL, MarginR, MarginV, Effect, Text",
            "Dialogue: 0,0:00:02.00,0:00:05.00,Default,,0000,0000,0000,,{\\i1}Formatted text",
            "Dialogue: 0,0:00:05.00,0:00:08.00,Default,,0000,0000,0000,,{\\b1}{\\i1}",
        ],
        &[
            "Dialogue: 0,0:00:02.00,0:00:05.00,Default,,0000,0000,0000,,{\\i1}Formatted text",
        ],
    );
}

#[test]
fn test_clean_ignored_junk() {
    run_case(
        "ignores trash header lines",
        &[
            "[Script Info]",
            "; trash",
            "; more trash",
            "",
            "[V4 Styles]",
            "; ignore all",
            "",
            "[Events]",
            "Format: Layer, Start, End, Style, Name, MarginL, MarginR, MarginV, Effect, Text",
            "Dialogue: 0,0:00:03.00,0:00:05.00,Default,,0000,0000,0000,,Hello",
        ],
        &["Dialogue: 0,0:00:03.00,0:00:05.00,Default,,0000,0000,0000,,Hello"],
    );
}

#[test]
fn test_clean_excessive_tags() {
    run_case(
        "removes lines with excessively long tags",
        &[
            "Dialogue: 0,0:00:01.00,0:00:05.00,Default,,0,0,0,,{\\an4\\pos(100,100)\\t(0,500,\\fscx120\\fscy120\\blur5\\1c&H0000FF&\\t(500,1000,\\fscx100\\fscy100\\blur0\\1c&HFFFFFF&))}Text with heavy animation",
        ],
        &[],
    );
}

// Duplicate removal reaches only the immediately preceding kept record: two
// records with the same identity key survive when a different record stands
// between them.
#[test]
fn test_clean_dedup_is_adjacent_only() {
    run_case(
        "keeps separated duplicates",
        &[
            "Dialogue: 0,0:00:01.00,0:00:04.00,Default,,0,0,0,,First",
            "Dialogue: 0,0:00:05.00,0:00:06.00,Other,,0,0,0,,Between",
            "Dialogue: 0,0:00:01.00,0:00:04.00,Default,,0,0,0,,Again",
        ],
        &[
            "Dialogue: 0,0:00:01.00,0:00:04.00,Default,,0,0,0,,First",
            "Dialogue: 0,0:00:05.00,0:00:06.00,Other,,0,0,0,,Between",
            "Dialogue: 0,0:00:01.00,0:00:04.00,Default,,0,0,0,,Again",
        ],
    );
}

// Cleaning is idempotent: a second pass over already-clean input changes
// nothing.
#[test]
fn test_clean_idempotent() {
    let input = [
        "Dialogue: 0,0:00:01.00,0:00:04.00,Default,,0,0,0,,Line A",
        "Dialogue: 0,0:00:02.00,0:00:05.00,Default,,0,0,0,,Line B",
    ];
    let mut once: Vec<String> = input.iter().map(|s| s.to_string()).collect();
    let _ = Cleaner::new().run(&mut once);
    let mut twice = once.clone();
    let _ = Cleaner::new().run(&mut twice);
    assert_eq!(once, twice);
}

// A dialogue-marked line that cannot be parsed is dropped, not fatal.
#[test]
fn test_clean_drops_malformed_record() {
    run_case(
        "drops malformed dialogue lines",
        &[
            "Dialogue: 0,0:00:01.00,broken",
            "Dialogue: 0,0:00:02.00,0:00:05.00,Default,,0,0,0,,Kept",
        ],
        &["Dialogue: 0,0:00:02.00,0:00:05.00,Default,,0,0,0,,Kept"],
    );
}
