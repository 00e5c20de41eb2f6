use durazubs::errors::ParseRes;
use durazubs::stylist::{StyleType, Stylist};

fn run_case(name: &str, input: &[&str], expected: &[&str], style_type: &StyleType) -> ParseRes<()> {
    let input: Vec<String> = input.iter().map(|s| s.to_string()).collect();
    let expected: Vec<String> = expected.iter().map(|s| s.to_string()).collect();
    let stylist = Stylist::new(style_type);
    let result = stylist.run(&input)?;
    assert_eq!(result, expected, "Failed at case: {}", name);
    Ok(())
}

#[test]
fn test_main_strategy() -> ParseRes<()> {
    run_case(
        "adds styles and changes dialogue style to Main",
        &[
            "[Script Info]",
            "Title: Basic Test",
            "",
            "[Events]",
            "Format: Layer, Start, End, Style, Name, MarginL, MarginR, MarginV, Effect, Text",
            "Dialogue: 10,0:00:01.00,0:00:02.00,Default,,0,0,0,,Line 1",
            "Dialogue: 10,0:00:02.00,0:00:03.00,Default,,0,0,0,,Line 2",
        ],
        &[
            "[Script Info]",
            "Title: Basic Test",
            "PlayResX: 640",
            "PlayResY: 360",
            "ScaledBorderAndShadow: yes",
            "",
            "[V4+ Styles]",
            "Format: Name, Fontname, Fontsize, PrimaryColour, SecondaryColour, OutlineColour, BackColour, Bold, Italic, Underline, StrikeOut, ScaleX, ScaleY, Spacing, Angle, BorderStyle, Outline, Shadow, Alignment, MarginL, MarginR, MarginV, Encoding",
            "Style: Main,Trebuchet MS,24,&H00FFFFFF,&H000000FF,&H00000000,&H00000000,0,0,0,0,100,100,0,0,1,2,1,2,0010,0010,0018,1",
            "",
            "[Events]",
            "Format: Layer, Start, End, Style, Name, MarginL, MarginR, MarginV, Effect, Text",
            "Dialogue: 10,0:00:01.00,0:00:02.00,Main,,0,0,0,,Line 1",
            "Dialogue: 10,0:00:02.00,0:00:03.00,Main,,0,0,0,,Line 2",
        ],
        &StyleType::Main,
    )
}

#[test]
fn test_second_strategy() -> ParseRes<()> {
    run_case(
        "changes style to Second",
        &[
            "[Script Info]",
            "Title: Second Test",
            "",
            "[Events]",
            "Format: Layer, Start, End, Style, Name, MarginL, MarginR, MarginV, Effect, Text",
            "Dialogue: 10,0:00:01.00,0:00:02.00,Default,,0,0,0,,Hello",
            "Dialogue: 10,0:00:02.00,0:00:03.00,Default,,0,0,0,,World",
        ],
        &[
            "[Script Info]",
            "Title: Second Test",
            "PlayResX: 640",
            "PlayResY: 360",
            "ScaledBorderAndShadow: yes",
            "",
            "[V4+ Styles]",
            "Format: Name, Fontname, Fontsize, PrimaryColour, SecondaryColour, OutlineColour, BackColour, Bold, Italic, Underline, StrikeOut, ScaleX, ScaleY, Spacing, Angle, BorderStyle, Outline, Shadow, Alignment, MarginL, MarginR, MarginV, Encoding",
            "Style: Second,Roboto,22,&H00FFFFFF,&H000000FF,&H00000000,&H00000000,0,0,0,0,100,100,0,0,1,2,1.5,2,10,10,10,1",
            "",
            "[Events]",
            "Format: Layer, Start, End, Style, Name, MarginL, MarginR, MarginV, Effect, Text",
            "Dialogue: 10,0:00:01.00,0:00:02.00,Second,,0,0,0,,Hello",
            "Dialogue: 10,0:00:02.00,0:00:03.00,Second,,0,0,0,,World",
        ],
        &StyleType::Second,
    )
}

#[test]
fn test_replaces_existing_styles() -> ParseRes<()> {
    run_case(
        "adds new style to already existing styles",
        &[
            "[Script Info]",
            "Title: Existing Styles Test",
            "",
            "[V4+ Styles]",
            "Format: Name, Fontname, Fontsize, PrimaryColour, SecondaryColour, OutlineColour, BackColour, Bold, Italic, Underline, StrikeOut, ScaleX, ScaleY, Spacing, Angle, BorderStyle, Outline, Shadow, Alignment, MarginL, MarginR, MarginV, Encoding",
            "Style: Default,Tahoma,18,&H00FFFFFF,&H000000FF,&H00000000,&H00000000,0,0,0,0,100,100,0,0,1,2,1,2,0010,0010,0018,1",
            "",
            "[Events]",
            "Format: Layer, Start, End, Style, Name, MarginL, MarginR, MarginV, Effect, Text",
            "Dialogue: 10,0:00:01.00,0:00:02.00,Default,,0,0,0,,Hello",
            "Dialogue: 10,0:00:02.00,0:00:03.00,Default,,0,0,0,,World",
        ],
        &[
            "[Script Info]",
            "Title: Existing Styles Test",
            "PlayResX: 640",
            "PlayResY: 360",
            "ScaledBorderAndShadow: yes",
            "",
            "[V4+ Styles]",
            "Format: Name, Fontname, Fontsize, PrimaryColour, SecondaryColour, OutlineColour, BackColour, Bold, Italic, Underline, StrikeOut, ScaleX, ScaleY, Spacing, Angle, BorderStyle, Outline, Shadow, Alignment, MarginL, MarginR, MarginV, Encoding",
            "Style: Default,Tahoma,18,&H00FFFFFF,&H000000FF,&H00000000,&H00000000,0,0,0,0,100,100,0,0,1,2,1,2,0010,0010,0018,1",
            "Style: Main,Trebuchet MS,24,&H00FFFFFF,&H000000FF,&H00000000,&H00000000,0,0,0,0,100,100,0,0,1,2,1,2,0010,0010,0018,1",
            "",
            "[Events]",
            "Format: Layer, Start, End, Style, Name, MarginL, MarginR, MarginV, Effect, Text",
            "Dialogue: 10,0:00:01.00,0:00:02.00,Main,,0,0,0,,Hello",
            "Dialogue: 10,0:00:02.00,0:00:03.00,Main,,0,0,0,,World",
        ],
        &StyleType::Main,
    )
}

#[test]
fn test_replaces_multiple_styles() -> ParseRes<()> {
    run_case(
        "adds new style and replaces only the dominant one",
        &[
            "[Script Info]",
            "Title: Multiple Styles Test",
            "",
            "[V4+ Styles]",
            "Format: Name, Fontname, Fontsize, PrimaryColour, SecondaryColour, OutlineColour, BackColour, Bold, Italic, Underline, StrikeOut, ScaleX, ScaleY, Spacing, Angle, BorderStyle, Outline, Shadow, Alignment, MarginL, MarginR, MarginV, Encoding",
            "Style: Default,Tahoma,18,&H00FFFFFF,&H000000FF,&H00000000,&H00000000,0,0,0,0,100,100,0,0,1,2,1,2,0010,0010,0018,1",
            "Style: Alternate,Arial,20,&H00FFFFFF,&H000000FF,&H00000000,&H00000000,0,0,0,0,100,100,0,0,1,2,1,2,0010,0010,0018,1",
            "Style: Signs,Comic Sans,22,&H00FFFFFF,&H000000FF,&H00000000,&H00000000,0,0,0,0,100,100,0,0,1,2,1,2,0010,0010,0018,1",
            "",
            "[Events]",
            "Format: Layer, Start, End, Style, Name, MarginL, MarginR, MarginV, Effect, Text",
            "Dialogue: 10,0:00:01.00,0:00:02.00,Default,,0,0,0,,Hello",
            "Dialogue: 10,0:00:02.00,0:00:03.00,Alternate,,0,0,0,,World",
            "Dialogue: 10,0:00:03.00,0:00:04.00,Default,,0,0,0,,Bye",
        ],
        &[
            "[Script Info]",
            "Title: Multiple Styles Test",
            "PlayResX: 640",
            "PlayResY: 360",
            "ScaledBorderAndShadow: yes",
            "",
            "[V4+ Styles]",
            "Format: Name, Fontname, Fontsize, PrimaryColour, SecondaryColour, OutlineColour, BackColour, Bold, Italic, Underline, StrikeOut, ScaleX, ScaleY, Spacing, Angle, BorderStyle, Outline, Shadow, Alignment, MarginL, MarginR, MarginV, Encoding",
            "Style: Default,Tahoma,18,&H00FFFFFF,&H000000FF,&H00000000,&H00000000,0,0,0,0,100,100,0,0,1,2,1,2,0010,0010,0018,1",
            "Style: Alternate,Arial,20,&H00FFFFFF,&H000000FF,&H00000000,&H00000000,0,0,0,0,100,100,0,0,1,2,1,2,0010,0010,0018,1",
            "Style: Signs,Comic Sans,22,&H00FFFFFF,&H000000FF,&H00000000,&H00000000,0,0,0,0,100,100,0,0,1,2,1,2,0010,0010,0018,1",
            "Style: Main,Trebuchet MS,24,&H00FFFFFF,&H000000FF,&H00000000,&H00000000,0,0,0,0,100,100,0,0,1,2,1,2,0010,0010,0018,1",
            "",
            "[Events]",
            "Format: Layer, Start, End, Style, Name, MarginL, MarginR, MarginV, Effect, Text",
            "Dialogue: 10,0:00:01.00,0:00:02.00,Main,,0,0,0,,Hello",
            "Dialogue: 10,0:00:02.00,0:00:03.00,Alternate,,0,0,0,,World",
            "Dialogue: 10,0:00:03.00,0:00:04.00,Main,,0,0,0,,Bye",
        ],
        &StyleType::Main,
    )
}

#[test]
fn test_full_info_case() -> ParseRes<()> {
    run_case(
        "script info already carries the keys",
        &[
            "[Script Info]",
            "Title: Full Info Test",
            "PlayResX: 1280",
            "PlayResY: 720",
            "ScaledBorderAndShadow: yes",
            "",
            "[V4+ Styles]",
            "Format: Name, Fontname, Fontsize, PrimaryColour, SecondaryColour, OutlineColour, BackColour, Bold, Italic, Underline, StrikeOut, ScaleX, ScaleY, Spacing, Angle, BorderStyle, Outline, Shadow, Alignment, MarginL, MarginR, MarginV, Encoding",
            "Style: Default,Tahoma,18,&H00FFFFFF,&H000000FF,&H00000000,&H00000000,0,0,0,0,100,100,0,0,1,2,1,2,0010,0010,0018,1",
            "",
            "[Events]",
            "Format: Layer, Start, End, Style, Name, MarginL, MarginR, MarginV, Effect, Text",
            "Dialogue: 10,0:00:01.00,0:00:02.00,Default,,0,0,0,,Hello",
        ],
        &[
            "[Script Info]",
            "Title: Full Info Test",
            "PlayResX: 640",
            "PlayResY: 360",
            "ScaledBorderAndShadow: yes",
            "",
            "[V4+ Styles]",
            "Format: Name, Fontname, Fontsize, PrimaryColour, SecondaryColour, OutlineColour, BackColour, Bold, Italic, Underline, StrikeOut, ScaleX, ScaleY, Spacing, Angle, BorderStyle, Outline, Shadow, Alignment, MarginL, MarginR, MarginV, Encoding",
            "Style: Default,Tahoma,18,&H00FFFFFF,&H000000FF,&H00000000,&H00000000,0,0,0,0,100,100,0,0,1,2,1,2,0010,0010,0018,1",
            "Style: Main,Trebuchet MS,24,&H00FFFFFF,&H000000FF,&H00000000,&H00000000,0,0,0,0,100,100,0,0,1,2,1,2,0010,0010,0018,1",
            "",
            "[Events]",
            "Format: Layer, Start, End, Style, Name, MarginL, MarginR, MarginV, Effect, Text",
            "Dialogue: 10,0:00:01.00,0:00:02.00,Main,,0,0,0,,Hello",
        ],
        &StyleType::Main,
    )
}

#[test]
#[should_panic]
fn test_fails_on_corrupt_metadata() {
    run_case(
        "fails on corrupt script info",
        &["[Script Info]", "InvalidMetadataLine"],
        &[],
        &StyleType::Main,
    )
    .unwrap();
}
