use durazubs::errors::ParserError;
use durazubs::parser::Parser;

// Round trip: serializing a parsed record reproduces every semantic field,
// whatever layer digits the source carried.
#[test]
fn test_format_parse_roundtrip() {
    let p = Parser::new();
    let raw = "Dialogue: 7,0:01:02.34,0:01:05.67,Default, Speaker ,9,9,9,fadeout,Hello, world {\\i1}!";
    let rec = p.parse_ass_line(raw).unwrap();
    assert_eq!(rec.start, 6234);
    assert_eq!(rec.end, 6567);
    assert_eq!(rec.style, "Default");
    assert_eq!(rec.name, "Speaker");
    assert_eq!(rec.effect, "fadeout");
    assert_eq!(rec.text, "Hello, world {\\i1}!");

    let formatted = p
        .replace_text(raw, "Hello, world {\\i1}!")
        .unwrap();
    assert_eq!(
        formatted,
        "Dialogue: 10,0:01:02.34,0:01:05.67,Default,Speaker,0,0,0,fadeout,Hello, world {\\i1}!"
    );
    let again = p.parse_ass_line(&formatted).unwrap();
    assert_eq!(again.start, rec.start);
    assert_eq!(again.end, rec.end);
    assert_eq!(again.style, rec.style);
    assert_eq!(again.name, rec.name);
    assert_eq!(again.effect, rec.effect);
    assert_eq!(again.text, rec.text);
    assert_eq!(again.layer, "10");
}

// Exact timestamp arithmetic: hours, minutes, seconds and centiseconds.
#[test]
fn test_time_parsing_exact() {
    let p = Parser::new();
    let t = p
        .get_start_time("Dialogue: 0,1:02:03.45,0:00:09.00,Default,,0,0,0,,x")
        .unwrap();
    assert_eq!(t, 1 * 360000 + 2 * 6000 + 3 * 100 + 45);
    let e = p
        .get_end_time("Dialogue: 0,1:02:03.45,0:00:09.00,Default,,0,0,0,,x")
        .unwrap();
    assert_eq!(e, 900);
}

#[test]
fn test_error_variants() {
    let p = Parser::new();
    assert_eq!(p.parse_ass_line("no marker").unwrap_err(), ParserError::DialoguePrefix);
    assert_eq!(
        p.parse_ass_line("Dialogue: 0,only,three").unwrap_err(),
        ParserError::MissingFields { found: 3 }
    );
    assert_eq!(
        p.parse_ass_line("Dialogue: 0,0:00:0x.00,0:00:02.00,Default,,0,0,0,,x")
            .unwrap_err(),
        ParserError::TimeParse
    );
}

#[test]
fn test_error_messages() {
    assert_eq!(
        ParserError::MissingFields { found: 3 }.message(),
        "Missing Fields: Expected 10, found 3"
    );
    assert_eq!(
        ParserError::DialoguePrefix.message(),
        "Prefix Error: Line does not start with 'Dialogue:'"
    );
    assert_eq!(
        ParserError::TimeParse.message(),
        "Time Error: Unparsable timestamp component"
    );
}

// Noise classification: song-cue styles, invisible text and technical
// effects are noise; plain dialogue is not.
#[test]
fn test_noise_classification() {
    let p = Parser::new();
    assert_eq!(
        p.is_special_style("Dialogue: 0,0:00:01.00,0:00:02.00,OP,,0,0,0,,x"),
        Ok(true)
    );
    assert_eq!(
        p.is_special_style("Dialogue: 0,0:00:01.00,0:00:02.00,Default,,0,0,0,,x"),
        Ok(false)
    );
    // text that is nothing but override spans counts as empty
    assert_eq!(
        p.is_text_empty("Dialogue: 0,0:00:01.00,0:00:02.00,Default,,0,0,0,,{\\b1}{\\i1}"),
        Ok(true)
    );
    assert_eq!(
        p.is_text_empty("Dialogue: 0,0:00:01.00,0:00:02.00,Default,,0,0,0,,{\\i1}visible"),
        Ok(false)
    );
    assert_eq!(
        p.is_technical_garbage("Dialogue: 0,0:00:01.00,0:00:02.00,Default,,0,0,0,template syl,x"),
        Ok(true)
    );
    assert_eq!(
        p.is_technical_garbage("Dialogue: 0,0:00:01.00,0:00:02.00,Default,,0,0,0,,plain text"),
        Ok(false)
    );
    assert!(!p.has_excessive_tags("{\\i1}short"));
}

#[test]
fn test_line_key() {
    let p = Parser::new();
    let key = p
        .get_line_key("Dialogue: 0,0:00:01.77,0:00:02.00,Default,,0,0,0,,x")
        .unwrap();
    assert_eq!(key, "177|200|Default");
}

#[test]
fn test_section_predicates() {
    let p = Parser::new();
    assert!(p.is_events_section("[Events]"));
    assert!(p.is_format_line("Format: Layer, Start"));
    assert!(p.is_dialogue("Dialogue: 0,a,b"));
    assert!(p.is_script_info("x [Script Info] y"));
    assert!(p.is_v4_styles("  [V4+ Styles]  "));
    assert!(p.is_section_start("  [Whatever]"));
    assert!(p.is_playresx(" PlayResX: 640"));
    assert!(p.is_playresy(" PlayResY: 360"));
    assert!(p.is_scaled_border("ScaledBorderAndShadow: yes"));
    assert!(p.is_style_definition("  Style: Default,Arial"));
    assert!(!p.is_dialogue(" Dialogue: leading space"));
}

#[test]
fn test_config_formatting() {
    let p = Parser::new();
    assert_eq!(p.format_playresx(640), "PlayResX: 640");
    assert_eq!(p.format_playresy(360), "PlayResY: 360");
    assert_eq!(p.format_scaled_border(true), "ScaledBorderAndShadow: yes");
    assert_eq!(p.format_scaled_border(false), "ScaledBorderAndShadow: no");
    assert_eq!(p.get_styles_tag(), "[V4+ Styles]");
}

#[test]
fn test_time_rewrites() {
    let p = Parser::new();
    let line = "Dialogue: 0,0:00:01.00,0:00:02.00,Default,,0,0,0,,x";
    assert_eq!(
        p.set_start_time(line, 150).unwrap(),
        "Dialogue: 10,0:00:01.50,0:00:02.00,Default,,0,0,0,,x"
    );
    assert_eq!(
        p.set_end_time(line, 90000).unwrap(),
        "Dialogue: 10,0:00:01.00,0:15:00.00,Default,,0,0,0,,x"
    );
    // a negative time clamps to zero
    assert_eq!(
        p.set_start_time(line, -50).unwrap(),
        "Dialogue: 10,0:00:00.00,0:00:02.00,Default,,0,0,0,,x"
    );
    assert_eq!(
        p.get_new_offset(
            "Dialogue: 0,0:00:01.00,0:00:02.00,Default,,0,0,0,,x",
            "Dialogue: 0,0:00:03.50,0:00:04.00,Default,,0,0,0,,y"
        )
        .unwrap(),
        250
    );
}

#[test]
fn test_replace_style() {
    let p = Parser::new();
    assert_eq!(
        p.replace_style("Dialogue: 0,0:00:01.00,0:00:02.00,Old,,0,0,0,,x", "New")
            .unwrap(),
        "Dialogue: 10,0:00:01.00,0:00:02.00,New,,0,0,0,,x"
    );
}
