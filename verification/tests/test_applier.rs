use durazubs::applier::SceneApplier;
use durazubs::errors::ParseRes;
use durazubs::extractor::SceneExtractor;

fn run_case(name: &str, input: &[&str], translations: &[&str], expected: &[&str]) -> ParseRes<()> {
    let input: Vec<String> = input.iter().map(|s| s.to_string()).collect();
    let translations: Vec<String> = translations.iter().map(|s| s.to_string()).collect();
    let expected: Vec<String> = expected.iter().map(|s| s.to_string()).collect();
    let mut applier = SceneApplier::new();
    let result = applier.run(&input, &translations)?;
    assert_eq!(result, expected, "Failed at case: {}", name);
    Ok(())
}

#[test]
fn test_scene_replacement() -> ParseRes<()> {
    run_case(
        "replaces text in bonus-scene lines",
        &[
            "Dialogue: 0,0:00:10.00,0:00:12.00,Sign,ADDITIONAL SCENE,0,0,0,,[Original Text A]",
            "Dialogue: 0,0:00:15.00,0:00:17.00,Sign,ADDITIONAL SCENE,0,0,0,,[Original Text B]",
        ],
        &["Translated Text 1", "Translated Text 2"],
        &[
            "Dialogue: 10,0:00:10.00,0:00:12.00,Sign,ADDITIONAL SCENE,0,0,0,,Translated Text 1",
            "Dialogue: 10,0:00:15.00,0:00:17.00,Sign,ADDITIONAL SCENE,0,0,0,,Translated Text 2",
        ],
    )
}

#[test]
fn test_selective_apply() -> ParseRes<()> {
    run_case(
        "only applies translations to lines with the scene tag",
        &[
            "Dialogue: 0,0:00:01.00,0:00:03.00,Default,,0,0,0,,Normal Subtitle",
            "Dialogue: 0,0:00:20.00,0:00:22.00,Sign,ADDITIONAL SCENE,0,0,0,,Target Scene",
            "Dialogue: 0,0:00:25.00,0:00:27.00,Default,,0,0,0,,Another Subtitle",
        ],
        &["Processed Scene"],
        &[
            "Dialogue: 0,0:00:01.00,0:00:03.00,Default,,0,0,0,,Normal Subtitle",
            "Dialogue: 10,0:00:20.00,0:00:22.00,Sign,ADDITIONAL SCENE,0,0,0,,Processed Scene",
            "Dialogue: 0,0:00:25.00,0:00:27.00,Default,,0,0,0,,Another Subtitle",
        ],
    )
}

// Once the translated list is exhausted, remaining scene records stay
// untouched; this is never an error.
#[test]
fn test_apply_exhausted_list() -> ParseRes<()> {
    run_case(
        "leaves scene records alone once the list runs out",
        &[
            "Dialogue: 0,0:00:10.00,0:00:12.00,Sign,ADDITIONAL SCENE,0,0,0,,First",
            "Dialogue: 0,0:00:15.00,0:00:17.00,Sign,ADDITIONAL SCENE,0,0,0,,Second",
        ],
        &["Only one"],
        &[
            "Dialogue: 10,0:00:10.00,0:00:12.00,Sign,ADDITIONAL SCENE,0,0,0,,Only one",
            "Dialogue: 0,0:00:15.00,0:00:17.00,Sign,ADDITIONAL SCENE,0,0,0,,Second",
        ],
    )
}

// Translation round trip: extracting the scene texts and injecting that
// same list back reproduces the original scene texts exactly.
#[test]
fn test_translation_identity_roundtrip() {
    let input: Vec<String> = [
        "[Events]",
        "Dialogue: 0,0:00:01.00,0:00:02.00,Default,Character1,0,0,0,,Ordinary",
        "Dialogue: 0,0:00:03.00,0:00:04.00,Default,ADDITIONAL SCENE,0,0,0,,Scene one",
        "Dialogue: 0,0:00:05.00,0:00:06.00,Default,ADDITIONAL SCENE,0,0,0,,Scene two, with comma",
    ]
    .iter()
    .map(|s| s.to_string())
    .collect();
    let texts = SceneExtractor::new().run(&input).unwrap();
    assert_eq!(texts, vec!["Scene one".to_string(), "Scene two, with comma".to_string()]);
    let injected = SceneApplier::new().run(&input, &texts).unwrap();
    let texts_again = SceneExtractor::new().run(&injected).unwrap();
    assert_eq!(texts_again, texts);
}
