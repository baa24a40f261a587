use particelle::patch_edit::{set_param_value, PatchEditError};
use particelle::text::{chars_of, is_unicode_whitespace, trim_start_matches};

#[test]
fn set_replaces_matching_line_keeping_indent() {
    let yaml = "engine:\n  sample_rate: 48000\n  block_size: 256\n";
    let out = set_param_value(yaml, "engine.sample_rate", "96000").unwrap();
    assert_eq!(out, "engine:\n  sample_rate: 96000\n  block_size: 256");
}

#[test]
fn set_accepts_space_before_colon() {
    let yaml = "tuning:\n  steps : 12\nother: 1";
    let out = set_param_value(yaml, "tuning.steps", "19").unwrap();
    assert_eq!(out, "tuning:\n  steps : 19\nother: 1");
}

#[test]
fn set_rewrites_only_the_value_at_the_full_path() {
    let yaml = "a:\n x: 1\nb:\n x: 2";
    assert_eq!(set_param_value(yaml, "a.x", "9").unwrap(), "a:\n x: 9\nb:\n x: 2");
    assert_eq!(set_param_value(yaml, "b.x", "9").unwrap(), "a:\n x: 1\nb:\n x: 9");
}

#[test]
fn set_reports_a_key_under_another_parent() {
    let yaml = "a:\n  density: 1\nb:\n  other: 2";
    assert_eq!(
        set_param_value(yaml, "b.density", "7"),
        Err(PatchEditError::ParamNotFound { param: "b.density".to_owned() })
    );
    assert!(set_param_value(yaml, "density", "7").is_err());
}

#[test]
fn set_reports_missing_parameter() {
    let yaml = "engine:\n  block_size: 256\n";
    assert_eq!(
        set_param_value(yaml, "engine.sample_rate", "1"),
        Err(PatchEditError::ParamNotFound { param: "engine.sample_rate".to_owned() })
    );
    assert!(set_param_value("", "x", "1").is_err());
}

#[test]
fn set_keeps_text_up_to_the_first_colon() {
    let yaml = "key: old # note: kept? no\r\nnext: 2";
    let out = set_param_value(yaml, "key", "new").unwrap();
    assert_eq!(out, "key: new\nnext: 2");
}

#[test]
fn set_does_not_match_longer_keys() {
    let yaml = "density_mod: 1\ndensity: 2";
    let out = set_param_value(yaml, "density", "3").unwrap();
    assert_eq!(out, "density_mod: 1\ndensity: 3");
}

#[test]
fn set_matches_lines_like_std_lines() {
    let yaml = "x:\r\n\ty: 2\u{3000}\n\nz: 3\r";
    let out = set_param_value(yaml, "x.y", "9").unwrap();
    let expected: Vec<String> = yaml
        .lines()
        .map(|l| if l.trim().starts_with("y:") { "\ty: 9".to_owned() } else { l.to_owned() })
        .collect();
    assert_eq!(out, expected.join("\n"));
}

const CLOUDS: &str = "# patch\nengine:\n  sample_rate: 48000\n\nclouds:\n  - id: first\n    # grain density\n    density: 16.0\n    window:\n      kind: hann\n  - id: second\n    density: 4.0\ntuning:\n  steps: 12\n";

#[test]
fn set_indexes_list_items() {
    let out = set_param_value(CLOUDS, "clouds[0].density", "32").unwrap();
    let expected = CLOUDS.trim_end().replacen("density: 16.0", "density: 32", 1);
    assert_eq!(out, expected);
    let out = set_param_value(CLOUDS, "clouds[1].density", "8").unwrap();
    let expected = CLOUDS.trim_end().replacen("density: 4.0", "density: 8", 1);
    assert_eq!(out, expected);
}

#[test]
fn set_reaches_the_entry_on_the_dash_line_and_nested_keys() {
    let out = set_param_value(CLOUDS, "clouds[1].id", "third").unwrap();
    assert_eq!(out, CLOUDS.trim_end().replacen("id: second", "id: third", 1));
    let out = set_param_value(CLOUDS, "clouds[0].window.kind", "tukey").unwrap();
    assert_eq!(out, CLOUDS.trim_end().replacen("kind: hann", "kind: tukey", 1));
    let out = set_param_value(CLOUDS, "tuning.steps", "19").unwrap();
    assert_eq!(out, CLOUDS.trim_end().replacen("steps: 12", "steps: 19", 1));
}

#[test]
fn set_reports_absent_list_items_and_malformed_paths() {
    for path in [
        "clouds[2].density",
        "clouds[99999999999999999999999].density",
        "clouds.density",
        "clouds[0]",
        "engine[0].sample_rate",
        "clouds[0].window.kind.extra",
        "engine.sample_rate.x",
        "",
    ] {
        assert_eq!(
            set_param_value(CLOUDS, path, "1"),
            Err(PatchEditError::ParamNotFound { param: path.to_owned() }),
            "{}",
            path
        );
    }
}

#[test]
fn set_skips_comment_lines() {
    let yaml = "# density: 1\ndensity: 2";
    assert_eq!(set_param_value(yaml, "density", "3").unwrap(), "# density: 1\ndensity: 3");
}

#[test]
fn whitespace_matches_char_is_whitespace() {
    for u in 0u32..=0x10FFFF {
        if let Some(c) = char::from_u32(u) {
            assert_eq!(is_unicode_whitespace(c), c.is_whitespace(), "U+{:04X}", u);
        }
    }
}

#[test]
fn chars_of_lists_characters() {
    assert_eq!(chars_of("añb"), vec!['a', 'ñ', 'b']);
    assert!(chars_of("").is_empty());
}

#[test]
fn trim_start_matches_agrees_with_std() {
    for (s, p) in [
        ("/field//field/x", "/field/"),
        ("/field/", "/field/"),
        ("abcabcab", "abc"),
        ("xyz", "abc"),
        ("", "a"),
    ] {
        assert_eq!(trim_start_matches(s, p), s.trim_start_matches(p));
    }
}

#[test]
fn setting_twice_equals_setting_once() {
    let yaml = "engine:\n  sample_rate :  44100  \n  block_size: 256";
    let once = set_param_value(yaml, "engine.sample_rate", "96000").unwrap();
    let twice = set_param_value(&once, "engine.sample_rate", "96000").unwrap();
    assert_eq!(once, twice);
    assert_eq!(once, "engine:\n  sample_rate : 96000\n  block_size: 256");
}
