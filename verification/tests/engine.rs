use milo::cleanup::{clean_text, escape_osascript, trim_line};
use milo::config::AppConfig;
use milo::date::{date_key, prev_day, Date, Timestamp};
use milo::diff::{compute_word_diff, ChangeType};
use milo::sentence::count_sentences;
use milo::settings::Settings;
use milo::shortcut::{parse_shortcut, KeyCode, ShortcutParseError};
use milo::transform::map_api_error;

#[test]
fn test_compute_word_diff_simple() {
    let original = "I am a very tall guy.";
    let transformed = "I'm very tall.";
    let diff = compute_word_diff(original, transformed);

    println!("Diff result: added={}, removed={}", diff.added_count, diff.removed_count);

    // Under exact token equality "tall" and "tall." differ, so the only
    // common token is "very": one token survives on each side.
    assert_eq!(diff.added_count, 2);
    assert_eq!(diff.removed_count, 5);

    let added_words: Vec<&str> = diff
        .transformed_diff
        .iter()
        .filter(|w| w.change_type == ChangeType::Added)
        .map(|w| w.word.as_str())
        .collect();
    assert!(added_words.contains(&"I'm"));

    let removed_words: Vec<&str> = diff
        .original_diff
        .iter()
        .filter(|w| w.change_type == ChangeType::Removed)
        .map(|w| w.word.as_str())
        .collect();
    assert!(removed_words.contains(&"I"));
    assert!(removed_words.contains(&"am"));
    assert!(removed_words.contains(&"a"));
    assert!(removed_words.contains(&"guy."));
}

#[test]
fn test_compute_word_diff_additions_only() {
    let diff = compute_word_diff("Hello world", "Hello beautiful wonderful world");
    assert_eq!(diff.added_count, 2);
    assert_eq!(diff.removed_count, 0);
}

#[test]
fn test_compute_word_diff_removals_only() {
    let diff = compute_word_diff("Hello beautiful wonderful world", "Hello world");
    assert_eq!(diff.added_count, 0);
    assert_eq!(diff.removed_count, 2);
}

#[test]
fn test_compute_word_diff_identical() {
    let diff = compute_word_diff("Hello world", "Hello world");
    assert_eq!(diff.added_count, 0);
    assert_eq!(diff.removed_count, 0);
}

#[test]
fn test_compute_word_diff_chinese() {
    let diff = compute_word_diff("我是一个学生", "我是一个好学生");
    println!("Chinese diff: added={}, removed={}", diff.added_count, diff.removed_count);
    assert_eq!(diff.added_count, 1);
    assert_eq!(diff.removed_count, 0);
}

#[test]
fn test_compute_word_diff_empty_sides() {
    let all_added = compute_word_diff("", "one two three");
    assert_eq!(all_added.added_count, 3);
    assert_eq!(all_added.removed_count, 0);

    let all_removed = compute_word_diff("one two three", "");
    assert_eq!(all_removed.added_count, 0);
    assert_eq!(all_removed.removed_count, 3);

    let both_empty = compute_word_diff("", "");
    assert_eq!(both_empty.added_count, 0);
    assert_eq!(both_empty.removed_count, 0);
}

#[test]
fn test_compute_word_diff_symmetry_counts() {
    let forward = compute_word_diff("the quick brown fox", "a quick red fox jumps");
    let backward = compute_word_diff("a quick red fox jumps", "the quick brown fox");
    assert_eq!(forward.added_count, backward.removed_count);
    assert_eq!(forward.removed_count, backward.added_count);
}

#[test]
fn test_compute_word_diff_positions_and_unchanged() {
    let diff = compute_word_diff("keep this word", "keep that word");
    assert_eq!(diff.original_diff.len(), 3);
    assert_eq!(diff.transformed_diff.len(), 3);
    for (i, w) in diff.original_diff.iter().enumerate() {
        assert_eq!(w.position, i);
    }
    assert_eq!(diff.original_diff[0].change_type, ChangeType::Unchanged);
    assert_eq!(diff.original_diff[1].change_type, ChangeType::Removed);
    assert_eq!(diff.original_diff[1].word, "this");
    assert_eq!(diff.transformed_diff[1].change_type, ChangeType::Added);
    assert_eq!(diff.transformed_diff[1].word, "that");
    assert_eq!(diff.transformed_diff[2].change_type, ChangeType::Unchanged);
}

#[test]
fn test_count_sentences_english() {
    assert_eq!(count_sentences("Hello world."), 1);
    assert_eq!(count_sentences("Hello world. How are you?"), 2);
    assert_eq!(count_sentences("Hello world! How are you? Fine."), 3);

    assert_eq!(count_sentences("Hello world!!! How are you???"), 2);
    assert_eq!(count_sentences("Hello world... How are you."), 2);

    assert_eq!(count_sentences("Hello world"), 1);

    assert_eq!(count_sentences(""), 0);
    assert_eq!(count_sentences("   "), 0);
}

#[test]
fn test_count_sentences_chinese() {
    assert_eq!(count_sentences("你好世界。"), 1);
    assert_eq!(count_sentences("你好世界。你好吗？"), 2);
    assert_eq!(count_sentences("你好世界！你好吗？很好。"), 3);

    assert_eq!(count_sentences("Hello世界。你好吗?"), 2);

    assert_eq!(count_sentences("你好世界"), 1);
}

#[test]
fn test_count_sentences_mixed() {
    assert_eq!(count_sentences("Hello 世界! 你好嗎？"), 2);
    assert_eq!(count_sentences("Testing... 測試。"), 2);
    assert_eq!(count_sentences("Hello! 你好！ How are you? 你好嗎？"), 4);
}

#[test]
fn test_count_sentences_special_punctuation() {
    assert_eq!(count_sentences("Hello… World."), 2);
    assert_eq!(count_sentences("Really⁉ Yes‼"), 2);
    assert_eq!(count_sentences("Hello⋯ World？"), 2);
}

#[test]
fn test_clean_text_trims_each_line() {
    assert_eq!(clean_text("  hello  \n   world "), "hello\nworld");
    assert_eq!(clean_text("one\ntwo"), "one\ntwo");
    assert_eq!(clean_text("  padded  "), "padded");
    assert_eq!(clean_text("line\n"), "line");
    assert_eq!(clean_text(""), "");
    assert_eq!(clean_text("a\r\nb"), "a\nb");
}

#[test]
fn test_trim_line_unicode_whitespace() {
    assert_eq!(trim_line("\u{3000}你好\u{3000}"), "你好");
    assert_eq!(trim_line("   "), "");
    assert_eq!(trim_line("word"), "word");
}

#[test]
fn test_escape_osascript_quotes() {
    assert_eq!(escape_osascript("say \"hi\""), "say \\\"hi\\\"");
    assert_eq!(escape_osascript("no quotes"), "no quotes");
    assert_eq!(escape_osascript("\""), "\\\"");
}

#[test]
fn test_parse_shortcut_chords() {
    let s = parse_shortcut("meta+KeyM").unwrap();
    assert!(s.meta);
    assert!(!s.control);
    assert!(!s.alt);
    assert!(!s.shift);
    assert_eq!(s.code, KeyCode::KeyM);

    let s = parse_shortcut("Ctrl+Shift+Digit5").unwrap();
    assert!(s.control);
    assert!(s.shift);
    assert_eq!(s.code, KeyCode::Digit5);

    let s = parse_shortcut("CMD+option+Space").unwrap();
    assert!(s.meta);
    assert!(s.alt);
    assert_eq!(s.code, KeyCode::Space);

    let s = parse_shortcut("keya").unwrap();
    assert!(!s.meta && !s.control && !s.alt && !s.shift);
    assert_eq!(s.code, KeyCode::KeyA);
}

#[test]
fn test_parse_shortcut_rejects_bad_chords() {
    assert_eq!(parse_shortcut("meta+KeyÄ"), Err(ShortcutParseError::InvalidKeyCode));
    assert_eq!(parse_shortcut("meta+shift"), Err(ShortcutParseError::InvalidKeyCode));
    assert_eq!(parse_shortcut(""), Err(ShortcutParseError::InvalidKeyCode));
    assert_eq!(parse_shortcut("meta+banana+KeyM"), Err(ShortcutParseError::InvalidKeyCode));
    assert_eq!(ShortcutParseError::InvalidKeyCode.message(), "Invalid key code");
}

#[test]
fn test_map_api_error_branches() {
    assert_eq!(
        map_api_error("HTTP 429 Too Many Requests"),
        "Rate limit exceeded - please top up your account balance"
    );
    assert_eq!(
        map_api_error("provider said: rate limit hit"),
        "Rate limit exceeded - please top up your account balance"
    );
    assert_eq!(
        map_api_error("401 unauthorized"),
        "Invalid API key - please check your credentials"
    );
    assert_eq!(
        map_api_error("access forbidden by policy"),
        "API access forbidden - please check your account status"
    );
    assert_eq!(
        map_api_error("insufficient credit"),
        "Rate limit exceeded - please top up your account balance"
    );
    assert_eq!(map_api_error("boom"), "API error: boom");
}

#[test]
fn test_settings_defaults_and_getters() {
    let s = Settings::default();
    assert_eq!(s.openai_model, "gpt-4o-mini");
    assert_eq!(s.custom_prompts.len(), 1);
    assert_eq!(s.custom_prompts[0].0, "Improve Writing");
    assert_eq!(
        s.custom_prompts[0].1,
        "Improve this text while maintaining its meaning:"
    );
    assert_eq!(s.prompt_order, vec!["Improve Writing".to_string()]);
    assert_eq!(s.selected_tone.as_deref(), Some("Improve Writing"));
    assert_eq!(s.first_visit_complete, Some(false));
    assert!(s.is_shortcut_enabled());
    assert_eq!(s.get_shortcut_keys(), "meta+KeyM");
    assert_eq!(s.get_theme(), "light");

    let mut bare = Settings::default();
    bare.shortcut_enabled = None;
    bare.shortcut_keys = None;
    bare.theme = None;
    assert!(bare.is_shortcut_enabled());
    assert_eq!(bare.get_shortcut_keys(), "meta+KeyM");
    assert_eq!(bare.get_theme(), "light");
    bare.shortcut_enabled = Some(false);
    bare.theme = Some("dark".to_string());
    assert!(!bare.is_shortcut_enabled());
    assert_eq!(bare.get_theme(), "dark");
}

#[test]
fn test_settings_normalize_prompt_order() {
    let mut s = Settings::default();
    s.custom_prompts = vec![
        ("Casual".to_string(), "Make it casual:".to_string()),
        ("Improve Writing".to_string(), "Improve this text:".to_string()),
        ("Formal".to_string(), "Make it formal:".to_string()),
    ];
    s.prompt_order = Vec::new();

    let changed = s.normalize_prompt_order();
    assert!(changed);
    assert_eq!(
        s.prompt_order,
        vec![
            "Improve Writing".to_string(),
            "Casual".to_string(),
            "Formal".to_string()
        ]
    );

    let changed_again = s.normalize_prompt_order();
    assert!(!changed_again);
}

#[test]
fn test_app_config_default() {
    let c = AppConfig::default();
    assert_eq!(c.litellm_base_url, "https://milo-litellm.up.railway.app");
    assert_eq!(c.website_url, "https://milomilo.work");
    assert_eq!(c.default_model, "gpt-4o-mini");
}

#[test]
fn test_date_key_and_prev_day() {
    assert_eq!(date_key(Date::new(2024, 1, 15).unwrap()), "2024-01-15");
    assert_eq!(date_key(Date::new(987, 12, 3).unwrap()), "0987-12-03");

    let d = prev_day(Date::new(2024, 3, 1).unwrap());
    assert_eq!(d, Date::new(2024, 2, 29).unwrap());
    let d = prev_day(Date::new(2023, 3, 1).unwrap());
    assert_eq!(d, Date::new(2023, 2, 28).unwrap());
    let d = prev_day(Date::new(2024, 1, 1).unwrap());
    assert_eq!(d, Date::new(2023, 12, 31).unwrap());
    let d = prev_day(Date::new(2024, 1, 15).unwrap());
    assert_eq!(d, Date::new(2024, 1, 14).unwrap());
}

#[test]
fn test_date_and_timestamp_validation() {
    assert!(Date::new(2024, 2, 29).is_some());
    assert!(Date::new(2023, 2, 29).is_none());
    assert!(Date::new(2024, 13, 1).is_none());
    assert!(Date::new(2024, 0, 1).is_none());
    assert!(Date::new(10000, 1, 1).is_none());
    assert!(Timestamp::new(2024, 1, 15, 12, 0, 0).is_some());
    assert!(Timestamp::new(2024, 1, 15, 24, 0, 0).is_none());
    assert!(Timestamp::new(2024, 1, 15, 12, 60, 0).is_none());
}
