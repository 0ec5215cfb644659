use milo::date::{date_key, Date, Timestamp};
use milo::diff::ChangeType;
use milo::history::{HistoryError, TransformationEntry, TransformationHistory};

fn ts(year: u32, month: u8, day: u8, hour: u8) -> Timestamp {
    Timestamp::new(year, month, day, hour, 0, 0).unwrap()
}

fn entry(
    tone: &str,
    original: &str,
    transformed: &str,
    timestamp: Timestamp,
    word_count: usize,
    sentence_count: usize,
) -> TransformationEntry {
    TransformationEntry {
        tone_name: tone.to_string(),
        original_text: original.to_string(),
        transformed_text: transformed.to_string(),
        timestamp,
        word_count,
        sentence_count,
        added_count: 0,
        removed_count: 0,
    }
}

fn day_bucket(history: &TransformationHistory, date: Date) -> Option<milo::history::DayStats> {
    history.daily_stats.iter().find(|b| b.date == date).copied()
}

#[test]
fn test_transformation_entry_creation() {
    let e = entry(
        "Improve Writing",
        "test text",
        "improved test text",
        ts(2024, 1, 15, 12),
        3,
        1,
    );
    assert_eq!(e.tone_name, "Improve Writing");
    assert_eq!(e.word_count, 3);
}

#[test]
fn test_history_add_entry() {
    let mut history = TransformationHistory::default();

    let e = entry("Test Tone", "original", "transformed", ts(2024, 1, 15, 12), 1, 1);
    history.add_entry(e);

    assert_eq!(history.entries.len(), 1);
    assert_eq!(history.get_total_transformations(), 1);
    assert_eq!(history.get_total_words_transformed(), 1);

    let date = Date::new(2024, 1, 15).unwrap();
    assert_eq!(date_key(date), "2024-01-15");
    let day_stats = day_bucket(&history, date).expect("daily stats bucket missing");
    assert_eq!(day_stats.transformation_count, 1);
    assert_eq!(day_stats.word_count, 1);
}

#[test]
fn test_history_multiple_entries_same_day() {
    let mut history = TransformationHistory::default();
    let test_date = ts(2024, 1, 15, 12);

    history.add_entry(entry("Tone 1", "text 1", "transformed text 1", test_date, 3, 1));
    history.add_entry(entry("Tone 2", "text 2", "transformed text 2", test_date, 2, 1));

    assert_eq!(history.entries.len(), 2);
    assert_eq!(history.get_total_transformations(), 2);
    assert_eq!(history.get_total_words_transformed(), 5);

    let date = Date::new(2024, 1, 15).unwrap();
    let day_stats = day_bucket(&history, date).expect("daily stats bucket missing");
    assert_eq!(day_stats.transformation_count, 2);
    assert_eq!(day_stats.word_count, 5);
}

#[test]
fn test_history_max_entries_limit() {
    let mut history = TransformationHistory::default();
    history.max_entries = Some(3);

    for i in 0..5 {
        history.add_entry(entry(
            &format!("Tone {}", i),
            &format!("original {}", i),
            &format!("transformed {}", i),
            ts(2024, 1, 15, 12),
            1,
            1,
        ));
    }

    assert_eq!(history.entries.len(), 3);
    assert_eq!(history.entries[0].tone_name, "Tone 4");
    assert_eq!(history.entries[1].tone_name, "Tone 3");
    assert_eq!(history.entries[2].tone_name, "Tone 2");
}

#[test]
fn test_get_recent_entries() {
    let mut history = TransformationHistory::default();

    for i in 0..5 {
        history.add_entry(entry(
            &format!("Tone {}", i),
            &format!("original {}", i),
            &format!("transformed {}", i),
            ts(2024, 1, 15, 12),
            1,
            1,
        ));
    }

    let recent = history.get_recent_entries(3);
    assert_eq!(recent.len(), 3);
    assert_eq!(recent[0].tone_name, "Tone 4");
}

#[test]
fn test_clear_history() {
    let mut history = TransformationHistory::default();

    history.add_entry(entry("Test", "test", "transformed", ts(2024, 1, 15, 12), 1, 1));

    assert_eq!(history.entries.len(), 1);
    assert_eq!(history.daily_stats.len(), 1);

    history.clear_history();

    assert_eq!(history.entries.len(), 0);
    assert_eq!(history.daily_stats.len(), 0);
    assert_eq!(history.get_total_transformations(), 0);
    assert_eq!(history.get_total_words_transformed(), 0);
}

#[test]
fn test_daily_stats_generation() {
    let mut history = TransformationHistory::default();

    let day1 = ts(2024, 1, 15, 12);
    let day2 = ts(2024, 1, 16, 12);

    history.add_entry(entry("Day 1", "text", "day one text", day1, 3, 1));
    history.add_entry(entry("Day 2", "text", "day two text", day2, 2, 1));

    assert_eq!(history.daily_stats.len(), 2);

    let day1_stats = day_bucket(&history, Date::new(2024, 1, 15).unwrap()).unwrap();
    assert_eq!(day1_stats.transformation_count, 1);
    assert_eq!(day1_stats.word_count, 3);

    let day2_stats = day_bucket(&history, Date::new(2024, 1, 16).unwrap()).unwrap();
    assert_eq!(day2_stats.transformation_count, 1);
    assert_eq!(day2_stats.word_count, 2);
}

#[test]
fn test_usage_summary_totals() {
    let mut history = TransformationHistory::default();
    history.add_entry(entry("A", "x", "y", ts(2024, 3, 1, 8), 4, 2));
    history.add_entry(entry("B", "x", "y", ts(2024, 3, 2, 8), 6, 3));

    let summary = history.get_usage_summary();
    assert_eq!(summary.total_transformations, 2);
    assert_eq!(summary.total_words_transformed, 10);
    assert_eq!(summary.total_sentences_transformed, 5);
    assert_eq!(summary.history_count, 2);
    assert_eq!(history.get_total_sentences_transformed(), 5);
}

#[test]
fn test_get_daily_stats_window() {
    let mut history = TransformationHistory::default();
    history.add_entry(entry("A", "x", "y", ts(2024, 1, 15, 12), 3, 1));
    history.add_entry(entry("B", "x", "y", ts(2024, 1, 16, 12), 2, 1));

    let today = Date::new(2024, 1, 17).unwrap();
    let stats = history.get_daily_stats(3, today);

    assert_eq!(stats.len(), 3);
    assert_eq!(stats[0].date, Date::new(2024, 1, 15).unwrap());
    assert_eq!(stats[0].transformation_count, 1);
    assert_eq!(stats[0].word_count, 3);
    assert_eq!(stats[1].date, Date::new(2024, 1, 16).unwrap());
    assert_eq!(stats[1].transformation_count, 1);
    assert_eq!(stats[2].date, today);
    assert_eq!(stats[2].transformation_count, 0);
    assert_eq!(stats[2].word_count, 0);
    assert_eq!(stats[2].sentence_count, 0);
}

#[test]
fn test_get_transformation_diff_by_index() {
    let mut history = TransformationHistory::default();
    history.add_entry(entry(
        "Shorten",
        "Hello beautiful world",
        "Hello world",
        ts(2024, 1, 15, 12),
        1,
        1,
    ));

    let diff = history.get_transformation_diff(0).unwrap();
    assert_eq!(diff.added_count, 0);
    assert_eq!(diff.removed_count, 1);
    let removed: Vec<&str> = diff
        .original_diff
        .iter()
        .filter(|w| w.change_type == ChangeType::Removed)
        .map(|w| w.word.as_str())
        .collect();
    assert_eq!(removed, vec!["beautiful"]);

    let err = history.get_transformation_diff(1);
    assert_eq!(err.unwrap_err(), HistoryError::IndexOutOfRange);
    assert_eq!(HistoryError::IndexOutOfRange.message(), "Entry index out of bounds");
}

#[test]
fn test_add_transformation_records_diff_data() {
    let mut history = TransformationHistory::default();
    history.add_transformation(
        "Improve Writing".to_string(),
        "Hello world".to_string(),
        "Hello beautiful wonderful world".to_string(),
        ts(2024, 1, 15, 12),
    );

    assert_eq!(history.entries.len(), 1);
    let e = &history.entries[0];
    assert_eq!(e.tone_name, "Improve Writing");
    assert_eq!(e.added_count, 2);
    assert_eq!(e.removed_count, 0);
    assert_eq!(e.word_count, 2);
    assert_eq!(e.sentence_count, 1);

    let bucket = day_bucket(&history, Date::new(2024, 1, 15).unwrap()).unwrap();
    assert_eq!(bucket.transformation_count, 1);
    assert_eq!(bucket.word_count, 2);
    assert_eq!(bucket.sentence_count, 1);
}

#[test]
fn test_retention_discards_oldest_only() {
    let mut history = TransformationHistory::default();
    history.max_entries = Some(2);
    history.add_entry(entry("first", "a", "b", ts(2024, 1, 15, 12), 1, 1));
    history.add_entry(entry("second", "a", "b", ts(2024, 1, 15, 13), 1, 1));
    assert_eq!(history.entries.len(), 2);
    history.add_entry(entry("third", "a", "b", ts(2024, 1, 15, 14), 1, 1));
    assert_eq!(history.entries.len(), 2);
    assert_eq!(history.entries[0].tone_name, "third");
    assert_eq!(history.entries[1].tone_name, "second");
}
