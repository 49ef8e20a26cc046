use cleromancy::journal::{
    filter_journal_summaries, format_relative_date, journal_page, JournalDateRange, DAY_MS,
    JOURNAL_PAGE_SIZE,
};
use cleromancy::reading::SelectionMode;
use cleromancy::summary::{SessionSummary, SummaryPlacement};

#[test]
fn relative_dates_use_elapsed_duration_buckets() {
    assert_eq!(format_relative_date(1_000, 1_000 + DAY_MS - 1), "today");
    assert_eq!(format_relative_date(1_000, 1_000 + DAY_MS), "yesterday");
    assert_eq!(format_relative_date(1_000, 1_000 + 2 * DAY_MS), "2 days ago");
}

#[test]
fn date_cutoff_is_inclusive() {
    let now_ms = 14 * DAY_MS;
    assert!(JournalDateRange::Past7Days.includes(7 * DAY_MS, now_ms));
    assert!(!JournalDateRange::Past7Days.includes(7 * DAY_MS - 1, now_ms));
    assert!(!JournalDateRange::Past7Days.includes(now_ms + 1, now_ms));
    assert_eq!(format_relative_date(now_ms + 1, now_ms), "in the future");
}


fn summary(id: &str, created_at_ms: u64, tags: &[&str]) -> SessionSummary {
    SessionSummary {
        session_id: id.to_string(),
        created_at_ms,
        context_label: format!("context {id}"),
        question: None,
        tags: tags.iter().map(|t| t.to_string()).collect(),
        context_digest: "c".repeat(64),
        field_digest: "f".repeat(64),
        placements: vec![SummaryPlacement {
            position: "focus".to_string(),
            title: "The Star".to_string(),
            candidate_id: "star".to_string(),
            mode: SelectionMode::Cast,
        }],
    }
}

#[test]
fn relative_dates_count_whole_days_after_two() {
    assert_eq!(format_relative_date(0, 5 * DAY_MS + 17), "5 days ago");
    assert_eq!(format_relative_date(0, 0), "today");
}

#[test]
fn date_range_labels_and_any_time() {
    assert_eq!(JournalDateRange::AnyTime.label(), "Any time");
    assert_eq!(JournalDateRange::Past7Days.label(), "Past 7 days");
    assert_eq!(JournalDateRange::Past30Days.label(), "Past 30 days");
    assert!(JournalDateRange::AnyTime.includes(u64::MAX, 0));
    assert!(JournalDateRange::Past30Days.includes(0, 29 * DAY_MS));
    assert_eq!(JournalDateRange::default(), JournalDateRange::AnyTime);
}

#[test]
fn tag_filter_is_trimmed_and_ignores_ascii_case() {
    let rows = vec![
        summary("a", 10, &["love"]),
        summary("b", 20, &["work"]),
        summary("c", 30, &["Love", "work"]),
    ];
    let found = filter_journal_summaries(&rows, "  LOVE ", JournalDateRange::AnyTime, 40);
    let ids: Vec<&str> = found.iter().map(|s| s.session_id.as_str()).collect();
    assert_eq!(ids, vec!["a", "c"]);
    let all = filter_journal_summaries(&rows, "   ", JournalDateRange::AnyTime, 40);
    assert_eq!(all.len(), 3);
}

#[test]
fn date_filter_drops_old_and_future_rows() {
    let now = 10 * DAY_MS;
    let rows = vec![
        summary("old", 2 * DAY_MS, &[]),
        summary("edge", 3 * DAY_MS, &[]),
        summary("future", now + 1, &[]),
    ];
    let found = filter_journal_summaries(&rows, "", JournalDateRange::Past7Days, now);
    let ids: Vec<&str> = found.iter().map(|s| s.session_id.as_str()).collect();
    assert_eq!(ids, vec!["edge"]);
}

#[test]
fn pages_are_bounded_and_clamped_to_the_last_page() {
    let rows: Vec<SessionSummary> = (0..45u64).map(|i| summary(&format!("s{i}"), i, &[])).collect();
    let first = journal_page(&rows, "", JournalDateRange::AnyTime, 100, 0);
    assert_eq!(first.total, 45);
    assert_eq!(first.page_count, 3);
    assert_eq!(first.summaries.len(), JOURNAL_PAGE_SIZE);
    assert_eq!(first.start(), 1);
    assert_eq!(first.end(), 20);
    let last = journal_page(&rows, "", JournalDateRange::AnyTime, 100, 99);
    assert_eq!(last.page_index, 2);
    assert_eq!(last.summaries.len(), 5);
    assert_eq!(last.summaries[0].session_id, "s40");
    assert_eq!(last.start(), 41);
    assert_eq!(last.end(), 45);
}

#[test]
fn an_empty_journal_has_one_empty_page() {
    let rows: Vec<SessionSummary> = Vec::new();
    let page = journal_page(&rows, "x", JournalDateRange::AnyTime, 0, 3);
    assert_eq!(page.page_count, 1);
    assert_eq!(page.page_index, 0);
    assert_eq!(page.total, 0);
    assert!(page.summaries.is_empty());
    assert_eq!(page.start(), 0);
    assert_eq!(page.end(), 0);
}
