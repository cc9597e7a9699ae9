//! Tests of the row classifier and parser.

use hltb::{classify, classify_and_parse, collect_rows, Category, LookupError, StatisticSet};

fn row(cells: &[&str]) -> Vec<String> {
    cells.iter().map(|c| c.to_string()).collect()
}

#[test]
fn classify_accepted_labels() {
    assert_eq!(classify("Main Story"), Some(Category::MainStory));
    assert_eq!(classify("Main + Extra"), Some(Category::MainExtra));
    assert_eq!(classify("Main + Extras"), Some(Category::MainExtra));
    assert_eq!(classify("Completionist"), Some(Category::Completionist));
    assert_eq!(classify("Completionists"), Some(Category::Completionist));
    assert_eq!(classify("All PlayStyles"), Some(Category::AllStyles));
    assert_eq!(classify("Co-Op"), Some(Category::CoOp));
    assert_eq!(classify("Competitive"), Some(Category::Versus));
}

#[test]
fn classify_is_case_sensitive() {
    assert_eq!(classify("main story"), None);
    assert_eq!(classify("MAIN + EXTRAS"), None);
    assert_eq!(classify("co-op"), None);
}

#[test]
fn classify_unrecognized_is_none() {
    assert_eq!(classify("Single-Player"), None);
    assert_eq!(classify(""), None);
    assert_eq!(classify("Main Story "), None);
}

#[test]
fn classified_row_parses_four_cells() {
    let r = classify_and_parse(&row(&["Main Story", "1.2K", "4h 8m", "4h", "2h 45m", "7h 12m"]));
    assert_eq!(
        r,
        Ok(Some((
            Category::MainStory,
            StatisticSet {
                average: Some(4 * 3600 + 8 * 60),
                median: Some(4 * 3600),
                rushed: Some(2 * 3600 + 45 * 60),
                leisure: Some(7 * 3600 + 12 * 60),
            },
        )))
    );
}

#[test]
fn row_label_is_trimmed() {
    let r = classify_and_parse(&row(&[" Main + Extras ", "7", "5h", "-", "--", "6h"]));
    assert_eq!(
        r,
        Ok(Some((
            Category::MainExtra,
            StatisticSet {
                average: Some(5 * 3600),
                median: None,
                rushed: None,
                leisure: Some(6 * 3600),
            },
        )))
    );
}

#[test]
fn unrecognized_row_is_skipped_without_error() {
    assert_eq!(classify_and_parse(&row(&["Additional Content"])), Ok(None));
    assert_eq!(classify_and_parse(&row(&[])), Ok(None));
}

#[test]
fn classified_row_with_few_cells_is_malformed() {
    let r = classify_and_parse(&row(&["Main Story", "1.2K", "4h 8m"]));
    assert_eq!(r, Err(LookupError::MalformedResponse));
}

#[test]
fn collect_rows_fills_matching_slots() {
    let rows = vec![
        row(&["Co-Op", "9", "83 Hours", "-", "-", "-"]),
        row(&["Competitive", "4", "2h", "1h", "-", "3h"]),
        row(&["Spacer"]),
    ];
    let slots = collect_rows(&rows).unwrap();
    assert_eq!(slots.main_story, None);
    assert_eq!(slots.main_extra, None);
    assert_eq!(slots.completionist, None);
    assert_eq!(slots.all_styles, None);
    assert_eq!(slots.co_op.unwrap().average, Some(83 * 3600));
    assert_eq!(slots.versus.unwrap().average, Some(2 * 3600));
}

#[test]
fn collect_rows_last_write_wins() {
    let rows = vec![
        row(&["Main Story", "1", "4h", "4h", "4h", "4h"]),
        row(&["Main Story", "1", "5h", "5h", "5h", "5h"]),
    ];
    let slots = collect_rows(&rows).unwrap();
    assert_eq!(slots.main_story.unwrap().average, Some(5 * 3600));
}

#[test]
fn collect_rows_propagates_malformed_row() {
    let rows = vec![
        row(&["Main Story", "1", "4h", "4h", "4h", "4h"]),
        row(&["Co-Op", "too", "short"]),
    ];
    assert_eq!(collect_rows(&rows), Err(LookupError::MalformedResponse));
}
