use llrs::chapter_order::{chapter_cmp, sort_chapters, Rel};
use llrs::model::Chapter;

fn chapter(number: &str, name: &str) -> Chapter {
    Chapter {
        chapter_number: number.to_string(),
        chapter_name: name.to_string(),
        creation_date: "2020-01-01T00:00:00".to_string(),
        release_date: "2020-01-02T00:00:00".to_string(),
        manga_id: 1,
    }
}

fn numbers(chapters: &[Chapter]) -> Vec<&str> {
    chapters.iter().map(|c| c.chapter_number.as_str()).collect()
}

#[test]
fn sorts_numerically_not_lexicographically() {
    let sorted = sort_chapters(vec![chapter("2", "b"), chapter("10", "c"), chapter("1.5", "a")]);
    assert_eq!(numbers(&sorted), vec!["1.5", "2", "10"]);
}

#[test]
fn sorts_fractions_and_integers_together() {
    let sorted = sort_chapters(vec![
        chapter("3", ""),
        chapter("0.5", ""),
        chapter("2.25", ""),
        chapter("2.3", ""),
        chapter("11", ""),
        chapter("0", ""),
    ]);
    assert_eq!(numbers(&sorted), vec!["0", "0.5", "2.25", "2.3", "3", "11"]);
}

#[test]
fn non_numeric_chapter_numbers_count_as_zero() {
    let sorted = sort_chapters(vec![
        chapter("1", ""),
        chapter("extra", ""),
        chapter("-1", ""),
        chapter("0.5", ""),
    ]);
    assert_eq!(numbers(&sorted), vec!["-1", "extra", "0.5", "1"]);
}

#[test]
fn equal_values_keep_their_relative_order() {
    let sorted = sort_chapters(vec![
        chapter("2.0", "first of the pair"),
        chapter("1", ""),
        chapter("2", "second of the pair"),
    ]);
    assert_eq!(numbers(&sorted), vec!["1", "2.0", "2"]);
    assert_eq!(sorted[1].chapter_name, "first of the pair");
}

#[test]
fn compare_basic_numerals() {
    assert_eq!(chapter_cmp("2", "10"), Rel::Lt);
    assert_eq!(chapter_cmp("10", "2"), Rel::Gt);
    assert_eq!(chapter_cmp("10", "10"), Rel::Eq);
    assert_eq!(chapter_cmp("1.5", "2"), Rel::Lt);
    assert_eq!(chapter_cmp("10.5", "10.25"), Rel::Gt);
    assert_eq!(chapter_cmp("0.5", "0.52"), Rel::Lt);
    assert_eq!(chapter_cmp("0.5", "0.45"), Rel::Gt);
}

#[test]
fn compare_normalizes_leading_and_trailing_zeros() {
    assert_eq!(chapter_cmp("02", "2"), Rel::Eq);
    assert_eq!(chapter_cmp("2.50", "2.5"), Rel::Eq);
    assert_eq!(chapter_cmp("002.500", "2.5"), Rel::Eq);
    assert_eq!(chapter_cmp("0", "0.0"), Rel::Eq);
}

#[test]
fn compare_accepts_sign_and_bare_dot_forms() {
    assert_eq!(chapter_cmp("-1", "1"), Rel::Lt);
    assert_eq!(chapter_cmp("-2", "-10"), Rel::Gt);
    assert_eq!(chapter_cmp("+1.5", "1.5"), Rel::Eq);
    assert_eq!(chapter_cmp("-0", "0"), Rel::Eq);
    assert_eq!(chapter_cmp(".5", "0.5"), Rel::Eq);
    assert_eq!(chapter_cmp("1.", "1"), Rel::Eq);
}

#[test]
fn compare_treats_malformed_text_as_zero() {
    assert_eq!(chapter_cmp("bonus", "0"), Rel::Eq);
    assert_eq!(chapter_cmp("bonus", "extra"), Rel::Eq);
    assert_eq!(chapter_cmp("1.2.3", "0"), Rel::Eq);
    assert_eq!(chapter_cmp("", "0"), Rel::Eq);
    assert_eq!(chapter_cmp("-", "0"), Rel::Eq);
    assert_eq!(chapter_cmp(".", "0"), Rel::Eq);
    assert_eq!(chapter_cmp("1 0", "0"), Rel::Eq);
    assert_eq!(chapter_cmp("oops", "0.5"), Rel::Lt);
    assert_eq!(chapter_cmp("oops", "-0.5"), Rel::Gt);
}

#[test]
fn compare_handles_numbers_past_machine_precision() {
    assert_eq!(
        chapter_cmp(
            "123456789012345678901234567890",
            "123456789012345678901234567891"
        ),
        Rel::Lt
    );
    assert_eq!(
        chapter_cmp("123456789012345678901234567890", "99999999999999999999"),
        Rel::Gt
    );
}

#[test]
fn sorting_twice_changes_nothing() {
    let once = sort_chapters(vec![
        chapter("7", ""),
        chapter("1.5", ""),
        chapter("codex", ""),
        chapter("0.1", ""),
    ]);
    let expected = numbers(&once)
        .into_iter()
        .map(|s| s.to_string())
        .collect::<Vec<_>>();
    let twice = sort_chapters(once);
    assert_eq!(numbers(&twice), expected);
}
