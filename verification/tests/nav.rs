use llrs::model::Chapter;
use llrs::nav::{advance, next_chapter_number, previous_chapter_number, Direction, NavAction};
use llrs::route::AppRoute;

fn chapter(number: &str) -> Chapter {
    Chapter {
        chapter_number: number.to_string(),
        chapter_name: format!("Chapter {}", number),
        creation_date: "2020-01-01T00:00:00".to_string(),
        release_date: "2020-01-02T00:00:00".to_string(),
        manga_id: 4,
    }
}

fn sorted_chapters() -> Vec<Chapter> {
    vec![chapter("1.5"), chapter("2"), chapter("10")]
}

fn expect_page_route(action: NavAction) -> (i32, String, usize) {
    match action {
        NavAction::Route(AppRoute::MangaChapterPage {
            manga_id,
            chapter_number,
            page_number,
        }) => (manga_id, chapter_number, page_number),
        _ => panic!("expected a page route"),
    }
}

#[test]
fn adjacent_chapters_follow_list_position() {
    let chs = sorted_chapters();
    assert_eq!(next_chapter_number(&chs, &"1.5".to_string()), "2");
    assert_eq!(next_chapter_number(&chs, &"2".to_string()), "10");
    assert_eq!(next_chapter_number(&chs, &"10".to_string()), "10");
    assert_eq!(previous_chapter_number(&chs, &"10".to_string()), "2");
    assert_eq!(previous_chapter_number(&chs, &"2".to_string()), "1.5");
    assert_eq!(previous_chapter_number(&chs, &"1.5".to_string()), "1.5");
}

#[test]
fn forward_then_backward_returns_to_the_same_page() {
    let chs = sorted_chapters();
    let cur = "2".to_string();
    for start in 1..5usize {
        let forward = advance(&chs, 4, &cur, 5, start, Direction::Forward);
        let (_, ch, page) = expect_page_route(forward);
        assert_eq!(ch, "2");
        assert_eq!(page, start + 1);
        let back = advance(&chs, 4, &cur, 5, page, Direction::Backward);
        let (_, ch2, page2) = expect_page_route(back);
        assert_eq!(ch2, "2");
        assert_eq!(page2, start);
    }
}

#[test]
fn forward_at_chapter_end_opens_the_next_chapter() {
    let chs = sorted_chapters();
    let action = advance(&chs, 4, &"2".to_string(), 5, 5, Direction::Forward);
    let (id, ch, page) = expect_page_route(action);
    assert_eq!(id, 4);
    assert_eq!(ch, "10");
    assert_eq!(page, 1);
}

#[test]
fn forward_at_manga_end_goes_to_the_chapter_list() {
    let chs = sorted_chapters();
    let action = advance(&chs, 4, &"10".to_string(), 5, 5, Direction::Forward);
    match action {
        NavAction::Route(AppRoute::ChapterList(id)) => assert_eq!(id, 4),
        _ => panic!("expected the chapter-list route"),
    }
}

#[test]
fn backward_at_page_one_fetches_the_previous_chapter() {
    let chs = sorted_chapters();
    let action = advance(&chs, 4, &"10".to_string(), 5, 1, Direction::Backward);
    match action {
        NavAction::FetchPages { chapter_number } => assert_eq!(chapter_number, "2"),
        _ => panic!("expected a fetch of the previous chapter's pages"),
    }
}

#[test]
fn backward_clamps_at_the_first_chapter() {
    let chs = sorted_chapters();
    let action = advance(&chs, 4, &"1.5".to_string(), 5, 1, Direction::Backward);
    let (_, ch, page) = expect_page_route(action);
    assert_eq!(ch, "1.5");
    assert_eq!(page, 1);
}

#[test]
fn backward_within_a_chapter_steps_one_page() {
    let chs = sorted_chapters();
    let action = advance(&chs, 4, &"2".to_string(), 5, 3, Direction::Backward);
    let (_, ch, page) = expect_page_route(action);
    assert_eq!(ch, "2");
    assert_eq!(page, 2);
}

#[test]
fn empty_chapter_list_keeps_the_position() {
    let chs: Vec<Chapter> = Vec::new();
    assert_eq!(next_chapter_number(&chs, &"3".to_string()), "3");
    assert_eq!(previous_chapter_number(&chs, &"3".to_string()), "3");
    let action = advance(&chs, 4, &"3".to_string(), 5, 5, Direction::Forward);
    match action {
        NavAction::Route(AppRoute::ChapterList(id)) => assert_eq!(id, 4),
        _ => panic!("expected the chapter-list route"),
    }
}

#[test]
fn unknown_chapter_walks_to_the_last_chapter() {
    let chs = sorted_chapters();
    assert_eq!(next_chapter_number(&chs, &"7".to_string()), "10");
    assert_eq!(previous_chapter_number(&chs, &"7".to_string()), "10");
}
