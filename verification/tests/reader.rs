use llrs::model::{Chapter, FetchKey, Page};
use llrs::nav::{Direction, NavAction};
use llrs::prefs::ViewPreference;
use llrs::reader::{LoadState, PositionChange, PreloadQueue, ReaderSession};
use llrs::route::AppRoute;

fn page(n: i32) -> Page {
    Page {
        url_string: format!("http://example.test/p{}.png", n),
        page_number: n,
    }
}

fn pages(count: i32) -> Vec<Page> {
    (1..=count).map(page).collect()
}

fn chapter(number: &str) -> Chapter {
    Chapter {
        chapter_number: number.to_string(),
        chapter_name: String::new(),
        creation_date: String::new(),
        release_date: String::new(),
        manga_id: 7,
    }
}

#[test]
fn a_fresh_session_loads_chapters_and_pages() {
    let s = ReaderSession::new(7, "3".to_string(), 1, 1_000_000);
    assert_eq!(s.load_state, LoadState::Loading);
    let requests = s.initial_requests();
    assert_eq!(requests.len(), 2);
    match &requests[0] {
        FetchKey::ChaptersFor { manga_id } => assert_eq!(*manga_id, 7),
        _ => panic!("the first request should be the chapter list"),
    }
    match &requests[1] {
        FetchKey::PagesFor {
            manga_id,
            chapter_number,
        } => {
            assert_eq!(*manga_id, 7);
            assert_eq!(chapter_number, "3");
        }
        _ => panic!("the second request should be the page list"),
    }
}

#[test]
fn an_empty_page_list_is_the_not_found_state() {
    let mut s = ReaderSession::new(7, "3".to_string(), 1, 0);
    let outcome = s.on_pages(7, "3".to_string(), Vec::new());
    assert_eq!(s.load_state, LoadState::NotFound);
    match outcome.route {
        Some(AppRoute::NotFound(Some(message))) => {
            assert_eq!(message, "Manga with ID 7 and Chapter 3 not found");
        }
        _ => panic!("an empty chapter should redirect to the not-found route"),
    }
    assert!(outcome.preload_first.is_none());
    assert!(outcome.scroll_to.is_none());
}

#[test]
fn a_stale_page_number_clamps_to_the_last_page() {
    let mut s = ReaderSession::new(7, "3".to_string(), 12, 0);
    let outcome = s.on_pages(7, "3".to_string(), pages(5));
    assert_eq!(s.load_state, LoadState::Ready);
    assert_eq!(s.page_number, 5);
    match outcome.route {
        Some(AppRoute::MangaChapterPage {
            manga_id,
            chapter_number,
            page_number,
        }) => {
            assert_eq!(manga_id, 7);
            assert_eq!(chapter_number, "3");
            assert_eq!(page_number, 5);
        }
        _ => panic!("a stale page number should emit a corrective route"),
    }
}

#[test]
fn page_zero_redirects_to_the_chapter_route() {
    let mut s = ReaderSession::new(7, "3".to_string(), 0, 0);
    let outcome = s.on_pages(7, "3".to_string(), pages(4));
    match outcome.route {
        Some(AppRoute::MangaChapter {
            manga_id,
            chapter_number,
        }) => {
            assert_eq!(manga_id, 7);
            assert_eq!(chapter_number, "3");
        }
        _ => panic!("page 0 should redirect to the chapter route"),
    }
}

#[test]
fn an_in_range_page_stays_and_scrolls() {
    let mut s = ReaderSession::new(7, "3".to_string(), 2, 0);
    let outcome = s.on_pages(7, "3".to_string(), pages(4));
    assert!(outcome.route.is_none());
    assert!(outcome.rerender);
    assert_eq!(outcome.scroll_to, Some(2));
    assert_eq!(s.page_number, 2);
    assert_eq!(s.visible, vec![false, true, false, false]);
}

#[test]
fn preloading_walks_out_from_the_current_page() {
    let mut s = ReaderSession::new(7, "3".to_string(), 3, 0);
    let outcome = s.on_pages(7, "3".to_string(), pages(5));
    assert_eq!(outcome.preload_first, Some(2));
    let mut order = vec![2];
    let mut last = 2;
    while let Some(next) = s.next_preload(last) {
        order.push(next);
        last = next;
    }
    assert_eq!(order, vec![2, 3, 4, 1, 0]);
}

#[test]
fn preloading_stops_when_nothing_is_shown() {
    let mut s = ReaderSession::new(7, "3".to_string(), 1, 0);
    let _ = s.on_pages(7, "3".to_string(), pages(3));
    assert!(s.next_preload(99).is_none());
    let mut queue = PreloadQueue::new();
    assert!(queue.pop_front().is_none());
    assert_eq!(queue.len(), 0);
}

#[test]
fn a_chapter_change_returns_to_loading() {
    let mut s = ReaderSession::new(7, "3".to_string(), 2, 0);
    let _ = s.on_pages(7, "3".to_string(), pages(4));
    let change = s.on_position(7, "4".to_string(), 1);
    assert!(matches!(change, PositionChange::FetchPages));
    assert_eq!(s.load_state, LoadState::Loading);
    assert_eq!(s.chapter_number, "4");
    assert_eq!(s.page_number, 1);
}

#[test]
fn a_move_within_the_chapter_scrolls() {
    let mut s = ReaderSession::new(7, "3".to_string(), 2, 0);
    let _ = s.on_pages(7, "3".to_string(), pages(4));
    match s.on_position(7, "3".to_string(), 3) {
        PositionChange::Scroll {
            page_number,
            smooth,
        } => {
            assert_eq!(page_number, 3);
            assert!(smooth);
        }
        _ => panic!("a move within the chapter should scroll"),
    }
    let _ = s.on_preference(ViewPreference::ContinuousScroll);
    match s.on_position(7, "3".to_string(), 4) {
        PositionChange::Scroll { smooth, .. } => assert!(!smooth),
        _ => panic!("a move within the chapter should scroll"),
    }
}

#[test]
fn advancing_backward_marks_open_at_last_page() {
    let mut s = ReaderSession::new(7, "2".to_string(), 1, 0);
    s.on_chapters(7, vec![chapter("1"), chapter("2")]);
    let _ = s.on_pages(7, "2".to_string(), pages(3));
    let action = s.advance(Direction::Backward, 1);
    assert!(s.should_set_to_last_page);
    match action {
        NavAction::FetchPages { chapter_number } => assert_eq!(chapter_number, "1"),
        _ => panic!("backward at page 1 should fetch the previous chapter"),
    }
    let outcome = s.on_pages(7, "1".to_string(), pages(6));
    assert_eq!(s.page_number, 6);
    match outcome.route {
        Some(AppRoute::MangaChapterPage { page_number, .. }) => assert_eq!(page_number, 6),
        _ => panic!("the previous chapter should open at its last page"),
    }
    let _ = s.advance(Direction::Forward, 6);
    assert!(!s.should_set_to_last_page);
}

#[test]
fn preference_changes_report_whether_anything_changed() {
    let mut s = ReaderSession::new(7, "3".to_string(), 1, 0);
    assert!(!s.on_preference(ViewPreference::SinglePage));
    assert!(s.on_preference(ViewPreference::ContinuousScroll));
    assert!(!s.on_preference(ViewPreference::ContinuousScroll));
    assert_eq!(s.view_pref, ViewPreference::ContinuousScroll);
}
