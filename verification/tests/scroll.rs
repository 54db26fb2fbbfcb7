use llrs::model::Page;
use llrs::prefs::ViewPreference;
use llrs::reader::ReaderSession;
use llrs::scroll::ScrollMeasure;

fn page(n: i32) -> Page {
    Page {
        url_string: format!("http://example.test/p{}.png", n),
        page_number: n,
    }
}

fn session_on_page(page_number: usize, count: i32) -> ReaderSession {
    let mut s = ReaderSession::new(1, "2".to_string(), page_number, 0);
    let _ = s.on_pages(1, "2".to_string(), (1..=count).map(page).collect());
    let _ = s.on_preference(ViewPreference::ContinuousScroll);
    s
}

fn idle_measure() -> ScrollMeasure {
    ScrollMeasure {
        viewport_height: 800,
        scroll_y: 0,
        document_height: 4000,
        now_ms: 10_000,
        current_top: None,
        prev_bottom: None,
        next_top: None,
    }
}

#[test]
fn single_page_mode_reconciles_nothing() {
    let mut s = ReaderSession::new(1, "2".to_string(), 2, 0);
    let _ = s.on_pages(1, "2".to_string(), (1..=4).map(page).collect());
    let outcome = s.reconcile_scroll(&idle_measure());
    assert!(!outcome.rerender);
    assert!(outcome.reposition_to.is_none());
    assert_eq!(s.page_number, 2);
}

#[test]
fn crossing_the_midpoint_downward_moves_to_the_next_page() {
    let mut s = session_on_page(2, 4);
    s.prior_scroll_y = 100;
    let m = ScrollMeasure {
        scroll_y: 300,
        next_top: Some(350),
        ..idle_measure()
    };
    let outcome = s.reconcile_scroll(&m);
    assert_eq!(outcome.reposition_to, Some(3));
    assert_eq!(s.page_number, 3);
    assert_eq!(s.prior_scroll_y, 300);
}

#[test]
fn crossing_the_midpoint_upward_moves_to_the_previous_page() {
    let mut s = session_on_page(3, 4);
    s.prior_scroll_y = 500;
    let m = ScrollMeasure {
        scroll_y: 200,
        prev_bottom: Some(600),
        ..idle_measure()
    };
    let outcome = s.reconcile_scroll(&m);
    assert_eq!(outcome.reposition_to, Some(2));
    assert_eq!(s.page_number, 2);
}

#[test]
fn the_first_page_has_nowhere_back_to_go() {
    let mut s = session_on_page(1, 4);
    s.prior_scroll_y = 500;
    let m = ScrollMeasure {
        scroll_y: 200,
        prev_bottom: Some(600),
        ..idle_measure()
    };
    let outcome = s.reconcile_scroll(&m);
    assert!(outcome.reposition_to.is_none());
    assert_eq!(s.page_number, 1);
}

#[test]
fn previous_pages_reveal_only_after_the_debounce_window() {
    let mut s = session_on_page(3, 4);
    s.prior_render_ms = 9_500;
    let m = ScrollMeasure {
        now_ms: 10_000,
        current_top: Some(50),
        ..idle_measure()
    };
    let outcome = s.reconcile_scroll(&m);
    assert!(!outcome.rerender);
    assert!(!s.visible[1]);

    let late = ScrollMeasure {
        now_ms: 11_000,
        current_top: Some(50),
        ..idle_measure()
    };
    let outcome = s.reconcile_scroll(&late);
    assert!(outcome.rerender);
    assert!(s.visible[1]);
    assert_eq!(s.page_number, 2);
    assert_eq!(s.prior_render_ms, 11_000);
}

#[test]
fn nearing_the_document_bottom_reveals_the_next_page() {
    let mut s = session_on_page(2, 4);
    let m = ScrollMeasure {
        viewport_height: 800,
        scroll_y: 3100,
        document_height: 4000,
        ..idle_measure()
    };
    let outcome = s.reconcile_scroll(&m);
    assert!(outcome.rerender);
    assert!(s.visible[2]);
    assert_eq!(s.page_number, 2);
}
