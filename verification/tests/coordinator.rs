use llrs::coordinator::{CacheValue, Coordinator, RequestAction};
use llrs::model::{Chapter, FetchKey, Page};

fn chapters_key(manga_id: i32) -> FetchKey {
    FetchKey::ChaptersFor { manga_id }
}

fn pages_key(manga_id: i32, chapter: &str) -> FetchKey {
    FetchKey::PagesFor {
        manga_id,
        chapter_number: chapter.to_string(),
    }
}

fn chapter(number: &str) -> Chapter {
    Chapter {
        chapter_number: number.to_string(),
        chapter_name: format!("Chapter {}", number),
        creation_date: "2020-01-01T00:00:00".to_string(),
        release_date: "2020-01-02T00:00:00".to_string(),
        manga_id: 1,
    }
}

fn page(n: i32) -> Page {
    Page {
        url_string: format!("http://example.test/p{}.png", n),
        page_number: n,
    }
}

#[test]
fn concurrent_requests_share_one_fetch() {
    let mut c = Coordinator::new();
    let key = chapters_key(1);
    let mut fetches = 0;
    for sub in [10u64, 20, 30] {
        if c.request(&key, sub) == RequestAction::MustFetch {
            fetches += 1;
        }
    }
    assert_eq!(fetches, 1);
    let value = CacheValue::Chapters(vec![chapter("1"), chapter("2")]);
    let mut notified = c.resolve_success(&key, value);
    notified.sort();
    assert_eq!(notified, vec![10, 20, 30]);
}

#[test]
fn duplicate_registration_notifies_once() {
    let mut c = Coordinator::new();
    let key = pages_key(1, "2");
    assert_eq!(c.request(&key, 42), RequestAction::MustFetch);
    assert_eq!(c.request(&key, 42), RequestAction::AlreadyInFlight);
    let notified = c.resolve_success(&key, CacheValue::Pages(vec![page(1)]));
    assert_eq!(notified, vec![42]);
}

#[test]
fn cache_hits_never_start_a_fetch() {
    let mut c = Coordinator::new();
    let key = chapters_key(3);
    assert_eq!(c.request(&key, 1), RequestAction::MustFetch);
    let _ = c.resolve_success(&key, CacheValue::Chapters(vec![chapter("1")]));
    assert_eq!(c.request(&key, 2), RequestAction::Hit);
    assert_eq!(c.request(&key, 3), RequestAction::Hit);
    match c.cached(&key) {
        Some(CacheValue::Chapters(cs)) => assert_eq!(cs.len(), 1),
        _ => panic!("the chapter list should be cached"),
    }
    let notified = c.resolve_failure(&key);
    assert!(notified.is_empty());
    assert_eq!(c.request(&key, 4), RequestAction::Hit);
}

#[test]
fn failures_are_not_cached_and_a_later_request_retries() {
    let mut c = Coordinator::new();
    let key = pages_key(5, "1.5");
    assert_eq!(c.request(&key, 7), RequestAction::MustFetch);
    let notified = c.resolve_failure(&key);
    assert_eq!(notified, vec![7]);
    assert!(c.cached(&key).is_none());
    assert_eq!(c.request(&key, 7), RequestAction::MustFetch);
}

#[test]
fn resolution_clears_pending_so_nobody_hears_twice() {
    let mut c = Coordinator::new();
    let key = chapters_key(9);
    c.request(&key, 1);
    c.request(&key, 2);
    let first = c.resolve_success(&key, CacheValue::Chapters(vec![]));
    assert_eq!(first.len(), 2);
    let mut c2 = Coordinator::new();
    c2.request(&key, 1);
    let _ = c2.resolve_failure(&key);
    let again = c2.resolve_failure(&key);
    assert!(again.is_empty());
}

#[test]
fn unsubscribed_consumers_are_not_notified() {
    let mut c = Coordinator::new();
    let key = pages_key(2, "4");
    c.request(&key, 11);
    c.request(&key, 22);
    c.unsubscribe(&key, 11);
    let notified = c.resolve_success(&key, CacheValue::Pages(vec![page(1), page(2)]));
    assert_eq!(notified, vec![22]);
}

#[test]
fn distinct_keys_fetch_independently() {
    let mut c = Coordinator::new();
    assert_eq!(c.request(&chapters_key(1), 5), RequestAction::MustFetch);
    assert_eq!(c.request(&chapters_key(2), 5), RequestAction::MustFetch);
    assert_eq!(
        c.request(&pages_key(1, "1"), 5),
        RequestAction::MustFetch
    );
    assert_eq!(
        c.request(&pages_key(1, "2"), 5),
        RequestAction::MustFetch
    );
    assert_eq!(c.request(&FetchKey::AllManga, 5), RequestAction::MustFetch);
}
