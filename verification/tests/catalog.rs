use llrs::catalog::{i32_to_string, request_path, u64_to_string, usize_to_string, FetchError};
use llrs::model::FetchKey;
use llrs::route::{route_path, AppRoute};

#[test]
fn numerals_render_in_decimal() {
    assert_eq!(u64_to_string(0), "0");
    assert_eq!(u64_to_string(7), "7");
    assert_eq!(u64_to_string(10), "10");
    assert_eq!(u64_to_string(90210), "90210");
    assert_eq!(u64_to_string(u64::MAX), "18446744073709551615");
    assert_eq!(usize_to_string(42), "42");
    assert_eq!(i32_to_string(0), "0");
    assert_eq!(i32_to_string(123), "123");
    assert_eq!(i32_to_string(-1), "-1");
    assert_eq!(i32_to_string(i32::MIN), "-2147483648");
    assert_eq!(i32_to_string(i32::MAX), "2147483647");
}

#[test]
fn request_paths_follow_the_backend_surface() {
    assert_eq!(request_path(&FetchKey::AllManga), "/");
    assert_eq!(
        request_path(&FetchKey::ChaptersFor { manga_id: 42 }),
        "/manga/42"
    );
    assert_eq!(
        request_path(&FetchKey::PagesFor {
            manga_id: 42,
            chapter_number: "10.5".to_string(),
        }),
        "/manga/42/10.5"
    );
    assert_eq!(
        request_path(&FetchKey::ChaptersFor { manga_id: -7 }),
        "/manga/-7"
    );
}

#[test]
fn route_paths_follow_the_client_surface() {
    assert_eq!(route_path(&AppRoute::Home), "/");
    assert_eq!(route_path(&AppRoute::ChapterList(3)), "/manga/3");
    assert_eq!(
        route_path(&AppRoute::MangaChapter {
            manga_id: 3,
            chapter_number: "10.5".to_string(),
        }),
        "/manga/3/10.5"
    );
    assert_eq!(
        route_path(&AppRoute::MangaChapterPage {
            manga_id: 3,
            chapter_number: "10.5".to_string(),
            page_number: 12,
        }),
        "/manga/3/10.5/12"
    );
    assert_eq!(
        route_path(&AppRoute::NotFound(Some("gone".to_string()))),
        "/page-not-found"
    );
    assert_eq!(route_path(&AppRoute::NotFound(None)), "/page-not-found");
}

#[test]
fn fetch_errors_carry_their_kind() {
    assert_eq!(FetchError::Transport, FetchError::Transport);
    assert_ne!(FetchError::Transport, FetchError::Decode);
    assert_ne!(FetchError::Decode, FetchError::Status);
}
