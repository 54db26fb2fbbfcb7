//! The client-side route surface: where a navigation decision can land.

use vstd::prelude::*;
use vstd::string::StringExecFns;
use crate::catalog::{dec_digits, i32_to_string, int_str, usize_to_string};

verus! {

/// A position in the application: the catalog, one manga's chapter list,
/// one chapter (at page 1 or an explicit page), or the not-found display
/// with its optional message.
pub enum AppRoute {
    MangaChapterPage { manga_id: i32, chapter_number: String, page_number: usize },
    MangaChapter { manga_id: i32, chapter_number: String },
    ChapterList(i32),
    NotFound(Option<String>),
    Home,
}

/// The mathematical value of a route.
pub enum RouteView {
    MangaChapterPage { manga_id: int, chapter_number: Seq<char>, page_number: int },
    MangaChapter { manga_id: int, chapter_number: Seq<char> },
    ChapterList(int),
    NotFound(Option<Seq<char>>),
    Home,
}

impl View for AppRoute {
    type V = RouteView;

    open spec fn view(&self) -> RouteView {
        match self {
            AppRoute::MangaChapterPage { manga_id, chapter_number, page_number } => {
                RouteView::MangaChapterPage {
                    manga_id: *manga_id as int,
                    chapter_number: chapter_number@,
                    page_number: *page_number as int,
                }
            },
            AppRoute::MangaChapter { manga_id, chapter_number } => RouteView::MangaChapter {
                manga_id: *manga_id as int,
                chapter_number: chapter_number@,
            },
            AppRoute::ChapterList(manga_id) => RouteView::ChapterList(*manga_id as int),
            AppRoute::NotFound(msg) => RouteView::NotFound(
                match msg {
                    Some(m) => Some(m@),
                    None => None,
                },
            ),
            AppRoute::Home => RouteView::Home,
        }
    }
}

/// The URL path of a route.
pub open spec fn spec_route_path(r: RouteView) -> Seq<char> {
    match r {
        RouteView::MangaChapterPage { manga_id, chapter_number, page_number } => "/manga/"@
            + int_str(manga_id) + "/"@ + chapter_number + "/"@ + dec_digits(page_number),
        RouteView::MangaChapter { manga_id, chapter_number } => "/manga/"@ + int_str(manga_id)
            + "/"@ + chapter_number,
        RouteView::ChapterList(manga_id) => "/manga/"@ + int_str(manga_id),
        RouteView::NotFound(_) => "/page-not-found"@,
        RouteView::Home => "/"@,
    }
}

/// Renders a route as the URL path it navigates to.
pub fn route_path(r: &AppRoute) -> (s: String)
    ensures
        s@ == spec_route_path(r@),
{
    match r {
        AppRoute::MangaChapterPage { manga_id, chapter_number, page_number } => {
            let mut s = "/manga/".to_owned();
            let id = i32_to_string(*manga_id);
            s.append(id.as_str());
            s.append("/");
            s.append(chapter_number.as_str());
            s.append("/");
            let pn = usize_to_string(*page_number);
            s.append(pn.as_str());
            s
        },
        AppRoute::MangaChapter { manga_id, chapter_number } => {
            let mut s = "/manga/".to_owned();
            let id = i32_to_string(*manga_id);
            s.append(id.as_str());
            s.append("/");
            s.append(chapter_number.as_str());
            s
        },
        AppRoute::ChapterList(manga_id) => {
            let mut s = "/manga/".to_owned();
            let id = i32_to_string(*manga_id);
            s.append(id.as_str());
            s
        },
        AppRoute::NotFound(_) => "/page-not-found".to_owned(),
        AppRoute::Home => "/".to_owned(),
    }
}

} // verus!
