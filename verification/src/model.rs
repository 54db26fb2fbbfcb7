//! Catalog records as they cross the wire: manga titles, chapters and pages.

use vstd::prelude::*;

verus! {

/// A manga title. Immutable once fetched; identified by `manga_id`.
#[derive(Clone, Debug)]
pub struct Manga {
    pub manga_id: i32,
    pub manga_name: String,
    pub author_names: Vec<String>,
    pub artist_names: Vec<String>,
    pub cover_image_url: String,
    /// An empty string means there is no purchase link.
    pub purchase_url: String,
}

/// A chapter of one manga. The chapter number is a numeric-carrying string
/// such as `"10.5"`; ordering of chapters goes by its numeric value, not by
/// the characters (see `chapter_order`). Timestamps travel as strings.
#[derive(Clone, Debug)]
pub struct Chapter {
    pub chapter_number: String,
    pub chapter_name: String,
    pub creation_date: String,
    pub release_date: String,
    pub manga_id: i32,
}

/// A page of one chapter: an image URL and a 1-based page number.
#[derive(Clone, Debug)]
pub struct Page {
    pub url_string: String,
    pub page_number: i32,
}

/// The identity of one logical data request: the whole manga list, the
/// chapter list of one manga, or the page list of one chapter. A fetch key
/// is both a cache key and the key that deduplicates in-flight requests.
pub enum FetchKey {
    AllManga,
    ChaptersFor { manga_id: i32 },
    PagesFor { manga_id: i32, chapter_number: String },
}

/// The mathematical value of a fetch key: its identity with the chapter
/// number taken as the character sequence it holds.
pub enum KeyView {
    AllManga,
    ChaptersFor { manga_id: int },
    PagesFor { manga_id: int, chapter_number: Seq<char> },
}

impl View for FetchKey {
    type V = KeyView;

    open spec fn view(&self) -> KeyView {
        match self {
            FetchKey::AllManga => KeyView::AllManga,
            FetchKey::ChaptersFor { manga_id } => KeyView::ChaptersFor {
                manga_id: *manga_id as int,
            },
            FetchKey::PagesFor { manga_id, chapter_number } => KeyView::PagesFor {
                manga_id: *manga_id as int,
                chapter_number: chapter_number@,
            },
        }
    }
}

impl Clone for FetchKey {
    fn clone(&self) -> (r: Self)
        ensures
            r@ == self@,
    {
        match self {
            FetchKey::AllManga => FetchKey::AllManga,
            FetchKey::ChaptersFor { manga_id } => FetchKey::ChaptersFor { manga_id: *manga_id },
            FetchKey::PagesFor { manga_id, chapter_number } => FetchKey::PagesFor {
                manga_id: *manga_id,
                chapter_number: chapter_number.clone(),
            },
        }
    }
}

/// Whether two fetch keys name the same logical request.
pub fn key_eq(a: &FetchKey, b: &FetchKey) -> (r: bool)
    ensures
        r == (a@ == b@),
{
    match (a, b) {
        (FetchKey::AllManga, FetchKey::AllManga) => true,
        (
            FetchKey::ChaptersFor { manga_id: ia },
            FetchKey::ChaptersFor { manga_id: ib },
        ) => *ia == *ib,
        (
            FetchKey::PagesFor { manga_id: ia, chapter_number: ca },
            FetchKey::PagesFor { manga_id: ib, chapter_number: cb },
        ) => *ia == *ib && *ca == *cb,
        _ => false,
    }
}

/// Finds the manga with the given id, returning the first match.
pub fn manga_by_id<'a>(mangas: &'a Vec<Manga>, manga_id: i32) -> (r: Option<&'a Manga>)
    ensures
        match r {
            Some(m) => exists|i: int|
                0 <= i < mangas@.len() && mangas@[i] == *m && mangas@[i].manga_id == manga_id,
            None => forall|i: int| 0 <= i < mangas@.len() ==> mangas@[i].manga_id != manga_id,
        },
{
    let mut idx: usize = 0;
    while idx < mangas.len()
        invariant
            idx <= mangas@.len(),
            forall|i: int| 0 <= i < idx ==> mangas@[i].manga_id != manga_id,
        decreases mangas@.len() - idx,
    {
        if mangas[idx].manga_id == manga_id {
            return Some(&mangas[idx]);
        }
        idx += 1;
    }
    None
}

} // verus!
