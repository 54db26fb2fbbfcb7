//! The reader's forward/back navigation.
//!
//! Given the sorted chapter list, the current position and a direction, the
//! functions here decide the next position: the next or previous page, the
//! first page of the next chapter, the last page of the previous chapter —
//! reached by fetching that chapter's pages first — or, past the last page
//! of the last chapter, the manga's chapter list. Chapter adjacency goes by
//! position in the cached, numerically sorted chapter sequence, never by
//! arithmetic on the chapter-number string.

use vstd::prelude::*;
use crate::model::Chapter;
use crate::route::{AppRoute, RouteView};

verus! {

/// Which way the reader pages.
#[derive(Clone, Copy, Debug, PartialEq, Eq, Structural)]
pub enum Direction {
    Forward,
    Backward,
}

/// What an advance decides: go to a route now, or fetch the pages of an
/// adjacent chapter first (crossing backward lands on its last page, which
/// is unknown until the page list arrives).
pub enum NavAction {
    Route(AppRoute),
    FetchPages { chapter_number: String },
}

/// The mathematical value of a navigation decision.
pub enum NavActionView {
    Route(RouteView),
    FetchPages { chapter_number: Seq<char> },
}

impl View for NavAction {
    type V = NavActionView;

    open spec fn view(&self) -> NavActionView {
        match self {
            NavAction::Route(r) => NavActionView::Route(r@),
            NavAction::FetchPages { chapter_number } => NavActionView::FetchPages {
                chapter_number: chapter_number@,
            },
        }
    }
}

/// Index of the first chapter carrying this chapter number, if any.
pub open spec fn first_chapter_index(chs: Seq<Chapter>, cur: Seq<char>) -> Option<int>
    decreases chs.len(),
{
    if chs.len() == 0 {
        None
    } else if chs[0].chapter_number@ == cur {
        Some(0int)
    } else {
        match first_chapter_index(chs.skip(1), cur) {
            None => None,
            Some(i) => Some(i + 1),
        }
    }
}

/// `first_chapter_index` finds the first occurrence.
pub proof fn lemma_first_chapter_index(chs: Seq<Chapter>, cur: Seq<char>)
    ensures
        match first_chapter_index(chs, cur) {
            Some(i) => 0 <= i < chs.len() && chs[i].chapter_number@ == cur && forall|j: int|
                0 <= j < i ==> chs[j].chapter_number@ != cur,
            None => forall|j: int| 0 <= j < chs.len() ==> chs[j].chapter_number@ != cur,
        },
    decreases chs.len(),
{
    if chs.len() > 0 && chs[0].chapter_number@ != cur {
        lemma_first_chapter_index(chs.skip(1), cur);
        match first_chapter_index(chs.skip(1), cur) {
            None => {
                assert forall|j: int| 0 <= j < chs.len() implies chs[j].chapter_number@ != cur by {
                    if j > 0 {
                        assert(chs.skip(1)[j - 1] == chs[j]);
                    }
                }
            },
            Some(i) => {
                assert(chs.skip(1)[i] == chs[i + 1]);
                assert forall|j: int| 0 <= j < i + 1 implies chs[j].chapter_number@ != cur by {
                    if j > 0 {
                        assert(chs.skip(1)[j - 1] == chs[j]);
                    }
                }
            },
        }
    }
}

/// The chapter read after `cur`: the one following it in the list. At the
/// end of the list — and when `cur` is not in the list, where the walk ends
/// on the last chapter — the current number is kept, except that a list
/// that misses `cur` answers its last chapter.
pub open spec fn spec_next_chapter(chs: Seq<Chapter>, cur: Seq<char>) -> Seq<char> {
    match first_chapter_index(chs, cur) {
        Some(i) => if i + 1 < chs.len() {
            chs[i + 1].chapter_number@
        } else {
            cur
        },
        None => if chs.len() > 0 {
            chs[chs.len() - 1].chapter_number@
        } else {
            cur
        },
    }
}

/// The chapter read before `cur`: the one preceding it in the list; the
/// first chapter keeps the current number. A list that misses `cur`
/// answers its last chapter.
pub open spec fn spec_prev_chapter(chs: Seq<Chapter>, cur: Seq<char>) -> Seq<char> {
    match first_chapter_index(chs, cur) {
        Some(i) => if i > 0 {
            chs[i - 1].chapter_number@
        } else {
            cur
        },
        None => if chs.len() > 0 {
            chs[chs.len() - 1].chapter_number@
        } else {
            cur
        },
    }
}

/// Index of the first chapter whose number equals `current`, if any.
fn find_chapter(chapters: &Vec<Chapter>, current: &String) -> (r: Option<usize>)
    ensures
        first_chapter_index(chapters@, current@) == match r {
            Some(i) => Some(i as int),
            None => None::<int>,
        },
{
    proof {
        lemma_first_chapter_index(chapters@, current@);
    }
    let mut i: usize = 0;
    while i < chapters.len()
        invariant
            i <= chapters@.len(),
            forall|j: int| 0 <= j < i ==> chapters@[j].chapter_number@ != current@,
        decreases chapters@.len() - i,
    {
        if chapters[i].chapter_number == *current {
            proof {
                lemma_first_chapter_index(chapters@, current@);
                match first_chapter_index(chapters@, current@) {
                    None => {
                        assert(false);
                    },
                    Some(fi) => {
                        if fi < i as int {
                            assert(chapters@[fi].chapter_number@ != current@);
                            assert(false);
                        }
                        if fi > i as int {
                            assert(chapters@[i as int].chapter_number@ != current@);
                            assert(false);
                        }
                    },
                }
            }
            return Some(i);
        }
        i += 1;
    }
    proof {
        lemma_first_chapter_index(chapters@, current@);
        match first_chapter_index(chapters@, current@) {
            None => {},
            Some(fi) => {
                assert(chapters@[fi].chapter_number@ != current@);
                assert(false);
            },
        }
    }
    None
}

/// The chapter number read after `current` in the sorted list.
pub fn next_chapter_number(chapters: &Vec<Chapter>, current: &String) -> (r: String)
    ensures
        r@ == spec_next_chapter(chapters@, current@),
{
    proof {
        lemma_first_chapter_index(chapters@, current@);
    }
    let n = chapters.len();
    match find_chapter(chapters, current) {
        Some(i) => {
            proof {
                assert(i < n);
            }
            if i + 1 < n {
                chapters[i + 1].chapter_number.clone()
            } else {
                current.clone()
            }
        },
        None => {
            if chapters.len() > 0 {
                chapters[chapters.len() - 1].chapter_number.clone()
            } else {
                current.clone()
            }
        },
    }
}

/// The chapter number read before `current` in the sorted list.
pub fn previous_chapter_number(chapters: &Vec<Chapter>, current: &String) -> (r: String)
    ensures
        r@ == spec_prev_chapter(chapters@, current@),
{
    proof {
        lemma_first_chapter_index(chapters@, current@);
    }
    match find_chapter(chapters, current) {
        Some(i) => {
            if i > 0 {
                chapters[i - 1].chapter_number.clone()
            } else {
                current.clone()
            }
        },
        None => {
            if chapters.len() > 0 {
                chapters[chapters.len() - 1].chapter_number.clone()
            } else {
                current.clone()
            }
        },
    }
}

/// What one advance decides, as a function of the chapter list, the
/// position, and the page count of the current chapter.
///
/// Forward from an interior page is the next page; from the last page it is
/// page 1 of the next chapter, and past the end of the last chapter it is
/// the manga's chapter list. Backward from an interior page is the previous
/// page; from page 1 it crosses to the previous chapter — whose pages must
/// be fetched to land on its last page — and clamps at page 1 of the first
/// chapter.
pub open spec fn spec_advance(
    chs: Seq<Chapter>,
    manga_id: int,
    cur: Seq<char>,
    page_count: int,
    page: int,
    dir: Direction,
) -> NavActionView {
    match dir {
        Direction::Forward => {
            let next_ch = if page == page_count {
                spec_next_chapter(chs, cur)
            } else {
                cur
            };
            if next_ch == cur {
                if page + 1 > page_count {
                    NavActionView::Route(RouteView::ChapterList(manga_id))
                } else {
                    NavActionView::Route(
                        RouteView::MangaChapterPage {
                            manga_id,
                            chapter_number: cur,
                            page_number: page + 1,
                        },
                    )
                }
            } else {
                NavActionView::Route(
                    RouteView::MangaChapterPage {
                        manga_id,
                        chapter_number: next_ch,
                        page_number: 1,
                    },
                )
            }
        },
        Direction::Backward => {
            let prev_ch = if page == 1 {
                spec_prev_chapter(chs, cur)
            } else {
                cur
            };
            if prev_ch != cur {
                NavActionView::FetchPages { chapter_number: prev_ch }
            } else {
                NavActionView::Route(
                    RouteView::MangaChapterPage {
                        manga_id,
                        chapter_number: cur,
                        page_number: if page >= 2 {
                            page - 1
                        } else {
                            1
                        },
                    },
                )
            }
        },
    }
}

/// Decides the reader's next position for one forward or backward step.
pub fn advance(
    chapters: &Vec<Chapter>,
    manga_id: i32,
    chapter_number: &String,
    page_count: usize,
    current_page: usize,
    direction: Direction,
) -> (r: NavAction)
    requires
        current_page < usize::MAX,
    ensures
        r@ == spec_advance(
            chapters@,
            manga_id as int,
            chapter_number@,
            page_count as int,
            current_page as int,
            direction,
        ),
{
    match direction {
        Direction::Forward => {
            let next_ch: String = if current_page == page_count {
                next_chapter_number(chapters, chapter_number)
            } else {
                chapter_number.clone()
            };
            if next_ch == *chapter_number {
                if current_page + 1 > page_count {
                    NavAction::Route(AppRoute::ChapterList(manga_id))
                } else {
                    NavAction::Route(
                        AppRoute::MangaChapterPage {
                            manga_id,
                            chapter_number: chapter_number.clone(),
                            page_number: current_page + 1,
                        },
                    )
                }
            } else {
                NavAction::Route(
                    AppRoute::MangaChapterPage {
                        manga_id,
                        chapter_number: next_ch,
                        page_number: 1,
                    },
                )
            }
        },
        Direction::Backward => {
            let prev_ch: String = if current_page == 1 {
                previous_chapter_number(chapters, chapter_number)
            } else {
                chapter_number.clone()
            };
            if !(prev_ch == *chapter_number) {
                NavAction::FetchPages { chapter_number: prev_ch }
            } else {
                let prev_page: usize = if current_page >= 2 {
                    current_page - 1
                } else {
                    1
                };
                NavAction::Route(
                    AppRoute::MangaChapterPage {
                        manga_id,
                        chapter_number: chapter_number.clone(),
                        page_number: prev_page,
                    },
                )
            }
        },
    }
}

/// The navigation round trip: from any interior page — at least 1, below
/// the chapter's page count — forward lands on the next page, and backward
/// from there returns to the very page and chapter the reader left.
pub proof fn lemma_navigation_round_trip(
    chs: Seq<Chapter>,
    manga_id: int,
    cur: Seq<char>,
    page_count: int,
    page: int,
)
    requires
        1 <= page < page_count,
    ensures
        spec_advance(chs, manga_id, cur, page_count, page, Direction::Forward)
            == NavActionView::Route(
            RouteView::MangaChapterPage {
                manga_id,
                chapter_number: cur,
                page_number: page + 1,
            },
        ),
        spec_advance(chs, manga_id, cur, page_count, page + 1, Direction::Backward)
            == NavActionView::Route(
            RouteView::MangaChapterPage { manga_id, chapter_number: cur, page_number: page },
        ),
{
}

/// Crossing a chapter boundary forward: at the last page of a chapter that
/// has a successor in the list, forward lands on page 1 of that successor;
/// at the last page of the last chapter it lands on the manga's chapter
/// list instead. The chapter numbers in the list must be distinct for the
/// position of the current chapter to be meaningful.
pub proof fn lemma_chapter_boundary_forward(
    chs: Seq<Chapter>,
    manga_id: int,
    i: int,
    page_count: int,
)
    requires
        0 <= i < chs.len(),
        page_count >= 1,
        forall|a: int, b: int|
            0 <= a < b < chs.len() ==> chs[a].chapter_number@ != chs[b].chapter_number@,
    ensures
        i + 1 < chs.len() ==> spec_advance(
            chs,
            manga_id,
            chs[i].chapter_number@,
            page_count,
            page_count,
            Direction::Forward,
        ) == NavActionView::Route(
            RouteView::MangaChapterPage {
                manga_id,
                chapter_number: chs[i + 1].chapter_number@,
                page_number: 1,
            },
        ),
        i + 1 == chs.len() ==> spec_advance(
            chs,
            manga_id,
            chs[i].chapter_number@,
            page_count,
            page_count,
            Direction::Forward,
        ) == NavActionView::Route(RouteView::ChapterList(manga_id)),
{
    let cur = chs[i].chapter_number@;
    lemma_first_chapter_index(chs, cur);
    match first_chapter_index(chs, cur) {
        None => {
            assert(false);
        },
        Some(fi) => {
            if fi < i {
                assert(chs[fi].chapter_number@ != chs[i].chapter_number@);
                assert(false);
            }
            if fi > i {
                assert(chs[i].chapter_number@ != cur);
                assert(false);
            }
            if i + 1 < chs.len() {
                assert(chs[i].chapter_number@ != chs[i + 1].chapter_number@);
            }
        },
    }
}

} // verus!
