//! The reader session: one open chapter, its pages, and the state that
//! drives rendering, preloading and navigation.
//!
//! A session is `Loading` until its page list arrives, `Ready` when the
//! list is non-empty, and `NotFound` when the chapter resolved to an empty
//! list — a recoverable display state, not a fault. The session also owns
//! the preload queue that prefetches page images outward from the current
//! page, one at a time.

use vstd::prelude::*;
use crate::model::{Chapter, FetchKey, KeyView, Page};
use crate::chapter_order::chapters_sorted;
use crate::nav::{Direction, NavAction, spec_advance};
use crate::nav;
use crate::prefs::ViewPreference;
use crate::route::{AppRoute, RouteView};

verus! {

/// The three view states of a reader session: page list pending, present,
/// or known to be empty.
#[derive(Clone, Copy, Debug, PartialEq, Eq, Structural)]
pub enum LoadState {
    Loading,
    Ready,
    NotFound,
}

/// The queue of page indices to prefetch: the current page to the chapter's
/// end first, then from just before the current page back to the front, so
/// the most likely-needed images load first. One entry is popped per
/// completed prefetch — serialized on purpose, to bound bandwidth use.
pub struct PreloadQueue {
    queue: Vec<usize>,
}

impl View for PreloadQueue {
    type V = Seq<usize>;

    closed spec fn view(&self) -> Seq<usize> {
        self.queue@
    }
}

impl PreloadQueue {
    /// An empty queue.
    pub fn new() -> (r: PreloadQueue)
        ensures
            r@ == Seq::<usize>::empty(),
    {
        PreloadQueue { queue: Vec::new() }
    }

    /// Clears the queue and reseeds it for a chapter of `count` pages read
    /// at `start_index`: first `start_index..count` in order, then the
    /// indices before `start_index`, nearest first.
    pub fn reseed(&mut self, start_index: usize, count: usize)
        requires
            start_index <= count,
        ensures
            final(self)@.len() == count,
            forall|k: int|
                0 <= k < count - start_index ==> final(self)@[k] as int == start_index + k,
            forall|k: int|
                count - start_index <= k < count ==> final(self)@[k] as int == start_index - 1 - (
                k - (count - start_index)),
    {
        self.queue.clear();
        let mut i: usize = start_index;
        while i < count
            invariant
                start_index <= i <= count,
                self.queue@.len() == i - start_index,
                forall|k: int|
                    0 <= k < i - start_index ==> self.queue@[k] as int == start_index + k,
            decreases count - i,
        {
            self.queue.push(i);
            i += 1;
        }
        let mut j: usize = start_index;
        while j > 0
            invariant
                j <= start_index <= count,
                self.queue@.len() == (count - start_index) + (start_index - j),
                forall|k: int|
                    0 <= k < count - start_index ==> self.queue@[k] as int == start_index + k,
                forall|k: int|
                    count - start_index <= k < self.queue@.len() ==> self.queue@[k] as int
                        == start_index - 1 - (k - (count - start_index)),
            decreases j,
        {
            j -= 1;
            self.queue.push(j);
        }
    }

    /// Drops every queued prefetch.
    pub fn clear(&mut self)
        ensures
            final(self)@.len() == 0,
    {
        self.queue.clear();
    }

    /// Pops the next index to prefetch, if any.
    pub fn pop_front(&mut self) -> (r: Option<usize>)
        ensures
            match r {
                Some(idx) => old(self)@.len() > 0 && idx == old(self)@[0] && final(self)@
                    == old(self)@.skip(1),
                None => old(self)@.len() == 0 && final(self)@ == old(self)@,
            },
    {
        if self.queue.len() == 0 {
            return None;
        }
        let idx = self.queue.remove(0);
        proof {
            assert(self.queue@ =~= old(self)@.skip(1));
        }
        Some(idx)
    }

    /// How many prefetches are still queued.
    pub fn len(&self) -> (r: usize)
        ensures
            r == self@.len(),
    {
        self.queue.len()
    }
}

/// What a position change asks of the surroundings: fetch the new
/// chapter's pages, or scroll to a page of the one already shown —
/// smoothly in single-page mode, instantly in continuous scroll.
pub enum PositionChange {
    FetchPages,
    Scroll { page_number: usize, smooth: bool },
}

/// One open reading position: the manga, the chapter, the 1-based page,
/// the data fetched for them, and the scroll/preload bookkeeping.
pub struct ReaderSession {
    pub manga_id: i32,
    pub chapter_number: String,
    pub page_number: usize,
    /// The manga's chapters, sorted numerically; empty until fetched.
    pub chapters: Vec<Chapter>,
    /// The current chapter's pages; meaningful only when `Ready`.
    pub pages: Vec<Page>,
    pub load_state: LoadState,
    pub view_pref: ViewPreference,
    /// Set while paging backward across a chapter boundary: the incoming
    /// page list should open at its last page.
    pub should_set_to_last_page: bool,
    pub preload: PreloadQueue,
    /// Which pages are revealed in continuous scroll; one flag per page.
    pub visible: Vec<bool>,
    /// When a previous page was last revealed, for the scroll debounce.
    pub prior_render_ms: i64,
    pub prior_scroll_y: i64,
}

impl ReaderSession {
    /// Sorted chapters, visibility flags matching the pages, queued
    /// preloads in range, and no pages held outside `Ready`.
    pub open spec fn wf(&self) -> bool {
        &&& chapters_sorted(self.chapters@)
        &&& self.visible@.len() == self.pages@.len()
        &&& (self.load_state != LoadState::Ready ==> self.pages@.len() == 0)
        &&& forall|k: int|
            0 <= k < self.preload@.len() ==> (#[trigger] self.preload@[k]) < self.pages@.len()
    }

    /// The page count that navigation reckons with: the fetched page list's
    /// length, or the current page itself while the list is still loading —
    /// paging cannot cross anything it does not know yet.
    pub open spec fn page_count(&self) -> int {
        if self.load_state == LoadState::Loading {
            self.page_number as int
        } else {
            self.pages@.len() as int
        }
    }

    /// Opens a session at a position. It starts `Loading`, in single-page
    /// mode, with nothing fetched; `now_ms` is the clock reading, which
    /// primes the scroll debounce.
    pub fn new(manga_id: i32, chapter_number: String, page_number: usize, now_ms: i64) -> (r:
        ReaderSession)
        requires
            now_ms <= i64::MAX - 5000,
        ensures
            r.wf(),
            r.manga_id == manga_id,
            r.chapter_number@ == chapter_number@,
            r.page_number == page_number,
            r.load_state == LoadState::Loading,
            r.view_pref == ViewPreference::SinglePage,
            !r.should_set_to_last_page,
            r.chapters@.len() == 0,
            r.pages@.len() == 0,
            r.preload@.len() == 0,
            r.prior_render_ms == now_ms + 5000,
            r.prior_scroll_y == 0,
    {
        ReaderSession {
            manga_id,
            chapter_number,
            page_number,
            chapters: Vec::new(),
            pages: Vec::new(),
            load_state: LoadState::Loading,
            view_pref: ViewPreference::SinglePage,
            should_set_to_last_page: false,
            preload: PreloadQueue::new(),
            visible: Vec::new(),
            prior_render_ms: now_ms + 5000,
            prior_scroll_y: 0,
        }
    }

    /// The requests a fresh session issues through the coordinator: the
    /// manga's chapter list and the current chapter's page list.
    pub fn initial_requests(&self) -> (r: Vec<FetchKey>)
        ensures
            r@.len() == 2,
            r@[0]@ == (KeyView::ChaptersFor { manga_id: self.manga_id as int }),
            r@[1]@ == (KeyView::PagesFor {
                manga_id: self.manga_id as int,
                chapter_number: self.chapter_number@,
            }),
    {
        let mut r: Vec<FetchKey> = Vec::new();
        r.push(FetchKey::ChaptersFor { manga_id: self.manga_id });
        r.push(
            FetchKey::PagesFor {
                manga_id: self.manga_id,
                chapter_number: self.chapter_number.clone(),
            },
        );
        r
    }

    /// The manga's chapter list arrived.
    pub fn on_chapters(&mut self, manga_id: i32, chapters: Vec<Chapter>)
        requires
            old(self).wf(),
            chapters_sorted(chapters@),
        ensures
            final(self).wf(),
            final(self).manga_id == manga_id,
            final(self).chapters@ == chapters@,
            final(self).chapter_number@ == old(self).chapter_number@,
            final(self).page_number == old(self).page_number,
            final(self).pages@ == old(self).pages@,
            final(self).load_state == old(self).load_state,
            final(self).view_pref == old(self).view_pref,
            final(self).should_set_to_last_page == old(self).should_set_to_last_page,
            final(self).preload@ == old(self).preload@,
            final(self).visible@ == old(self).visible@,
    {
        self.manga_id = manga_id;
        self.chapters = chapters;
    }

    /// The user's view preference arrived or changed. The caller re-renders
    /// — and attaches the scroll observer for continuous scroll, or
    /// detaches it for single page — exactly when the answer is `true`.
    pub fn on_preference(&mut self, pref: ViewPreference) -> (changed: bool)
        requires
            old(self).wf(),
        ensures
            final(self).wf(),
            changed == (pref != old(self).view_pref),
            final(self).view_pref == pref,
            *final(self) == (ReaderSession { view_pref: pref, ..*old(self) }),
    {
        let changed = match (self.view_pref, pref) {
            (ViewPreference::SinglePage, ViewPreference::SinglePage) => false,
            (ViewPreference::ContinuousScroll, ViewPreference::ContinuousScroll) => false,
            _ => true,
        };
        self.view_pref = pref;
        changed
    }

    /// One forward or backward step from the page the reader is on.
    /// Backward remembers that an incoming page list should open at its
    /// last page; forward clears that mark.
    pub fn advance(&mut self, direction: Direction, current_page_number: usize) -> (r: NavAction)
        requires
            old(self).wf(),
            current_page_number < usize::MAX,
        ensures
            final(self).wf(),
            *final(self) == (ReaderSession {
                should_set_to_last_page: direction == Direction::Backward,
                ..*old(self)
            }),
            r@ == spec_advance(
                old(self).chapters@,
                old(self).manga_id as int,
                old(self).chapter_number@,
                old(self).page_count(),
                current_page_number as int,
                direction,
            ),
    {
        self.should_set_to_last_page = match direction {
            Direction::Backward => true,
            Direction::Forward => false,
        };
        let page_count: usize = match self.load_state {
            LoadState::Loading => self.page_number,
            _ => self.pages.len(),
        };
        nav::advance(
            &self.chapters,
            self.manga_id,
            &self.chapter_number,
            page_count,
            current_page_number,
            direction,
        )
    }

    /// The route moved the session to a new position. A change of chapter
    /// returns the session to `Loading` and asks for the new page list; a
    /// move within the chapter asks for a scroll to the page.
    pub fn on_position(&mut self, manga_id: i32, chapter_number: String, page_number: usize) -> (r:
        PositionChange)
        requires
            old(self).wf(),
        ensures
            final(self).wf(),
            final(self).manga_id == manga_id,
            final(self).chapter_number@ == chapter_number@,
            final(self).page_number == page_number,
            final(self).chapters@ == old(self).chapters@,
            final(self).view_pref == old(self).view_pref,
            final(self).should_set_to_last_page == old(self).should_set_to_last_page,
            if chapter_number@ != old(self).chapter_number@ {
                &&& r == PositionChange::FetchPages
                &&& final(self).load_state == LoadState::Loading
                &&& final(self).pages@.len() == 0
                &&& final(self).preload@.len() == 0
            } else {
                &&& r == (PositionChange::Scroll {
                    page_number,
                    smooth: old(self).view_pref == ViewPreference::SinglePage,
                })
                &&& final(self).load_state == old(self).load_state
                &&& final(self).pages@ == old(self).pages@
                &&& final(self).preload@ == old(self).preload@
            },
    {
        let same_chapter = self.chapter_number == chapter_number;
        self.manga_id = manga_id;
        self.chapter_number = chapter_number;
        self.page_number = page_number;
        if !same_chapter {
            self.load_state = LoadState::Loading;
            self.pages = Vec::new();
            self.visible = Vec::new();
            self.preload.clear();
            PositionChange::FetchPages
        } else {
            PositionChange::Scroll {
                page_number,
                smooth: match self.view_pref {
                    ViewPreference::SinglePage => true,
                    ViewPreference::ContinuousScroll => false,
                },
            }
        }
    }

    /// A prefetch for `page_index` is starting or has finished: hand out
    /// the next queued index, if the session still shows pages and the
    /// index is one of them.
    pub fn next_preload(&mut self, page_index: usize) -> (r: Option<usize>)
        requires
            old(self).wf(),
        ensures
            final(self).wf(),
            if old(self).load_state == LoadState::Ready && (page_index as int)
                < old(self).pages@.len() {
                &&& (old(self).preload@.len() > 0 ==> r == Some(old(self).preload@[0])
                    && final(self).preload@ == old(self).preload@.skip(1))
                &&& (old(self).preload@.len() == 0 ==> r is None && final(self).preload@
                    == old(self).preload@)
            } else {
                r is None && final(self).preload@ == old(self).preload@
            },
            *final(self) == (ReaderSession { preload: final(self).preload, ..*old(self) }),
    {
        let ready = match self.load_state {
            LoadState::Ready => true,
            _ => false,
        };
        if ready && page_index < self.pages.len() {
            self.preload.pop_front()
        } else {
            None
        }
    }
}

/// The message shown when a chapter has no pages.
pub open spec fn spec_not_found_message(manga_id: int, chapter_number: Seq<char>) -> Seq<char> {
    "Manga with ID "@ + crate::catalog::int_str(manga_id) + " and Chapter "@ + chapter_number
        + " not found"@
}

fn not_found_message(manga_id: i32, chapter_number: &String) -> (r: String)
    ensures
        r@ == spec_not_found_message(manga_id as int, chapter_number@),
{
    let mut s = "Manga with ID ".to_owned();
    let id = crate::catalog::i32_to_string(manga_id);
    s.append(id.as_str());
    s.append(" and Chapter ");
    s.append(chapter_number.as_str());
    s.append(" not found");
    s
}

/// What handling a page-list response produced: a corrective route to
/// dispatch, the first page index to prefetch, and whether and where to
/// scroll and re-render.
pub struct PagesOutcome {
    pub route: Option<AppRoute>,
    pub preload_first: Option<usize>,
    pub scroll_to: Option<usize>,
    pub rerender: bool,
}

impl ReaderSession {
    /// The page list of a chapter arrived. An empty list is the not-found
    /// condition: the session shows nothing and redirects to the not-found
    /// route instead of indexing page 0. A page number past the list — a
    /// stale link — or a pending open-at-last-page mark clamps to the last
    /// page with a corrective route; page 0 — a hand-edited URL — redirects
    /// to the chapter's first page. Otherwise the reader stays where it is,
    /// re-renders and scrolls to its page. Either way the preload queue is
    /// reseeded outward from the final page and the first prefetch starts,
    /// and exactly the final page is marked visible.
    pub fn on_pages(&mut self, manga_id: i32, chapter_number: String, pages: Vec<Page>) -> (r:
        PagesOutcome)
        requires
            old(self).wf(),
        ensures
            final(self).wf(),
            final(self).manga_id == manga_id,
            final(self).chapter_number@ == chapter_number@,
            final(self).chapters@ == old(self).chapters@,
            final(self).view_pref == old(self).view_pref,
            final(self).should_set_to_last_page == old(self).should_set_to_last_page,
            final(self).pages@ == pages@,
            final(self).load_state == if pages@.len() == 0 {
                LoadState::NotFound
            } else {
                LoadState::Ready
            },
            ({
                let n = pages@.len() as int;
                let p0 = old(self).page_number as int;
                let slp = old(self).should_set_to_last_page;
                if n == 0 {
                    &&& final(self).page_number == 0
                    &&& match r.route {
                        Some(rt) => rt@ == RouteView::NotFound(
                            Some(spec_not_found_message(manga_id as int, chapter_number@)),
                        ),
                        None => false,
                    }
                    &&& !r.rerender
                    &&& r.scroll_to is None
                } else if slp || p0 > n {
                    &&& final(self).page_number as int == n
                    &&& match r.route {
                        Some(rt) => rt@ == (RouteView::MangaChapterPage {
                            manga_id: manga_id as int,
                            chapter_number: chapter_number@,
                            page_number: n,
                        }),
                        None => false,
                    }
                    &&& !r.rerender
                    &&& r.scroll_to is None
                } else if p0 == 0 {
                    &&& final(self).page_number == 0
                    &&& match r.route {
                        Some(rt) => rt@ == (RouteView::MangaChapter {
                            manga_id: manga_id as int,
                            chapter_number: chapter_number@,
                        }),
                        None => false,
                    }
                    &&& !r.rerender
                    &&& r.scroll_to is None
                } else {
                    &&& final(self).page_number == old(self).page_number
                    &&& r.route is None
                    &&& r.rerender
                    &&& r.scroll_to == Some(old(self).page_number)
                }
            }),
            ({
                let target: int = if final(self).page_number >= 1 {
                    final(self).page_number - 1
                } else {
                    0
                };
                &&& final(self).visible@.len() == pages@.len()
                &&& forall|k: int|
                    0 <= k < pages@.len() ==> (#[trigger] final(self).visible@[k]) == (k == target)
            }),
            ({
                let n = pages@.len() as int;
                let start: int = if final(self).page_number >= 1 {
                    final(self).page_number - 1
                } else {
                    0
                };
                &&& (n == 0 ==> r.preload_first is None && final(self).preload@.len() == 0)
                &&& (n > 0 ==> {
                    &&& match r.preload_first {
                        Some(f) => f as int == start,
                        None => false,
                    }
                    &&& final(self).preload@.len() == n - 1
                    &&& forall|k: int|
                        0 <= k < n - 1 - start ==> (#[trigger] final(self).preload@[k]) as int
                            == start + 1 + k
                    &&& forall|k: int|
                        n - 1 - start <= k < n - 1 ==> (#[trigger] final(self).preload@[k]) as int
                            == start - 1 - (k - (n - 1 - start))
                })
            }),
    {
        self.manga_id = manga_id;
        self.chapter_number = chapter_number;
        let n = pages.len();
        let route: Option<AppRoute>;
        let mut rerender = false;
        let mut scroll_to: Option<usize> = None;
        if n == 0 {
            self.page_number = 0;
            let msg = not_found_message(self.manga_id, &self.chapter_number);
            route = Some(AppRoute::NotFound(Some(msg)));
            self.load_state = LoadState::NotFound;
        } else if self.should_set_to_last_page || self.page_number > n {
            self.page_number = n;
            route = Some(
                AppRoute::MangaChapterPage {
                    manga_id: self.manga_id,
                    chapter_number: self.chapter_number.clone(),
                    page_number: n,
                },
            );
            self.load_state = LoadState::Ready;
        } else if self.page_number == 0 {
            route = Some(
                AppRoute::MangaChapter {
                    manga_id: self.manga_id,
                    chapter_number: self.chapter_number.clone(),
                },
            );
            self.load_state = LoadState::Ready;
        } else {
            route = None;
            rerender = true;
            scroll_to = Some(self.page_number);
            self.load_state = LoadState::Ready;
        }
        let start: usize = if self.page_number >= 1 {
            self.page_number - 1
        } else {
            0
        };
        self.preload.reseed(start, n);
        let preload_first = self.preload.pop_front();
        let mut vis: Vec<bool> = Vec::new();
        let mut k: usize = 0;
        while k < n
            invariant
                k <= n,
                vis@.len() == k,
                forall|q: int| 0 <= q < k ==> (#[trigger] vis@[q]) == (q == start as int),
            decreases n - k,
        {
            vis.push(k == start);
            k += 1;
        }
        self.visible = vis;
        self.pages = pages;
        PagesOutcome { route, preload_first, scroll_to, rerender }
    }
}

} // verus!
