//! Scroll reconciliation for the continuous-scroll view.
//!
//! The view observes where the viewport stands against the rendered page
//! elements and reconciles that back into the canonical (chapter, page)
//! position: when the viewport's midpoint crosses into the next or previous
//! page's region the current page moves without a broadcast navigation, and
//! pages are revealed lazily as they approach the viewport — a previous
//! page only after a debounce window of about a second, so rapid scrolling
//! does not reveal them all at once.

use vstd::prelude::*;
use crate::prefs::ViewPreference;
use crate::reader::ReaderSession;

verus! {

/// One observation of the viewport, in integral pixels and milliseconds.
/// Element positions are `None` when the element is not rendered.
pub struct ScrollMeasure {
    pub viewport_height: i64,
    pub scroll_y: i64,
    pub document_height: i64,
    pub now_ms: i64,
    /// Top of the current page's element.
    pub current_top: Option<i64>,
    /// Bottom of the previous page's element.
    pub prev_bottom: Option<i64>,
    /// Top of the next page's element.
    pub next_top: Option<i64>,
}

impl ScrollMeasure {
    /// Plausible screen geometry and a clock that moves forward: what the
    /// arithmetic below needs to stay in range.
    pub open spec fn wf(&self) -> bool {
        &&& 0 <= self.viewport_height <= 0x1000_0000_0000
        &&& -0x1000_0000_0000 <= self.scroll_y <= 0x1000_0000_0000
        &&& -0x1000_0000_0000 <= self.document_height <= 0x1000_0000_0000
        &&& 0 <= self.now_ms <= 0x4_0000_0000_0000
    }
}

/// What one reconciliation produced: whether newly revealed pages call for
/// a re-render, and the page the canonical position moved to, to be
/// dispatched as a route change without broadcast.
pub struct ScrollOutcome {
    pub rerender: bool,
    pub reposition_to: Option<usize>,
}

/// Sets one visibility flag.
fn set_true(v: &mut Vec<bool>, idx: usize)
    requires
        idx < old(v)@.len(),
    ensures
        final(v)@ == old(v)@.update(idx as int, true),
{
    let _old_flag = v.remove(idx);
    v.insert(idx, true);
    proof {
        assert(v@ =~= old(v)@.update(idx as int, true));
    }
}

impl ReaderSession {
    /// Reconciles one scroll observation into the session. Active only in
    /// continuous scroll; the single-page view has nothing to reconcile.
    ///
    /// Crossing the viewport midpoint while scrolling up moves the position
    /// to the previous page; crossing while scrolling down moves it to the
    /// next. A previous page is revealed only when the current page's
    /// element sits below the viewport top and the debounce window has
    /// passed since the last reveal; the page after the final position is
    /// revealed when the scroll sits within 200 pixels of the document's
    /// bottom.
    pub fn reconcile_scroll(&mut self, m: &ScrollMeasure) -> (r: ScrollOutcome)
        requires
            old(self).wf(),
            m.wf(),
        ensures
            final(self).wf(),
            old(self).view_pref != ViewPreference::ContinuousScroll ==> *final(self) == *old(self)
                && !r.rerender && r.reposition_to is None,
            old(self).view_pref == ViewPreference::ContinuousScroll ==> ({
                let s0 = *old(self);
                let half = m.viewport_height / 2;
                let prev_exists = s0.page_number >= 2;
                let debounce = prev_exists && (match m.current_top {
                    Some(top) => m.now_ms - 1000 > s0.prior_render_ms && top > 0,
                    None => false,
                });
                let idx_prev: int = s0.page_number - 2;
                let reveal_prev = debounce && idx_prev < s0.visible@.len()
                    && !s0.visible@[idx_prev];
                let scrolled_up = prev_exists && (match m.prev_bottom {
                    Some(b) => b > half && m.scroll_y <= s0.prior_scroll_y,
                    None => false,
                });
                let went_prev = reveal_prev || scrolled_up;
                let p1: int = if went_prev {
                    s0.page_number - 1
                } else {
                    s0.page_number as int
                };
                let vis1 = if reveal_prev {
                    s0.visible@.update(idx_prev, true)
                } else {
                    s0.visible@
                };
                let next_exists = p1 + 1 <= s0.pages@.len();
                let went_next = next_exists && (match m.next_top {
                    Some(t) => t < half && s0.prior_scroll_y < m.scroll_y,
                    None => false,
                });
                let p2: int = if went_next {
                    p1 + 1
                } else {
                    p1
                };
                let near_bottom = next_exists && m.document_height - m.scroll_y
                    - m.viewport_height < 200;
                let reveal_next = near_bottom && 0 <= p2 < vis1.len() && !vis1[p2];
                &&& final(self).page_number as int == p2
                &&& final(self).visible@ == if reveal_next {
                    vis1.update(p2, true)
                } else {
                    vis1
                }
                &&& final(self).prior_render_ms == if debounce {
                    m.now_ms
                } else {
                    s0.prior_render_ms
                }
                &&& final(self).prior_scroll_y == m.scroll_y
                &&& r.rerender == (reveal_prev || reveal_next)
                &&& r.reposition_to == if went_next {
                    Some(p2 as usize)
                } else if went_prev {
                    Some(p1 as usize)
                } else {
                    None::<usize>
                }
                &&& final(self).manga_id == s0.manga_id
                &&& final(self).chapter_number@ == s0.chapter_number@
                &&& final(self).chapters@ == s0.chapters@
                &&& final(self).pages@ == s0.pages@
                &&& final(self).load_state == s0.load_state
                &&& final(self).view_pref == s0.view_pref
                &&& final(self).should_set_to_last_page == s0.should_set_to_last_page
                &&& final(self).preload@ == s0.preload@
            }),
    {
        let is_long = match self.view_pref {
            ViewPreference::ContinuousScroll => true,
            ViewPreference::SinglePage => false,
        };
        if !is_long {
            return ScrollOutcome { rerender: false, reposition_to: None };
        }
        let half = m.viewport_height / 2;
        let mut rerender = false;
        let mut reposition: Option<usize> = None;
        if self.page_number >= 2 {
            let prev = self.page_number - 1;
            let mut should_update = false;
            match m.current_top {
                Some(top) => {
                    if m.now_ms - 1000 > self.prior_render_ms && top > 0 {
                        self.prior_render_ms = m.now_ms;
                        let idx = prev - 1;
                        if idx < self.visible.len() && !self.visible[idx] {
                            set_true(&mut self.visible, idx);
                            rerender = true;
                            should_update = true;
                        }
                    }
                },
                None => {},
            }
            match m.prev_bottom {
                Some(bottom) => {
                    if bottom > half && m.scroll_y <= self.prior_scroll_y {
                        should_update = true;
                    }
                },
                None => {},
            }
            if should_update {
                self.page_number = prev;
                reposition = Some(prev);
            }
        }
        if self.page_number < self.pages.len() {
            let next = self.page_number + 1;
            match m.next_top {
                Some(top) => {
                    if top < half && self.prior_scroll_y < m.scroll_y {
                        self.page_number = next;
                        reposition = Some(next);
                    }
                },
                None => {},
            }
            if m.document_height - m.scroll_y - m.viewport_height < 200 {
                let idx = self.page_number;
                if idx < self.visible.len() && !self.visible[idx] {
                    set_true(&mut self.visible, idx);
                    rerender = true;
                }
            }
        }
        self.prior_scroll_y = m.scroll_y;
        ScrollOutcome { rerender, reposition_to: reposition }
    }
}

} // verus!
