//! The navigation engine. Holds the live session: the ordered sources, the
//! session's total page count, and the sliding window of decoded pages. The
//! reader steps forward and backward through the session; the window slides
//! with it, rendering newly exposed pages and evicting those that fall out
//! of range, crossing source boundaries transparently.

use vstd::prelude::*;
use crate::sequencer::{
    counts_of, locate, locate_spec, prefix_pages, total_pages, lemma_locate_spec_valid,
    lemma_prefix_pages_step, lemma_locate_spec_prefix,
};
use crate::source::Source;
use crate::window::{
    lemma_preserves_trans,
    covers, entry_at, preserves, PageEntry, Window, EXTRA_PAGES_AT_ENDS, WINDOW_CAPACITY,
};

verus! {

/// The navigation engine of one reading session.
pub struct Server {
    /// The ordered sources supplying the session's pages.
    pub sources: Vec<Source>,
    /// Total pages over all sources, fixed when the session is set.
    pub page_count: usize,
    /// The sliding window of decoded pages around the reading position.
    pub page_store: Window,
}

impl Server {
    /// The per-source page counts of the live session.
    pub open spec fn counts(self) -> Seq<nat> {
        counts_of(self.sources@)
    }

    /// Structural soundness of the whole engine: the stored total matches
    /// the sources, every source is sound and contributes at least one
    /// page, and the window buffers existing pages only.
    pub open spec fn wf(self) -> bool {
        &&& self.page_count == total_pages(self.counts())
        &&& forall|i: int|
            0 <= i < self.sources@.len() ==> (#[trigger] self.sources@[i]).wf()
                && self.sources@[i].page_count > 0
        &&& crate::builder::sorted_by_name(self.sources@)
        &&& self.page_store.wf()
        &&& self.page_store.spec_len() > 0 ==> self.page_store.tail_global() < self.page_count
    }

    /// The two states describe the same session: same sources (identity and
    /// page counts) and the same total.
    pub open spec fn same_session(a: Server, b: Server) -> bool {
        &&& a.sources@.len() == b.sources@.len()
        &&& forall|i: int|
            0 <= i < a.sources@.len() ==> (#[trigger] a.sources@[i]).same_identity(b.sources@[i])
        &&& a.page_count == b.page_count
    }

    /// The decoder-handle discipline of one engine step: every source
    /// whose state the step touched holds its handle only while pages
    /// remain unrendered on both of its ends — a source whose last page in
    /// the direction of travel was just rendered has released it.
    pub open spec fn handles_disciplined(a: Server, b: Server) -> bool {
        forall|k: int|
            0 <= k < b.sources@.len() ==> ((#[trigger] b.sources@[k]).handle_open() ==> (0
                < b.sources@[k].current_page < b.sources@[k].page_count) || b.sources@[k]
                == a.sources@[k])
    }

    /// The discipline composes across consecutive steps.
    proof fn lemma_handles_disciplined_trans(a: Server, b: Server, c: Server)
        requires
            Server::handles_disciplined(a, b),
            Server::handles_disciplined(b, c),
            a.sources@.len() == b.sources@.len(),
            b.sources@.len() == c.sources@.len(),
        ensures
            Server::handles_disciplined(a, c),
    {
        assert forall|k: int|
            0 <= k < c.sources@.len() && (#[trigger] c.sources@[k]).handle_open() implies (0
            < c.sources@[k].current_page < c.sources@[k].page_count) || c.sources@[k]
            == a.sources@[k] by {
            assert(b.sources@[k].handle_open() ==> (0 < b.sources@[k].current_page
                < b.sources@[k].page_count) || b.sources@[k] == a.sources@[k]);
        }
    }

    /// An engine with no session loaded.
    pub fn new() -> (server: Server)
        ensures
            server.wf(),
            server.page_count == 0,
            server.page_store.spec_len() == 0,
            server.sources@.len() == 0,
    {
        let server = Server { sources: Vec::new(), page_count: 0, page_store: Window::new() };
        proof {
            assert(counts_of(server.sources@) =~= Seq::<nat>::empty());
            assert(total_pages(Seq::<nat>::empty()) == 0);
        }
        server
    }

    /// Tears the live session down, dropping every buffered page and
    /// decoder handle; the engine returns to its freshly created state.
    pub fn reset(&mut self)
        ensures
            final(self).wf(),
            final(self).page_count == 0,
            final(self).page_store.spec_len() == 0,
            final(self).sources@.len() == 0,
    {
        self.sources = Vec::new();
        self.page_count = 0;
        self.page_store.clear();
        proof {
            assert(counts_of(self.sources@) =~= Seq::<nat>::empty());
            assert(total_pages(Seq::<nat>::empty()) == 0);
        }
    }

    /// Total pages of the live session.
    pub fn total_page_count(&self) -> (n: usize)
        ensures
            n == self.page_count,
    {
        self.page_count
    }

    /// Global index of the displayed page, if one is buffered.
    pub fn current_page_index(&self) -> (r: Option<usize>)
        requires
            self.wf(),
        ensures
            self.page_store.spec_len() == 0 ==> r is None,
            self.page_store.spec_len() > 0 ==> r == Some(
                self.page_store.entries@[self.page_store.cursor as int].global_index,
            ),
    {
        self.page_store.current_index()
    }

    /// Index of the source supplying the displayed page, if one is
    /// buffered.
    pub fn current_source_index(&self) -> (r: Option<usize>)
        requires
            self.wf(),
        ensures
            self.page_store.spec_len() == 0 ==> r is None,
            self.page_store.spec_len() > 0 ==> (r matches Some(s) && s as int == locate_spec(
                self.counts(),
                self.page_store.current_global() as nat,
            ).0),
    {
        match self.page_store.current_index() {
            None => None,
            Some(g) => {
                proof {
                    let w = self.page_store;
                    assert(w.entries@[w.cursor as int].global_index == w.head_global() + w.cursor);
                    assert(w.tail_global() == w.head_global() + (w.spec_len() - 1));
                }
                let (s, _p) = locate(&self.sources, g);
                Some(s)
            },
        }
    }

    /// Renders the session's global page `g`, positioning the owning
    /// source and stepping it forward over that page. The window and the
    /// session's shape are untouched; only the owning source's render
    /// position and handle move.
    fn render_global(&mut self, g: usize) -> (r: Option<image::DynamicImage>)
        requires
            old(self).wf(),
            g < old(self).page_count,
        ensures
            final(self).wf(),
            Server::same_session(*old(self), *final(self)),
            final(self).page_store == old(self).page_store,
            Server::handles_disciplined(*old(self), *final(self)),
    {
        proof {
            lemma_locate_spec_valid(self.counts(), g as nat);
        }
        let (s, p) = locate(&self.sources, g);
        self.sources[s].seek(p);
        let r = self.sources[s].render_next_page();
        proof {
            assert(counts_of(final(self).sources@) =~= counts_of(old(self).sources@));
            assert forall|i: int, j: int| 0 <= i < j < self.sources@.len() implies
                crate::order::bytes_le(
                    #[trigger] self.sources@[i].name@,
                    #[trigger] self.sources@[j].name@,
                ) by {
                assert(crate::order::bytes_le(
                    old(self).sources@[i].name@,
                    old(self).sources@[j].name@,
                ));
            }
        }
        r
    }

    /// Renders the session's global page `g` for the backward direction:
    /// positions the owning source just past that page and steps it
    /// backward over it, so the source releases its handle exactly when
    /// its first page has been rendered going backward.
    fn render_global_backward(&mut self, g: usize) -> (r: Option<image::DynamicImage>)
        requires
            old(self).wf(),
            g < old(self).page_count,
        ensures
            final(self).wf(),
            Server::same_session(*old(self), *final(self)),
            final(self).page_store == old(self).page_store,
            Server::handles_disciplined(*old(self), *final(self)),
    {
        proof {
            lemma_locate_spec_valid(self.counts(), g as nat);
        }
        let (s, p) = locate(&self.sources, g);
        self.sources[s].seek(p + 1);
        let r = self.sources[s].render_prev_page();
        proof {
            assert(counts_of(final(self).sources@) =~= counts_of(old(self).sources@));
            assert forall|i: int, j: int| 0 <= i < j < self.sources@.len() implies
                crate::order::bytes_le(
                    #[trigger] self.sources@[i].name@,
                    #[trigger] self.sources@[j].name@,
                ) by {
                assert(crate::order::bytes_le(
                    old(self).sources@[i].name@,
                    old(self).sources@[j].name@,
                ));
            }
        }
        r
    }

    /// Replaces the whole session: stores the ordered sources and their
    /// total, drops the previous session's window and decoder handles, and
    /// synchronously fills the window with the first page and up to
    /// `EXTRA_PAGES_AT_ENDS` pages of look-ahead, stopping early at the end
    /// of a short session or on a failed render. The reader starts at the
    /// session's first page.
    pub fn set_sources(&mut self, sources: Vec<Source>, page_count: usize)
        requires
            page_count == total_pages(counts_of(sources@)),
            forall|i: int|
                0 <= i < sources@.len() ==> (#[trigger] sources@[i]).wf()
                    && sources@[i].page_count > 0,
            crate::builder::sorted_by_name(sources@),
        ensures
            final(self).wf(),
            final(self).page_count == page_count,
            final(self).sources@.len() == sources@.len(),
            forall|i: int|
                0 <= i < sources@.len() ==> (#[trigger] sources@[i]).same_identity(
                    final(self).sources@[i],
                ),
            final(self).page_store.cursor == 0,
            final(self).page_store.spec_len() <= EXTRA_PAGES_AT_ENDS + 1,
            final(self).page_store.spec_len() <= page_count,
            page_count == 0 ==> final(self).page_store.spec_len() == 0,
            final(self).page_store.spec_len() > 0 ==> final(self).page_store.head_global() == 0,
    {
        self.sources = sources;
        self.page_count = page_count;
        self.page_store.clear();
        let ghost s0 = *self;
        let mut i: usize = 0;
        let mut stopped = false;
        while !stopped && i < EXTRA_PAGES_AT_ENDS + 1 && i < page_count
            invariant
                Server::same_session(s0, *self),
                self.wf(),
                self.page_count == page_count,
                self.sources@.len() == s0.sources@.len(),
                forall|k: int|
                    0 <= k < s0.sources@.len() ==> (#[trigger] s0.sources@[k]).same_identity(
                        self.sources@[k],
                    ),
                i <= EXTRA_PAGES_AT_ENDS + 1,
                i <= page_count,
                self.page_store.cursor == 0,
                self.page_store.spec_len() == i,
                i > 0 ==> self.page_store.head_global() == 0,
            decreases
                    EXTRA_PAGES_AT_ENDS + 1 - i,
                    (if stopped {
                        0int
                    } else {
                        1int
                    }),
        {
            match self.render_global(i) {
                Some(image) => {
                    self.page_store.push_back_page(PageEntry { global_index: i, image });
                    i = i + 1;
                },
                None => {
                    stopped = true;
                },
            }
        }
    }

    /// What one forward navigation step guarantees, relating the engine
    /// before the call to the engine after it.
    pub open spec fn next_post(a: Server, b: Server) -> bool {
        &&& Server::same_session(a, b)
        &&& b.wf()
        &&& preserves(a.page_store, b.page_store)
        &&& Server::handles_disciplined(a, b)
        &&& (a.page_store.spec_len() == 0 ==> b == a)
        &&& (a.page_store.spec_len() > 0 ==> {
            let w0 = a.page_store;
            let w1 = b.page_store;
            &&& w1.spec_len() > 0
            &&& (w1.current_global() == w0.current_global() + 1 || w1.current_global()
                == w0.current_global())
            &&& (w0.cursor + 1 < w0.spec_len() ==> w1.current_global() == w0.current_global() + 1)
            &&& (w0.current_global() + 1 >= a.page_count ==> w1.current_global()
                == w0.current_global())
            &&& (w0.cursor + 1 == w0.spec_len() && w0.tail_global() + 1 >= a.page_count ==> b == a)
            &&& w1.head_global() >= w0.head_global()
            &&& w1.tail_global() >= w0.tail_global()
            &&& (w0.cursor > 0 && w0.cursor + 1 < w0.spec_len() ==> w1.cursor > 0)
        })
    }

    /// What one backward navigation step guarantees.
    pub open spec fn prev_post(a: Server, b: Server) -> bool {
        &&& Server::same_session(a, b)
        &&& b.wf()
        &&& preserves(a.page_store, b.page_store)
        &&& Server::handles_disciplined(a, b)
        &&& (a.page_store.spec_len() == 0 ==> b == a)
        &&& (a.page_store.spec_len() > 0 ==> {
            let w0 = a.page_store;
            let w1 = b.page_store;
            &&& w1.spec_len() > 0
            &&& (w1.current_global() == w0.current_global() - 1 || w1.current_global()
                == w0.current_global())
            &&& (w0.cursor > 0 ==> w1.current_global() == w0.current_global() - 1)
            &&& (w0.current_global() == 0 ==> w1.current_global() == w0.current_global())
            &&& (w0.cursor == 0 && w0.head_global() == 0 ==> b == a)
            &&& w1.head_global() <= w0.head_global()
            &&& w1.tail_global() <= w0.tail_global()
        })
    }

    /// Steps the reader one page forward and returns the page now
    /// displayed. Nothing comes back only when the session has no page at
    /// all. At the last page of the session the call is a no-op returning
    /// that page again. Rendering ahead happens as needed to keep the
    /// look-ahead buffer full; a failed render leaves the position where
    /// it was, to be retried on a later call.
    pub fn get_next_page(&mut self) -> (r: Option<&image::DynamicImage>)
        requires
            old(self).wf(),
        ensures
            Server::next_post(*old(self), *final(self)),
            final(self).page_store.spec_len() == 0 ==> r is None,
            final(self).page_store.spec_len() > 0 ==> r == Some(
                &final(self).page_store.entries@[final(self).page_store.cursor as int].image,
            ),
    {
        if self.page_store.is_empty() {
            return None;
        }
        let ghost s0 = *self;
        let cursor = self.page_store.cursor;
        let len = self.page_store.len();
        if cursor + 1 == len {
            // At the forward edge: extend so the step has somewhere to go.
            let _ = self.extend_forward();
        }
        let ghost s1 = *self;
        let _ = self.page_store.advance();
        let ghost s2 = *self;
        let len2 = self.page_store.len();
        let cursor2 = self.page_store.cursor;
        if len2 - 1 - cursor2 < EXTRA_PAGES_AT_ENDS {
            // Keep the look-ahead buffer full.
            let _ = self.extend_forward();
        }
        proof {
            assert(preserves(s1.page_store, s2.page_store));
            lemma_preserves_trans(s0.page_store, s1.page_store, s2.page_store);
            lemma_preserves_trans(s0.page_store, s2.page_store, self.page_store);
            Server::lemma_handles_disciplined_trans(s0, s1, s2);
            Server::lemma_handles_disciplined_trans(s0, s2, *self);
        }
        self.page_store.current_image()
    }

    /// Steps the reader one page backward; the mirror of `get_next_page`.
    /// At the first page of the session the call is a no-op returning that
    /// page again. A page that fell out of the window is decoded anew when
    /// the reader returns to it.
    pub fn get_prev_page(&mut self) -> (r: Option<&image::DynamicImage>)
        requires
            old(self).wf(),
        ensures
            Server::prev_post(*old(self), *final(self)),
            final(self).page_store.spec_len() == 0 ==> r is None,
            final(self).page_store.spec_len() > 0 ==> r == Some(
                &final(self).page_store.entries@[final(self).page_store.cursor as int].image,
            ),
    {
        if self.page_store.is_empty() {
            return None;
        }
        let ghost s0 = *self;
        let cursor = self.page_store.cursor;
        if cursor == 0 {
            // At the backward edge: extend so the step has somewhere to go.
            let _ = self.extend_backward();
        }
        let ghost s1 = *self;
        let _ = self.page_store.retreat();
        let ghost s2 = *self;
        let cursor2 = self.page_store.cursor;
        if cursor2 < EXTRA_PAGES_AT_ENDS {
            // Keep the look-behind buffer full.
            let _ = self.extend_backward();
        }
        proof {
            assert(preserves(s1.page_store, s2.page_store));
            lemma_preserves_trans(s0.page_store, s1.page_store, s2.page_store);
            lemma_preserves_trans(s0.page_store, s2.page_store, self.page_store);
            Server::lemma_handles_disciplined_trans(s0, s1, s2);
            Server::lemma_handles_disciplined_trans(s0, s2, *self);
        }
        self.page_store.current_image()
    }

    /// A session with no pages at all never shows anything: its window is
    /// empty, and every navigation step in either direction leaves the
    /// engine exactly as it was — by the navigation contracts, such a step
    /// returns nothing.
    pub proof fn lemma_empty_session_never_navigates(a: Server, b: Server)
        requires
            a.wf(),
            a.page_count == 0,
            Server::next_post(a, b) || Server::prev_post(a, b),
        ensures
            a.page_store.spec_len() == 0,
            b == a,
    {
    }

    /// In a session with exactly one page, every navigation step in either
    /// direction is a no-op: the engine keeps displaying that one page.
    pub proof fn lemma_single_page_session_no_motion(a: Server, b: Server)
        requires
            a.wf(),
            a.page_count == 1,
            a.page_store.spec_len() > 0,
            Server::next_post(a, b) || Server::prev_post(a, b),
        ensures
            b == a,
            a.page_store.spec_len() == 1,
            a.page_store.current_global() == 0,
    {
        let w = a.page_store;
        assert(w.entries@[w.spec_len() - 1].global_index == w.entries@[0].global_index + (
        w.spec_len() - 1));
    }

    /// Stepping forward and then immediately backward returns to the very
    /// page displayed before the pair of calls — same position and same
    /// buffered image — whenever both directions have buffered room before
    /// the pair.
    pub proof fn lemma_next_then_prev_round_trip(a: Server, b: Server, c: Server)
        requires
            a.wf(),
            a.page_store.cursor > 0,
            a.page_store.cursor + 1 < a.page_store.spec_len(),
            Server::next_post(a, b),
            Server::prev_post(b, c),
        ensures
            c.page_store.spec_len() > 0,
            c.page_store.current_global() == a.page_store.current_global(),
            entry_at(c.page_store, c.page_store.current_global()) == entry_at(
                a.page_store,
                a.page_store.current_global(),
            ),
    {
        let g = a.page_store.current_global();
        assert(a.page_store.current_global() == a.page_store.head_global() + a.page_store.cursor);
        assert(a.page_store.tail_global() == a.page_store.head_global() + (
        a.page_store.spec_len() - 1));
        assert(b.page_store.current_global() == b.page_store.head_global() + b.page_store.cursor);
        assert(b.page_store.tail_global() == b.page_store.head_global() + (
        b.page_store.spec_len() - 1));
        assert(c.page_store.current_global() == c.page_store.head_global() + c.page_store.cursor);
        assert(c.page_store.tail_global() == c.page_store.head_global() + (
        c.page_store.spec_len() - 1));
        assert(covers(a.page_store, g));
        assert(covers(b.page_store, g));
        assert(covers(c.page_store, g));
        assert(entry_at(b.page_store, g) == entry_at(a.page_store, g));
        assert(entry_at(c.page_store, g) == entry_at(b.page_store, g));
    }

    /// Stepping forward off the last page of a source lands on the first
    /// page of the next source: crossing a boundary is seamless, with no
    /// empty step in between.
    pub proof fn lemma_seamless_crossing(a: Server, b: Server, s: int)
        requires
            a.wf(),
            Server::next_post(a, b),
            a.page_store.spec_len() > 0,
            b.page_store.current_global() == a.page_store.current_global() + 1,
            locate_spec(a.counts(), a.page_store.current_global() as nat) == (
                s,
                a.counts()[s] - 1,
            ),
            0 <= s < a.sources@.len(),
        ensures
            locate_spec(b.counts(), b.page_store.current_global() as nat) == (s + 1, 0int),
    {
        let counts = a.counts();
        let g = a.page_store.current_global() as nat;
        assert(b.counts() =~= counts);
        assert(a.page_store.current_global() == a.page_store.head_global() + a.page_store.cursor);
        assert(a.page_store.tail_global() == a.page_store.head_global() + (
        a.page_store.spec_len() - 1));
        lemma_locate_spec_valid(counts, g);
        lemma_prefix_pages_step(counts, s);
        assert(g + 1 == prefix_pages(counts, s + 1));
        assert(b.page_store.current_global() == b.page_store.head_global() + b.page_store.cursor);
        assert(b.page_store.tail_global() == b.page_store.head_global() + (
        b.page_store.spec_len() - 1));
        assert(g + 1 < total_pages(counts));
        if s + 1 == counts.len() {
            assert(counts.take(s + 1) =~= counts);
        }
        lemma_locate_spec_prefix(counts, s + 1);
    }

    /// The engine never holds more decoded pages than the window's fixed
    /// capacity: at most the current page plus `EXTRA_PAGES_AT_ENDS` on
    /// each side.
    pub proof fn lemma_window_capacity_bound(a: Server)
        requires
            a.wf(),
        ensures
            a.page_store.spec_len() <= WINDOW_CAPACITY,
            a.page_store.spec_len() <= 2 * EXTRA_PAGES_AT_ENDS + 1,
    {
    }

    /// Navigation only ever lands on sources that contribute pages: the
    /// source located for any existing global page has a positive page
    /// count, so a source dropped for being empty is never visited.
    pub proof fn lemma_only_nonempty_sources_visited(a: Server, g: nat)
        requires
            a.wf(),
            g < a.page_count,
        ensures
            0 <= locate_spec(a.counts(), g).0 < a.sources@.len(),
            a.sources@[locate_spec(a.counts(), g).0].page_count > 0,
            locate_spec(a.counts(), g).1 < a.sources@[locate_spec(a.counts(), g).0].page_count,
    {
        lemma_locate_spec_valid(a.counts(), g);
    }

    /// With name-sorted sources, the session presents pages in file-name
    /// order: a later global page belongs to a source whose index, and
    /// hence file name, comes no earlier.
    pub proof fn lemma_pages_in_name_order(a: Server, g1: nat, g2: nat)
        requires
            a.wf(),
            g1 <= g2,
            g2 < a.page_count,
        ensures
            locate_spec(a.counts(), g1).0 <= locate_spec(a.counts(), g2).0,
            locate_spec(a.counts(), g1).0 < locate_spec(a.counts(), g2).0
                ==> crate::order::bytes_le(
                a.sources@[locate_spec(a.counts(), g1).0].name@,
                a.sources@[locate_spec(a.counts(), g2).0].name@,
            ),
    {
        crate::sequencer::lemma_locate_spec_monotonic(a.counts(), g1, g2);
        lemma_locate_spec_valid(a.counts(), g1);
        lemma_locate_spec_valid(a.counts(), g2);
    }

    /// Tries to render the page after the newest buffered one and slide the
    /// window forward over it, evicting the oldest page when full. Grows by
    /// nothing when the session has no page there or the render fails.
    fn extend_forward(&mut self) -> (grew: bool)
        requires
            old(self).wf(),
            old(self).page_store.spec_len() > 0,
            old(self).page_store.spec_len() == WINDOW_CAPACITY ==> old(self).page_store.cursor > 0,
        ensures
            final(self).wf(),
            Server::same_session(*old(self), *final(self)),
            preserves(old(self).page_store, final(self).page_store),
            !grew ==> final(self).page_store == old(self).page_store,
            old(self).page_store.tail_global() + 1 >= old(self).page_count ==> !grew
                && *final(self) == *old(self),
            Server::handles_disciplined(*old(self), *final(self)),
            grew ==> ({
                let w0 = old(self).page_store;
                let w1 = final(self).page_store;
                &&& w0.tail_global() + 1 < old(self).page_count
                &&& w1.tail_global() == w0.tail_global() + 1
                &&& w1.current_global() == w0.current_global()
                &&& if w0.spec_len() == WINDOW_CAPACITY {
                    w1.spec_len() == w0.spec_len() && w1.head_global() == w0.head_global() + 1
                        && w1.cursor == w0.cursor - 1
                } else {
                    w1.spec_len() == w0.spec_len() + 1 && w1.head_global() == w0.head_global()
                        && w1.cursor == w0.cursor
                }
            }),
    {
        let tail = self.page_store.tail_index();
        if tail >= self.page_count - 1 {
            return false;
        }
        match self.render_global(tail + 1) {
            Some(image) => {
                if self.page_store.len() == WINDOW_CAPACITY {
                    self.page_store.pop_front_page();
                }
                self.page_store.push_back_page(PageEntry { global_index: tail + 1, image });
                true
            },
            None => false,
        }
    }

    /// Tries to render the page before the oldest buffered one and slide
    /// the window backward over it, evicting the newest page when full.
    /// Grows by nothing at the start of the session or when the render
    /// fails.
    fn extend_backward(&mut self) -> (grew: bool)
        requires
            old(self).wf(),
            old(self).page_store.spec_len() > 0,
            old(self).page_store.spec_len() == WINDOW_CAPACITY ==> old(self).page_store.cursor
                < old(self).page_store.spec_len() - 1,
        ensures
            final(self).wf(),
            Server::same_session(*old(self), *final(self)),
            preserves(old(self).page_store, final(self).page_store),
            !grew ==> final(self).page_store == old(self).page_store,
            old(self).page_store.head_global() == 0 ==> !grew && *final(self) == *old(self),
            Server::handles_disciplined(*old(self), *final(self)),
            grew ==> ({
                let w0 = old(self).page_store;
                let w1 = final(self).page_store;
                &&& w0.head_global() > 0
                &&& w1.head_global() == w0.head_global() - 1
                &&& w1.current_global() == w0.current_global()
                &&& w1.cursor == w0.cursor + 1
                &&& if w0.spec_len() == WINDOW_CAPACITY {
                    w1.spec_len() == w0.spec_len() && w1.tail_global() == w0.tail_global() - 1
                } else {
                    w1.spec_len() == w0.spec_len() + 1 && w1.tail_global() == w0.tail_global()
                }
            }),
    {
        let head = self.page_store.head_index();
        if head == 0 {
            return false;
        }
        match self.render_global_backward(head - 1) {
            Some(image) => {
                if self.page_store.len() == WINDOW_CAPACITY {
                    self.page_store.pop_back_page();
                }
                self.page_store.push_front_page(PageEntry { global_index: head - 1, image });
                true
            },
            None => false,
        }
    }
}

} // verus!
