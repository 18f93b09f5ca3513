//! The bounded buffer of decoded pages around the reading position. Entries
//! hold consecutive global page indices; the cursor marks the page currently
//! displayed. Capacity is fixed: the current page plus up to
//! `EXTRA_PAGES_AT_ENDS` pages on each side.

use vstd::prelude::*;

verus! {

/// How many extra pages are buffered at both ends of the current page.
pub const EXTRA_PAGES_AT_ENDS: usize = 2;

/// Most pages the window ever holds at once.
pub const WINDOW_CAPACITY: usize = 2 * EXTRA_PAGES_AT_ENDS + 1;

/// One buffered page: its global index in the session and its decoded image.
pub struct PageEntry {
    /// Position of this page in the session's global page order.
    pub global_index: usize,
    /// The decoded page.
    pub image: image::DynamicImage,
}

/// Whether the window buffers global page `g`.
pub open spec fn covers(w: Window, g: int) -> bool {
    w.spec_len() > 0 && w.head_global() <= g <= w.tail_global()
}

/// The buffered entry for global page `g`.
pub open spec fn entry_at(w: Window, g: int) -> PageEntry {
    w.entries@[g - w.head_global()]
}

/// Every page buffered in both windows is buffered identically: sliding
/// never alters a page it keeps.
pub open spec fn preserves(a: Window, b: Window) -> bool {
    forall|g: int| covers(a, g) && covers(b, g) ==> #[trigger] entry_at(b, g) == entry_at(a, g)
}

/// Preservation composes across an intermediate window that buffers every
/// page the two outer windows share.
pub proof fn lemma_preserves_trans(a: Window, b: Window, c: Window)
    requires
        preserves(a, b),
        preserves(b, c),
        forall|g: int| covers(a, g) && covers(c, g) ==> covers(b, g),
    ensures
        preserves(a, c),
{
    assert forall|g: int| covers(a, g) && covers(c, g) implies #[trigger] entry_at(c, g)
        == entry_at(a, g) by {
        assert(covers(b, g));
        assert(entry_at(b, g) == entry_at(a, g));
        assert(entry_at(c, g) == entry_at(b, g));
    }
}

/// The sliding window of buffered pages.
pub struct Window {
    /// Buffered pages, oldest to newest in document order.
    pub entries: Vec<PageEntry>,
    /// Index into `entries` of the page being displayed.
    pub cursor: usize,
}

impl Window {
    /// The global indices buffered, in order.
    pub open spec fn globals(self) -> Seq<int> {
        self.entries@.map_values(|e: PageEntry| e.global_index as int)
    }

    /// Global index of the oldest buffered page.
    pub open spec fn head_global(self) -> int {
        self.entries@[0].global_index as int
    }

    /// Global index of the newest buffered page.
    pub open spec fn tail_global(self) -> int {
        self.entries@[self.entries@.len() - 1].global_index as int
    }

    /// Global index of the displayed page.
    pub open spec fn current_global(self) -> int {
        self.entries@[self.cursor as int].global_index as int
    }

    /// Number of buffered pages.
    pub open spec fn spec_len(self) -> int {
        self.entries@.len() as int
    }

    /// Structural soundness: bounded, cursor in range, and the buffered
    /// global indices are consecutive.
    pub open spec fn wf(self) -> bool {
        &&& self.entries@.len() <= WINDOW_CAPACITY
        &&& (self.entries@.len() > 0 ==> self.cursor < self.entries@.len())
        &&& (self.entries@.len() == 0 ==> self.cursor == 0)
        &&& forall|i: int|
            0 <= i < self.entries@.len() ==> #[trigger] self.entries@[i].global_index
                == self.entries@[0].global_index + i
    }

    /// An empty window.
    pub fn new() -> (w: Window)
        ensures
            w.wf(),
            w.spec_len() == 0,
            w.cursor == 0,
    {
        Window { entries: Vec::new(), cursor: 0 }
    }

    /// Number of buffered pages.
    pub fn len(&self) -> (n: usize)
        ensures
            n == self.spec_len(),
    {
        self.entries.len()
    }

    /// Whether nothing is buffered.
    pub fn is_empty(&self) -> (b: bool)
        ensures
            b == (self.spec_len() == 0),
    {
        self.entries.len() == 0
    }

    /// The displayed page's image, if anything is buffered.
    pub fn current_image(&self) -> (r: Option<&image::DynamicImage>)
        requires
            self.wf(),
        ensures
            self.spec_len() == 0 ==> r is None,
            self.spec_len() > 0 ==> r == Some(&self.entries@[self.cursor as int].image),
    {
        if self.entries.len() == 0 {
            None
        } else {
            Some(&self.entries[self.cursor].image)
        }
    }

    /// The displayed page's global index, if anything is buffered.
    pub fn current_index(&self) -> (r: Option<usize>)
        requires
            self.wf(),
        ensures
            self.spec_len() == 0 ==> r is None,
            self.spec_len() > 0 ==> r == Some(self.entries@[self.cursor as int].global_index),
    {
        if self.entries.len() == 0 {
            None
        } else {
            Some(self.entries[self.cursor].global_index)
        }
    }

    /// Global index of the oldest buffered page.
    pub fn head_index(&self) -> (g: usize)
        requires
            self.wf(),
            self.spec_len() > 0,
        ensures
            g == self.head_global(),
    {
        self.entries[0].global_index
    }

    /// Global index of the newest buffered page.
    pub fn tail_index(&self) -> (g: usize)
        requires
            self.wf(),
            self.spec_len() > 0,
        ensures
            g == self.tail_global(),
    {
        self.entries[self.entries.len() - 1].global_index
    }

    /// Buffers one more page at the newest end.
    pub fn push_back_page(&mut self, entry: PageEntry)
        requires
            old(self).wf(),
            old(self).spec_len() < WINDOW_CAPACITY,
            old(self).spec_len() > 0 ==> entry.global_index == old(self).tail_global() + 1,
        ensures
            final(self).wf(),
            final(self).entries@ == old(self).entries@.push(entry),
            final(self).cursor == old(self).cursor,
            final(self).spec_len() == old(self).spec_len() + 1,
            old(self).spec_len() > 0 ==> final(self).head_global() == old(self).head_global()
                && final(self).current_global() == old(self).current_global(),
            final(self).tail_global() == entry.global_index,
    {
        self.entries.push(entry);
    }

    /// Buffers one more page at the oldest end; the cursor keeps naming the
    /// same page.
    pub fn push_front_page(&mut self, entry: PageEntry)
        requires
            old(self).wf(),
            old(self).spec_len() < WINDOW_CAPACITY,
            old(self).spec_len() > 0 ==> old(self).head_global() > 0 && entry.global_index
                == old(self).head_global() - 1,
        ensures
            final(self).wf(),
            final(self).entries@ == seq![entry] + old(self).entries@,
            old(self).spec_len() > 0 ==> final(self).cursor == old(self).cursor + 1
                && final(self).current_global() == old(self).current_global()
                && final(self).tail_global() == old(self).tail_global(),
            final(self).spec_len() == old(self).spec_len() + 1,
            final(self).head_global() == entry.global_index,
    {
        self.entries.insert(0, entry);
        if self.entries.len() > 1 {
            self.cursor = self.cursor + 1;
        }
        proof {
            assert(final(self).entries@ =~= seq![entry] + old(self).entries@);
        }
    }

    /// Evicts the oldest page; the cursor keeps naming the same page.
    pub fn pop_front_page(&mut self)
        requires
            old(self).wf(),
            old(self).cursor > 0,
        ensures
            final(self).wf(),
            final(self).entries@ == old(self).entries@.drop_first(),
            final(self).cursor == old(self).cursor - 1,
            final(self).spec_len() == old(self).spec_len() - 1,
            final(self).current_global() == old(self).current_global(),
            final(self).tail_global() == old(self).tail_global(),
            final(self).head_global() == old(self).head_global() + 1,
    {
        let _ = self.entries.remove(0);
        self.cursor = self.cursor - 1;
        proof {
            assert(final(self).entries@ =~= old(self).entries@.drop_first());
        }
    }

    /// Evicts the newest page; the cursor keeps naming the same page.
    pub fn pop_back_page(&mut self)
        requires
            old(self).wf(),
            old(self).spec_len() > 0,
            old(self).cursor < old(self).spec_len() - 1,
        ensures
            final(self).wf(),
            final(self).entries@ == old(self).entries@.drop_last(),
            final(self).cursor == old(self).cursor,
            final(self).spec_len() == old(self).spec_len() - 1,
            final(self).current_global() == old(self).current_global(),
            final(self).head_global() == old(self).head_global(),
            final(self).tail_global() == old(self).tail_global() - 1,
    {
        let _ = self.entries.pop();
        proof {
            assert(final(self).entries@ =~= old(self).entries@.drop_last());
        }
    }

    /// Moves the cursor one page newer if a buffered page is there.
    pub fn advance(&mut self) -> (moved: bool)
        requires
            old(self).wf(),
        ensures
            final(self).wf(),
            final(self).entries == old(self).entries,
            moved == (old(self).cursor + 1 < old(self).spec_len()),
            moved ==> final(self).cursor == old(self).cursor + 1,
            !moved ==> *final(self) == *old(self),
    {
        if self.cursor + 1 < self.entries.len() {
            self.cursor = self.cursor + 1;
            true
        } else {
            false
        }
    }

    /// Moves the cursor one page older if a buffered page is there.
    pub fn retreat(&mut self) -> (moved: bool)
        requires
            old(self).wf(),
        ensures
            final(self).wf(),
            final(self).entries == old(self).entries,
            moved == (old(self).cursor > 0 && old(self).spec_len() > 0),
            moved ==> final(self).cursor == old(self).cursor - 1,
            !moved ==> *final(self) == *old(self),
    {
        if self.entries.len() > 0 && self.cursor > 0 {
            self.cursor = self.cursor - 1;
            true
        } else {
            false
        }
    }

    /// Drops every buffered page.
    pub fn clear(&mut self)
        ensures
            final(self).wf(),
            final(self).spec_len() == 0,
            final(self).cursor == 0,
    {
        self.entries.clear();
        self.cursor = 0;
    }
}

} // verus!
