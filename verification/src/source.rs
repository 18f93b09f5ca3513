//! One entry in a reading session: a document contributing pages. A source
//! owns its lazily acquired decoder handle, tracks its page count and its
//! local render position, and releases the handle as soon as its last page
//! in the direction of travel has been rendered.

use vstd::prelude::*;
use crate::decode::{pdf_open, pdf_page_count, pdf_render_single, DecodeError};

verus! {

/// How the backing path is interpreted.
#[derive(PartialEq, Eq, Structural, Clone, Copy, Debug)]
pub enum SourceType {
    /// A paginated document file.
    Pdf,
    /// A directory of images presented as consecutive pages. Not yet
    /// supported: such a source opens as unreadable and is filtered out.
    ImageSequence,
    /// A directory. Rejected before a session is built; a source of this
    /// type never opens.
    Directory,
}

/// Index just after the last path separator in `p`, or 0 if none occurs.
pub open spec fn after_last_slash(p: Seq<u8>) -> int
    decreases p.len(),
{
    if p.len() == 0 {
        0
    } else if p[p.len() - 1] == 47 {
        p.len() as int
    } else {
        after_last_slash(p.take(p.len() - 1))
    }
}

/// The file-name portion of a path: the bytes after the last separator.
pub open spec fn file_name_bytes(p: Seq<u8>) -> Seq<u8> {
    p.skip(after_last_slash(p))
}

proof fn lemma_after_last_slash_bounds(p: Seq<u8>)
    ensures
        0 <= after_last_slash(p) <= p.len(),
    decreases p.len(),
{
    if p.len() != 0 && p[p.len() - 1] != 47 {
        lemma_after_last_slash_bounds(p.take(p.len() - 1));
    }
}

/// If no separator occurs at or after `j`, the cut point of `p` is the cut
/// point of its prefix of length `j`.
proof fn lemma_after_last_slash_skip(p: Seq<u8>, j: int)
    requires
        0 <= j <= p.len(),
        forall|k: int| j <= k < p.len() ==> p[k] != 47,
    ensures
        after_last_slash(p) == after_last_slash(p.take(j)),
    decreases p.len() - j,
{
    if j == p.len() {
        assert(p.take(j) =~= p);
    } else {
        lemma_after_last_slash_skip(p, j + 1);
        let q = p.take(j + 1);
        assert(q[q.len() - 1] == p[j]);
        assert(q.take(q.len() - 1) =~= p.take(j));
    }
}

/// Copies the file-name portion of `path` out of its byte representation.
pub fn extract_file_name(path: &str) -> (name: Vec<u8>)
    ensures
        name@ == file_name_bytes(vstd::utf8::encode_utf8(path@)),
{
    let bytes: &[u8] = path.as_bytes();
    let len: usize = bytes.len();
    let ghost p = bytes@;
    let mut j: usize = len;
    while j > 0 && bytes[j - 1] != 47
        invariant
            0 <= j <= len,
            len == p.len(),
            bytes@ == p,
            forall|k: int| j <= k < p.len() ==> p[k] != 47,
        decreases j,
    {
        j = j - 1;
    }
    proof {
        lemma_after_last_slash_skip(p, j as int);
        if j > 0 {
            assert(p.take(j as int)[j - 1] == 47);
            assert(after_last_slash(p.take(j as int)) == j as int);
        }
        lemma_after_last_slash_bounds(p.take(j as int));
    }
    let mut name: Vec<u8> = Vec::new();
    let mut i: usize = j;
    while i < len
        invariant
            j <= i <= len,
            len == p.len(),
            bytes@ == p,
            name@ =~= p.subrange(j as int, i as int),
        decreases len - i,
    {
        name.push(bytes[i]);
        i = i + 1;
    }
    proof {
        assert(name@ =~= p.skip(j as int));
    }
    name
}

/// One source of pages in a session.
pub struct Source {
    /// How the path is interpreted.
    pub source_type: SourceType,
    /// Location of the backing file.
    pub path: String,
    /// File-name bytes of `path`; the key sources are ordered by.
    pub name: Vec<u8>,
    /// The decoder handle, held only while pages remain to render in the
    /// direction of travel.
    pub pdf_object: Option<pdf2image::PDF>,
    /// Local index of the next page to render going forward; the page
    /// rendered going backward is the one before it.
    pub current_page: usize,
    /// Total pages of this source, fixed at construction; 0 when the
    /// source failed to open or is of an unsupported type.
    pub page_count: usize,
}

impl Source {
    /// Structural soundness of a source.
    pub open spec fn wf(self) -> bool {
        &&& self.current_page <= self.page_count
        &&& self.page_count <= 0xFFFF_FFFE
        &&& self.name@ == file_name_bytes(vstd::utf8::encode_utf8(self.path@))
    }

    /// Everything fixed at construction: what a render never changes.
    pub open spec fn same_identity(self, other: Source) -> bool {
        &&& self.source_type == other.source_type
        &&& self.path@ == other.path@
        &&& self.name@ == other.name@
        &&& self.page_count == other.page_count
    }

    /// Whether the decoder handle is currently held.
    pub open spec fn handle_open(self) -> bool {
        self.pdf_object is Some
    }

    /// Builds a source for `path`, probing the document for its page count.
    /// A source that cannot open, and any source of an unsupported type,
    /// gets page count 0 and is dropped by the session builder. When
    /// `keep_pdf_object` is set and the probe succeeded, the handle stays
    /// open so the first render needs no second open.
    pub fn new(source_type: SourceType, path: String, keep_pdf_object: bool) -> (s: Source)
        ensures
            s.wf(),
            s.source_type == source_type,
            s.path@ == path@,
            s.current_page == 0,
            s.handle_open() ==> keep_pdf_object && source_type == SourceType::Pdf,
            keep_pdf_object && source_type == SourceType::Pdf && s.page_count > 0
                ==> s.handle_open(),
            source_type != SourceType::Pdf ==> s.page_count == 0,
    {
        let name = extract_file_name(path.as_str());
        let mut pdf_object: Option<pdf2image::PDF> = None;
        let mut page_count: usize = 0;
        match source_type {
            SourceType::Pdf => {
                if let Some(pdf) = pdf_open(path.as_str()) {
                    let count: u32 = pdf_page_count(&pdf);
                    page_count = count as usize;
                    if page_count > 0xFFFF_FFFE {
                        // The renderer addresses pages by a number below the
                        // numeric maximum; a document claiming more pages
                        // keeps only the addressable ones.
                        page_count = 0xFFFF_FFFE;
                    }
                    if keep_pdf_object {
                        pdf_object = Some(pdf);
                    }
                }
            },
            _ => {},
        }
        Source { source_type, path, name, pdf_object, current_page: 0, page_count }
    }

    /// Builds a source whose page count is already known, with no handle
    /// held; the decoder is only consulted when a render is requested.
    pub fn from_parts(source_type: SourceType, path: String, page_count: usize) -> (s: Source)
        requires
            page_count <= 0xFFFF_FFFE,
        ensures
            s.wf(),
            s.source_type == source_type,
            s.path@ == path@,
            s.current_page == 0,
            s.page_count == page_count,
            !s.handle_open(),
    {
        let name = extract_file_name(path.as_str());
        Source { source_type, path, name, pdf_object: None, current_page: 0, page_count }
    }

    /// Total pages of this source.
    pub fn get_page_count(&self) -> (c: usize)
        ensures
            c == self.page_count,
    {
        self.page_count
    }

    /// Acquires the decoder handle if it is not already held; idempotent.
    /// Fails when the backing file cannot be opened or parsed.
    pub fn open(&mut self) -> (r: Result<(), DecodeError>)
        ensures
            old(self).same_identity(*final(self)),
            final(self).current_page == old(self).current_page,
            r is Ok ==> final(self).handle_open(),
            r is Err ==> *final(self) == *old(self) && !old(self).handle_open() && r == Err::<
                (),
                DecodeError,
            >(DecodeError::Unreadable),
    {
        if self.pdf_object.is_some() {
            return Ok(());
        }
        match pdf_open(self.path.as_str()) {
            Some(pdf) => {
                self.pdf_object = Some(pdf);
                Ok(())
            },
            None => Err(DecodeError::Unreadable),
        }
    }

    /// Reacquires the decoder handle, discarding any held one; a failed
    /// open leaves the source without a handle, and the next render will
    /// try again. Fire-and-forget by shape: a caller that needs to know
    /// whether the handle was acquired calls `open` instead.
    pub fn get_pdf_object(&mut self)
        ensures
            old(self).same_identity(*final(self)),
            final(self).current_page == old(self).current_page,
    {
        self.pdf_object = None;
        let _ = self.open();
    }

    /// Moves the local render position, leaving the handle as it is.
    pub fn seek(&mut self, position: usize)
        requires
            position <= old(self).page_count,
        ensures
            old(self).same_identity(*final(self)),
            final(self).current_page == position,
            final(self).handle_open() == old(self).handle_open(),
            old(self).wf() ==> final(self).wf(),
    {
        self.current_page = position;
    }

    /// Renders the page at the local position and advances past it. With no
    /// page left forward, or on a failed open or render, yields nothing and
    /// keeps the position; the handle is released whenever the source has
    /// nothing more to offer forward, and immediately after its last page
    /// is rendered.
    pub fn render_next_page(&mut self) -> (r: Option<image::DynamicImage>)
        requires
            old(self).wf(),
        ensures
            final(self).wf(),
            old(self).same_identity(*final(self)),
            r is Some ==> {
                &&& old(self).current_page < old(self).page_count
                &&& final(self).current_page == old(self).current_page + 1
                &&& (final(self).handle_open() <==> final(self).current_page
                    < final(self).page_count)
            },
            r is None ==> final(self).current_page == old(self).current_page
                && !final(self).handle_open(),
    {
        if self.current_page >= self.page_count {
            self.pdf_object = None;
            return None;
        }
        if self.open().is_err() {
            return None;
        }
        let page_one_based: u32 = (self.current_page + 1) as u32;
        let rendered = match &self.pdf_object {
            Some(pdf) => pdf_render_single(pdf, page_one_based),
            None => Err(DecodeError::RenderFailed),
        };
        match rendered {
            Ok(mut images) => {
                let image = images.pop().unwrap();
                self.current_page = self.current_page + 1;
                if self.current_page == self.page_count {
                    // Last page in this direction: free the handle now.
                    self.pdf_object = None;
                }
                Some(image)
            },
            Err(_) => {
                self.pdf_object = None;
                None
            },
        }
    }

    /// Renders the page before the local position and retreats onto it;
    /// the mirror of `render_next_page`. The handle is released whenever
    /// the source has nothing more to offer backward.
    pub fn render_prev_page(&mut self) -> (r: Option<image::DynamicImage>)
        requires
            old(self).wf(),
        ensures
            final(self).wf(),
            old(self).same_identity(*final(self)),
            r is Some ==> {
                &&& old(self).current_page > 0
                &&& final(self).current_page == old(self).current_page - 1
                &&& (final(self).handle_open() <==> final(self).current_page > 0)
            },
            r is None ==> final(self).current_page == old(self).current_page
                && !final(self).handle_open(),
    {
        if self.current_page == 0 {
            self.pdf_object = None;
            return None;
        }
        if self.open().is_err() {
            return None;
        }
        let page_one_based: u32 = self.current_page as u32;
        let rendered = match &self.pdf_object {
            Some(pdf) => pdf_render_single(pdf, page_one_based),
            None => Err(DecodeError::RenderFailed),
        };
        match rendered {
            Ok(mut images) => {
                let image = images.pop().unwrap();
                self.current_page = self.current_page - 1;
                if self.current_page == 0 {
                    // Last page in this direction: free the handle now.
                    self.pdf_object = None;
                }
                Some(image)
            },
            Err(_) => {
                self.pdf_object = None;
                None
            },
        }
    }
}

} // verus!
