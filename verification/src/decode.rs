//! Boundary to the native page decoder. A decoder handle wraps one open
//! document; opening parses the file and computes its page count, rendering
//! decodes a single page into a bitmap. Everything behind these wrappers is
//! outside work: it reads the disk and runs the platform's renderer, so no
//! contract here promises success, only the shape of what comes back.

use vstd::prelude::*;

verus! {

/// Failures of the decoder boundary.
#[derive(Clone, Copy, PartialEq, Eq, Structural, Debug)]
pub enum DecodeError {
    /// The backing file cannot be opened or parsed.
    Unreadable,
    /// A single page of an otherwise readable document failed to render.
    RenderFailed,
}

/// Declares pdf2image::PDF, the native decoder handle: an opaque open
/// document that renders pages on request.
#[verifier::external_type_specification]
#[verifier::external_body]
pub struct ExPdf(pdf2image::PDF);

/// Declares image::DynamicImage, an opaque decoded bitmap.
#[verifier::external_type_specification]
#[verifier::external_body]
pub struct ExDynamicImage(image::DynamicImage);

/// Relies on pdf2image::PDF::from_file: opens and parses a document,
/// returning a handle on success. Reads the disk, so nothing relates the
/// result to the path.
#[verifier::external_body]
pub(crate) fn pdf_open(path: &str) -> (r: Option<pdf2image::PDF>)
{
    pdf2image::PDF::from_file(path).ok()
}

/// Relies on pdf2image::PDF::page_count: the number of pages the document
/// reported when it was opened.
#[verifier::external_body]
pub(crate) fn pdf_page_count(pdf: &pdf2image::PDF) -> (r: u32)
{
    pdf.page_count()
}

/// Relies on pdf2image::PDF::render with a single 1-based page number and
/// default options: on success the returned vector holds exactly the one
/// requested page; a bad or out-of-range page comes back as an error.
/// The largest page number is excluded: pdf2image builds the request as
/// the range from the page to its successor, and at the numeric maximum
/// that successor does not exist (the addition would overflow).
/// Caution: pdf2image runs the platform's poppler renderer as a child
/// process and aborts the process (a panic in its own code) when that
/// executable cannot be spawned at all — a missing or misconfigured
/// poppler installation, not any argument of this function, triggers it.
/// That behavior is accepted here as an environment precondition: probing
/// for the renderer would need process and path facilities the library
/// deliberately stays away from, and the deployment that ships this crate
/// ships poppler beside it.
#[verifier::external_body]
pub(crate) fn pdf_render_single(pdf: &pdf2image::PDF, page_one_based: u32) -> (r: Result<
    Vec<image::DynamicImage>,
    DecodeError,
>)
    requires
        1 <= page_one_based < 0xFFFF_FFFFu32,
    ensures
        r matches Ok(v) ==> v@.len() == 1,
{
    match pdf.render(pdf2image::Pages::Single(page_one_based), None) {
        Ok(images) => Ok(images),
        Err(_) => Err(DecodeError::RenderFailed),
    }
}

/// Relies on image::ImageReader::open and its decode: reads and decodes an
/// image file from disk. Fails with `Unreadable` when the file cannot be
/// opened or is not a decodable image.
#[verifier::external_body]
pub fn open_image(image: &str) -> (r: Result<image::DynamicImage, DecodeError>)
{
    match image::ImageReader::open(image) {
        Ok(reader) => match reader.decode() {
            Ok(img) => Ok(img),
            Err(_) => Err(DecodeError::Unreadable),
        },
        Err(_) => Err(DecodeError::Unreadable),
    }
}

/// Relies on image::ImageReader, DynamicImage::invert and DynamicImage::save:
/// reads a fixed sample image, inverts its colors and writes the result
/// beside it.
#[verifier::external_body]
pub fn invert_image() -> (r: Result<(), DecodeError>)
{
    let mut img = match image::ImageReader::open("assets/teapot.png") {
        Ok(reader) => match reader.decode() {
            Ok(img) => img,
            Err(_) => return Err(DecodeError::Unreadable),
        },
        Err(_) => return Err(DecodeError::Unreadable),
    };
    img.invert();
    match img.save("assets/invteapot.png") {
        Ok(()) => Ok(()),
        Err(_) => Err(DecodeError::Unreadable),
    }
}

} // verus!
