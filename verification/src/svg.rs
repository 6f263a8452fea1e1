//! Rendering the SVG images of the book to PNG with `resvg`, using the
//! system's fonts to shape text.
//!
//! The pixels that `resvg` draws are not stated here: the contracts fix the
//! order of the steps and the messages that each failure gives.

use vstd::prelude::*;
use crate::naming::{decimal, decimal_chars};
use crate::text::{chars_of, push_all, push_str, starts_with, string_of};
use resvg::tiny_skia::Pixmap;
use resvg::usvg::fontdb::Database;
use resvg::usvg::{Options, Tree};

verus! {

#[verifier::external_type_specification]
#[verifier::external_body]
pub struct ExFontDatabase(Database);

#[verifier::external_type_specification]
#[verifier::external_body]
pub struct ExSvgTree(Tree);

#[verifier::external_type_specification]
#[verifier::external_body]
pub struct ExPixmap(Pixmap);

/// `fontdb::Database::load_system_fonts` on a new database: the fonts found
/// on this machine. Which fonts they are is not stated.
#[verifier::external_body]
fn system_fonts() -> Database {
    let mut fonts = Database::new();
    fonts.load_system_fonts();
    fonts
}

/// What parsing an SVG document gives: the message of its error, or none
/// when it parses.
pub uninterp spec fn svg_parse_error(data: Seq<u8>) -> Option<Seq<char>>;

/// The size of a parsed SVG document, rounded to whole pixels: width and
/// height.
pub uninterp spec fn svg_pixel_size(data: Seq<u8>) -> (u32, u32);

/// `usvg::Tree::from_data` with `usvg::Options::default()` holding `fonts`
/// as its font database, then `Tree::size` rounded to whole pixels
/// (`Size::to_int_size`). As usvg's source shows, with the default options
/// whether parsing fails, the error's message (its `Display` text) and the
/// document's size depend on the bytes alone (UTF-8, gzip, XML, the element
/// limit, the `width`, `height` and `viewBox` attributes), not on the fonts,
/// which only shape text; they are named by `svg_parse_error` and
/// `svg_pixel_size`. What those are for given bytes is not stated.
#[verifier::external_body]
fn parse_svg(data: &[u8], fonts: Database) -> (r: Result<(Tree, u32, u32), String>)
    ensures
        match r {
            Ok((_, w, h)) => svg_parse_error(data@) is None && svg_pixel_size(data@) == (w, h),
            Err(m) => svg_parse_error(data@) == Some(m@),
        },
{
    let mut options = Options::default();
    options.fontdb = std::sync::Arc::new(fonts);
    match Tree::from_data(data, &options) {
        Ok(tree) => {
            let size = tree.size().to_int_size();
            Ok((tree, size.width(), size.height()))
        },
        Err(e) => Err(format!("{e}")),
    }
}

/// Whether tiny-skia makes a pixmap of `width` by `height` pixels: both
/// sides non-zero, a row of four bytes per pixel within `i32`, and the
/// pixel data within `usize` (`Pixmap::new`, `min_row_bytes`,
/// `compute_data_len`).
pub open spec fn pixmap_fits(width: u32, height: u32) -> bool {
    &&& width > 0
    &&& height > 0
    &&& 4 * width <= 0x7fff_ffff
    &&& 4 * width * height <= usize::MAX
}

/// `tiny_skia::Pixmap::new`: a transparent pixmap of the given size. As its
/// source shows, one comes back exactly when `pixmap_fits` holds (an
/// allocation that the system refuses aborts the process).
#[verifier::external_body]
fn new_pixmap(width: u32, height: u32) -> (r: Option<Pixmap>)
    ensures
        r is Some <==> pixmap_fits(width, height),
{
    Pixmap::new(width, height)
}

/// `resvg::render` of a tree onto a pixmap with the identity transform.
/// What it draws is not stated.
#[verifier::external_body]
fn render_tree(tree: &Tree, pixmap: &mut Pixmap) {
    let mut target = pixmap.as_mut();
    resvg::render(tree, resvg::tiny_skia::Transform::identity(), &mut target);
}

/// The eight bytes that every PNG file starts with.
pub open spec fn png_signature() -> Seq<u8> {
    seq![137u8, 80u8, 78u8, 71u8, 13u8, 10u8, 26u8, 10u8]
}

/// `bytes` starts with the PNG signature.
pub open spec fn has_png_signature(bytes: Seq<u8>) -> bool {
    bytes.len() >= 8 && bytes.subrange(0, 8) == png_signature()
}

/// `Pixmap::encode_png`: the PNG file of a pixmap, or the message of the
/// encoder's error. As the source shows, it encodes a non-empty RGBA pixmap
/// of 8 bits per channel, whose data has the length the header announces,
/// into a `Vec`, so it does not fail; `png::Encoder::write_header` writes
/// the signature and then the 25-byte `IHDR` chunk before anything else.
/// The rest of the bytes is not stated.
#[verifier::external_body]
fn encode_png(pixmap: &Pixmap) -> (r: Result<Vec<u8>, String>)
    ensures
        r is Ok,
        r matches Ok(bytes) ==> has_png_signature(bytes@) && bytes@.len() >= 33,
{
    pixmap.encode_png().map_err(|e| format!("{e}"))
}

/// The message when no pixmap of the image's size can be made.
pub open spec fn pixmap_error_text(width: nat, height: nat) -> Seq<char> {
    "Could not create pixmap for "@ + decimal(width) + "x"@ + decimal(height)
}

/// The message when no pixmap of `width` by `height` pixels can be made.
pub fn pixmap_error(width: u32, height: u32) -> (r: String)
    ensures
        r@ == pixmap_error_text(width as nat, height as nat),
{
    let mut msg = chars_of("Could not create pixmap for ");
    let w = decimal_chars(width as usize);
    push_all(&mut msg, &w);
    push_str(&mut msg, "x");
    let h = decimal_chars(height as usize);
    push_all(&mut msg, &h);
    string_of(&msg)
}

/// The messages that rendering an SVG image fails with.
pub open spec fn is_render_error(e: Seq<char>) -> bool {
    ||| starts_with(e, "Invalid SVG: "@)
    ||| exists|w: nat, h: nat| e == pixmap_error_text(w, h)
    ||| starts_with(e, "Failed encoding PNG: "@)
}

fn prefixed(prefix: &str, message: &String) -> (r: String)
    ensures
        r@ == prefix@ + message@,
        starts_with(r@, prefix@),
{
    let mut v = chars_of(prefix);
    push_str(&mut v, message.as_str());
    assert(v@.subrange(0, prefix@.len() as int) =~= prefix@);
    string_of(&v)
}

/// What rendering the SVG document `data` gives: the parse error; else the
/// pixmap error for an image whose size has no pixmap (a zero side, or too
/// large); else a PNG file (its pixels, which depend on the fonts, are not
/// stated).
pub open spec fn render_outcome_ok(data: Seq<u8>, r: Result<Seq<u8>, Seq<char>>) -> bool {
    match svg_parse_error(data) {
        Some(m) => r == Err::<Seq<u8>, Seq<char>>("Invalid SVG: "@ + m),
        None => {
            let (w, h) = svg_pixel_size(data);
            &&& !pixmap_fits(w, h) ==> r == Err::<Seq<u8>, Seq<char>>(pixmap_error_text(w as nat, h as nat))
            &&& pixmap_fits(w, h) ==> r is Ok
            &&& r matches Ok(bytes) ==> has_png_signature(bytes) && bytes.len() >= 33
        },
    }
}

pub open spec fn result_view(r: Result<Vec<u8>, String>) -> Result<Seq<u8>, Seq<char>> {
    match r {
        Ok(b) => Ok(b@),
        Err(e) => Err(e@),
    }
}

/// Renders an SVG document to PNG, shaping its text with `fonts`: the
/// document is parsed, a pixmap of its size rounded to whole pixels is made,
/// the image is drawn onto it and the pixmap is encoded as PNG, whose bytes
/// start with the PNG signature. A document that does not parse fails with
/// `Invalid SVG: ` and the parser's message; an image of zero width or
/// height fails with the pixmap message.
pub fn render_svg_with(svg_bytes: &[u8], fonts: Database) -> (r: Result<Vec<u8>, String>)
    ensures
        r matches Err(e) ==> is_render_error(e@),
        render_outcome_ok(svg_bytes@, result_view(r)),
{
    let (tree, width, height) = match parse_svg(svg_bytes, fonts) {
        Ok(t) => t,
        Err(m) => {
            return Err(prefixed("Invalid SVG: ", &m));
        },
    };
    let mut pixmap = match new_pixmap(width, height) {
        Some(p) => p,
        None => {
            let e = pixmap_error(width, height);
            assert(e@ == pixmap_error_text(width as nat, height as nat));
            return Err(e);
        },
    };
    render_tree(&tree, &mut pixmap);
    match encode_png(&pixmap) {
        Ok(bytes) => Ok(bytes),
        Err(m) => Err(prefixed("Failed encoding PNG: ", &m)),
    }
}

/// Rasterizes an SVG document into PNG bytes, shaping its text with the
/// fonts installed on this machine.
pub fn render_svg_to_png(svg_bytes: &[u8]) -> (r: Result<Vec<u8>, String>)
    ensures
        r matches Err(e) ==> is_render_error(e@),
        render_outcome_ok(svg_bytes@, result_view(r)),
{
    render_svg_with(svg_bytes, system_fonts())
}

} // verus!
