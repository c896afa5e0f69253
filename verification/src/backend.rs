//! Capture rules of the clipboard reader: which texts, images and file lists
//! are recorded, the pixel hash of an image, and the thumbnail size.
//! Reading and writing the system clipboard itself happens outside the library.

use vstd::prelude::*;
use vstd::utf8::encode_utf8;

use crate::clipboard::{
    blake3_hex, domain_hash, domain_input, is_lower_hex, part_views, Captured, ClipboardKind,
    MAX_IMAGE_BYTES, MAX_TEXT_BYTES, THUMB_MAX_EDGE,
};
use crate::error::AppError;
use crate::store::copy_strings;
use crate::text::{all_white, is_blank};

verus! {

/// Retries when another process holds the clipboard.
pub const OCCUPIED_RETRIES: usize = 3;

/// Retry rule of a clipboard access: after a failed attempt number `attempt`
/// (counting from 0), retry as attempt `attempt + 1` only when the clipboard
/// was occupied and fewer than `OCCUPIED_RETRIES` retries were made.
pub fn next_attempt(attempt: usize, occupied: bool) -> (res: Option<usize>)
    ensures
        res == (if occupied && attempt < OCCUPIED_RETRIES {
            Some((attempt + 1) as usize)
        } else {
            None::<usize>
        }),
{
    if occupied && attempt < OCCUPIED_RETRIES {
        Some(attempt + 1)
    } else {
        None
    }
}

/// Byte length of a text as `str::len` reports it (its UTF-8 length, which
/// fits in `usize` for any text held in memory).
pub open spec fn text_byte_len(text: Seq<char>) -> usize {
    encode_utf8(text).len() as usize
}

/// Whether a text is recorded: not blank once trimmed, and at most `MAX_TEXT_BYTES` UTF-8 bytes.
pub open spec fn text_recorded(text: Seq<char>) -> bool {
    !all_white(text) && text_byte_len(text) <= MAX_TEXT_BYTES
}

/// Threshold of a copied text: blank or oversized texts are skipped; the kept
/// text is stored as it is (not trimmed).
pub fn text_snapshot(text: String) -> (res: Option<Captured>)
    ensures
        res is Some <==> text_recorded(text@),
        res is Some ==> res == Some(Captured::Text(text)),
{
    if is_blank(text.as_str()) {
        return None;
    }
    if text.as_str().len() > MAX_TEXT_BYTES {
        return None;
    }
    Some(Captured::Text(text))
}

/// A copied file list is recorded when it is not empty.
pub fn files_snapshot(paths: Vec<String>) -> (res: Option<Captured>)
    ensures
        res is Some <==> paths@.len() > 0,
        res is Some ==> res == Some(Captured::Files(paths)),
{
    if paths.len() == 0 {
        None
    } else {
        Some(Captured::Files(paths))
    }
}

/// Whether an image's decoded RGBA8 size, width x height x 4 bytes, exceeds `MAX_IMAGE_BYTES`.
pub open spec fn image_too_large_spec(width: u32, height: u32) -> bool {
    width as int * height as int * 4 > MAX_IMAGE_BYTES as int
}

/// Whether the decoded RGBA8 bytes (width x height x 4) exceed `MAX_IMAGE_BYTES`;
/// an overflowing product counts as too large.
pub fn image_too_large(width: u32, height: u32) -> (res: bool)
    ensures
        res == image_too_large_spec(width, height),
{
    let w = width as u64;
    let h = height as u64;
    assert(w * h <= 0xffff_ffff_u64 * 0xffff_ffff_u64) by (nonlinear_arith)
        requires
            w <= 0xffff_ffff,
            h <= 0xffff_ffff,
    ;
    let px = w * h;
    if px > 0x3fff_ffff_ffff_ffff_u64 {
        true
    } else {
        px * 4 > MAX_IMAGE_BYTES as u64
    }
}

/// Little-endian bytes of a `u32`.
pub open spec fn le_bytes(x: u32) -> Seq<u8> {
    seq![
        (x % 256) as u8,
        ((x / 256) % 256) as u8,
        ((x / 65536) % 256) as u8,
        ((x / 16777216) % 256) as u8,
    ]
}

/// `u32::to_le_bytes`.
fn u32_le_bytes(x: u32) -> (res: [u8; 4])
    ensures
        res@ == le_bytes(x),
{
    let res = [
        (x % 256) as u8,
        ((x / 256) % 256) as u8,
        ((x / 65536) % 256) as u8,
        ((x / 16777216) % 256) as u8,
    ];
    assert(res@ =~= le_bytes(x));
    res
}

/// Pixel hash of an image: BLAKE3 of `"image\0"`, width and height (little
/// endian) and the RGBA8 bytes.
pub open spec fn pixel_hash_spec(width: u32, height: u32, rgba: Seq<u8>) -> Seq<char> {
    blake3_hex(domain_input(ClipboardKind::Image, seq![le_bytes(width), le_bytes(height), rgba]))
}

/// Pixel hash of an image. It hashes pixels, not PNG bytes, so an image written
/// back and captured again hits the same entry.
pub fn pixel_hash(width: u32, height: u32, rgba: &[u8]) -> (res: String)
    ensures
        res@ == pixel_hash_spec(width, height, rgba@),
        res@.len() == 64,
        is_lower_hex(res@),
{
    let w = u32_le_bytes(width);
    let h = u32_le_bytes(height);
    let parts = [w.as_slice(), h.as_slice(), rgba];
    let res = domain_hash(ClipboardKind::Image, &parts);
    assert(part_views(parts@) =~= seq![le_bytes(width), le_bytes(height), rgba@]);
    res
}

/// One edge of a thumbnail: `edge * THUMB_MAX_EDGE / longest` rounded half up, at least 1.
pub open spec fn scaled_edge(edge: u32, longest: u32) -> int {
    let v = (2 * edge * THUMB_MAX_EDGE + longest) / (2 * longest as int);
    if v < 1 {
        1
    } else {
        v
    }
}

/// Thumbnail size: the longest edge scaled to `THUMB_MAX_EDGE`, same aspect
/// ratio, never enlarged, at least one pixel per edge.
pub open spec fn thumb_size_spec(width: u32, height: u32) -> (int, int) {
    let longest = if width >= height {
        width
    } else {
        height
    };
    if longest <= THUMB_MAX_EDGE {
        (if width < 1 {
            1
        } else {
            width as int
        }, if height < 1 {
            1
        } else {
            height as int
        })
    } else {
        (scaled_edge(width, longest), scaled_edge(height, longest))
    }
}

fn scale_edge(edge: u32, longest: u32) -> (res: u32)
    requires
        edge <= longest,
        longest > THUMB_MAX_EDGE,
    ensures
        res == scaled_edge(edge, longest),
        1 <= res <= THUMB_MAX_EDGE,
        edge >= 1 ==> res <= edge,
        edge == longest ==> res == THUMB_MAX_EDGE,
{
    let num = 2 * (edge as u64) * (THUMB_MAX_EDGE as u64) + longest as u64;
    let den = 2 * (longest as u64);
    let v = num / den;
    assert(v <= THUMB_MAX_EDGE) by (nonlinear_arith)
        requires
            num == 2 * edge * 256 + longest,
            den == 2 * longest,
            v == num / den,
            edge <= longest,
            longest > 256,
    ;
    assert(edge >= 1 ==> v <= edge) by (nonlinear_arith)
        requires
            num == 2 * edge * 256 + longest,
            den == 2 * longest,
            v == num / den,
            edge <= longest,
            longest > 256,
    ;
    assert(edge == longest ==> v == 256) by (nonlinear_arith)
        requires
            num == 2 * edge * 256 + longest,
            den == 2 * longest,
            v == num / den,
            longest > 256,
    ;
    if v < 1 {
        1
    } else {
        v as u32
    }
}

/// Thumbnail size: longest edge at most `THUMB_MAX_EDGE` pixels, proportional,
/// never enlarged, at least 1 pixel per edge. Halves round up.
pub fn thumb_size(width: u32, height: u32) -> (res: (u32, u32))
    ensures
        (res.0 as int, res.1 as int) == thumb_size_spec(width, height),
        1 <= res.0 <= THUMB_MAX_EDGE,
        1 <= res.1 <= THUMB_MAX_EDGE,
        width >= 1 ==> res.0 <= width,
        height >= 1 ==> res.1 <= height,
        (width > THUMB_MAX_EDGE || height > THUMB_MAX_EDGE) ==> (res.0 == THUMB_MAX_EDGE
            || res.1 == THUMB_MAX_EDGE),
{
    let longest = if width >= height {
        width
    } else {
        height
    };
    if longest <= THUMB_MAX_EDGE {
        (if width < 1 {
            1
        } else {
            width
        }, if height < 1 {
            1
        } else {
            height
        })
    } else {
        (scale_edge(width, longest), scale_edge(height, longest))
    }
}

/// The bytes of an optional byte vector.
pub open spec fn opt_bytes(o: Option<Vec<u8>>) -> Option<Seq<u8>> {
    match o {
        Some(v) => Some(v@),
        None => None,
    }
}

/// PNG file of a `width` x `height` RGBA8 image (as `image` encodes it), or
/// `None` when the encoder refuses the image.
pub uninterp spec fn png_encoding(width: u32, height: u32, pixels: Seq<u8>) -> Option<Seq<u8>>;

/// RGBA8 pixels of the `new_width` x `new_height` thumbnail that
/// `image::imageops::thumbnail` makes of a `width` x `height` image.
pub uninterp spec fn thumbnail_pixels(
    width: u32,
    height: u32,
    pixels: Seq<u8>,
    new_width: u32,
    new_height: u32,
) -> Seq<u8>;

/// `ImageBuffer::write_to` with `ImageFormat::Png` on the image that
/// `RgbaImage::from_raw` makes of the pixels (which succeeds: the buffer is
/// large enough). The encoding depends on its arguments alone.
#[verifier::external_body]
fn encode_png(width: u32, height: u32, pixels: &[u8]) -> (res: Option<Vec<u8>>)
    requires
        4 * width * height <= pixels@.len(),
    ensures
        opt_bytes(res) == png_encoding(width, height, pixels@),
{
    let image = image::RgbaImage::from_raw(width, height, pixels.to_vec())?;
    let mut buf = std::io::Cursor::new(Vec::new());
    image.write_to(&mut buf, image::ImageFormat::Png).ok()?;
    Some(buf.into_inner())
}

/// `image::imageops::thumbnail` on the image that `RgbaImage::from_raw` makes
/// of the pixels (which succeeds: the buffer is large enough). The result is a
/// `new_width` x `new_height` RGBA8 buffer and depends on the arguments alone.
#[verifier::external_body]
fn thumbnail_rgba(width: u32, height: u32, pixels: &[u8], new_width: u32, new_height: u32) -> (res:
    Option<Vec<u8>>)
    requires
        4 * width * height <= pixels@.len(),
        1 <= new_width <= THUMB_MAX_EDGE,
        1 <= new_height <= THUMB_MAX_EDGE,
    ensures
        res is Some,
        opt_bytes(res) == Some(thumbnail_pixels(width, height, pixels@, new_width, new_height)),
        res.unwrap()@.len() == 4 * new_width * new_height,
{
    let image = image::RgbaImage::from_raw(width, height, pixels.to_vec())?;
    Some(image::imageops::thumbnail(&image, new_width, new_height).into_raw())
}

/// Whether a copied image is kept: size fits in `u32`, not too large, and the
/// bytes cover width x height pixels.
pub open spec fn image_accepted(width: usize, height: usize, len: int) -> bool {
    width <= u32::MAX && height <= u32::MAX && !image_too_large_spec(width as u32, height as u32)
        && 4 * width * height <= len
}

/// What the image threshold makes of a copied `width` x `height` image with
/// bytes `bytes`: nothing when it is not accepted; otherwise the image with
/// its PNG, the PNG of its thumbnail (`thumb_size_spec`), its size and its
/// pixel hash, or nothing when an encoding fails.
pub open spec fn is_image_snapshot(
    width: usize,
    height: usize,
    bytes: Seq<u8>,
    res: Option<Captured>,
) -> bool {
    if !image_accepted(width, height, bytes.len() as int) {
        res is None
    } else {
        let w = width as u32;
        let h = height as u32;
        let t = thumb_size_spec(w, h);
        let png = png_encoding(w, h, bytes);
        let thumb = png_encoding(
            t.0 as u32,
            t.1 as u32,
            thumbnail_pixels(w, h, bytes, t.0 as u32, t.1 as u32),
        );
        &&& res is Some <==> (png is Some && thumb is Some)
        &&& res is Some ==> (res.unwrap() matches Captured::Image {
            png: p,
            thumb_png: tp,
            width: rw,
            height: rh,
            rgba_hash,
        } && p@ == png.unwrap() && tp@ == thumb.unwrap() && rw == w && rh == h && rgba_hash@
            == pixel_hash_spec(w, h, bytes))
    }
}

/// Image threshold and encoding: checks size and byte count, hashes the
/// pixels, and encodes the PNG and the thumbnail PNG. `None` when the image is
/// skipped or an encoding fails.
pub fn image_snapshot(width: usize, height: usize, bytes: Vec<u8>) -> (res: Option<Captured>)
    ensures
        is_image_snapshot(width, height, bytes@, res),
{
    if width > 0xffff_ffff || height > 0xffff_ffff {
        return None;
    }
    let w = width as u32;
    let h = height as u32;
    if image_too_large(w, h) {
        return None;
    }
    let px = (w as u64) * (h as u64);
    let need = px * 4;
    assert(need == 4 * width * height) by (nonlinear_arith)
        requires
            px == w * h,
            need == px * 4,
            w == width,
            h == height,
    ;
    if need > bytes.len() as u64 {
        return None;
    }
    let rgba_hash = pixel_hash(w, h, bytes.as_slice());
    let (tw, th) = thumb_size(w, h);
    let png = encode_png(w, h, bytes.as_slice());
    let thumb = match thumbnail_rgba(w, h, bytes.as_slice(), tw, th) {
        Some(px) => encode_png(tw, th, px.as_slice()),
        None => None,
    };
    match (png, thumb) {
        (Some(png), Some(thumb_png)) => Some(
            Captured::Image { png, thumb_png, width: w, height: h, rgba_hash },
        ),
        _ => None,
    }
}

/// The view of a decoding result: size and pixels, or the error's text.
pub open spec fn decoded_view(r: Result<(u32, u32, Vec<u8>), String>) -> Result<
    (u32, u32, Seq<u8>),
    Seq<char>,
> {
    match r {
        Ok((w, h, px)) => Ok((w, h, px@)),
        Err(e) => Err(e@),
    }
}

/// What `image` makes of PNG bytes: the width, height and RGBA8 pixels of
/// the decoded image, or the text of the decoding error.
pub uninterp spec fn png_decoding(png: Seq<u8>) -> Result<(u32, u32, Seq<u8>), Seq<char>>;

/// `png` is what `image` encodes for `img`, a non-empty (width, height,
/// RGBA8 pixels) image with exactly width x height pixels (and no larger
/// than an image that is recorded at all).
pub open spec fn is_png_of(png: Seq<u8>, img: (u32, u32, Seq<u8>)) -> bool {
    &&& 0 < img.0
    &&& 0 < img.1
    &&& img.2.len() == 4 * img.0 * img.1
    &&& img.2.len() <= MAX_IMAGE_BYTES
    &&& png_encoding(img.0, img.1, img.2) == Some(png)
}

/// The eight bytes that every PNG file starts with.
pub open spec fn png_signature() -> Seq<u8> {
    seq![137u8, 80u8, 78u8, 71u8, 13u8, 10u8, 26u8, 10u8]
}

/// Whether `bytes` start with the PNG signature.
pub open spec fn has_png_signature(bytes: Seq<u8>) -> bool {
    bytes.len() >= 8 && bytes.take(8) == png_signature()
}

/// A decoding outcome of `png` that is the encoded image whenever `png` is
/// the encoding of an image.
pub open spec fn gives_back_encoded(
    png: Seq<u8>,
    out: Result<(u32, u32, Seq<u8>), Seq<char>>,
) -> bool {
    forall|img: (u32, u32, Seq<u8>)|
        #[trigger] is_png_of(png, img) ==> out == Ok::<(u32, u32, Seq<u8>), Seq<char>>(img)
}

/// `image::load_from_memory_with_format` with `ImageFormat::Png`, then
/// `into_rgba8`: the size and RGBA8 pixels of the image, or the error's
/// `Display` text. The outcome depends on the bytes alone. PNG is lossless
/// and `image` writes an RGBA8 buffer as an 8-bit RGBA PNG, which it decodes
/// back to the same RGBA8 buffer: decoding what `encode_png` made of a
/// non-empty image gives that image back (for images of at most
/// `MAX_IMAGE_BYTES` pixel bytes; larger ones run into the decoder's
/// allocation budget, whose exact threshold is not claimed). Bytes that do
/// not start with the PNG signature fail to decode.
#[verifier::external_body]
fn decode_png(png: &[u8]) -> (res: Result<(u32, u32, Vec<u8>), String>)
    ensures
        decoded_view(res) == png_decoding(png@),
        gives_back_encoded(png@, decoded_view(res)),
        !has_png_signature(png@) ==> res is Err,
{
    match image::load_from_memory_with_format(png, image::ImageFormat::Png) {
        Ok(img) => {
            let rgba = img.into_rgba8();
            Ok((rgba.width(), rgba.height(), rgba.into_raw()))
        },
        Err(e) => Err(e.to_string()),
    }
}

/// PNG bytes as RGBA8 pixels (to write an image back to the clipboard); a
/// decoding failure is a clipboard error with the decoder's text.
pub fn decode_rgba(png: &[u8]) -> (res: Result<(u32, u32, Vec<u8>), AppError>)
    ensures
        match png_decoding(png@) {
            Ok((w, h, px)) => res matches Ok((rw, rh, rpx)) && rw == w && rh == h && rpx@ == px,
            Err(m) => res matches Err(AppError::Clipboard(e)) && e@ == m,
        },
        forall|img: (u32, u32, Seq<u8>)|
            #[trigger] is_png_of(png@, img) ==> (res matches Ok((rw, rh, rpx)) && rw == img.0
                && rh == img.1 && rpx@ == img.2),
        !has_png_signature(png@) ==> res matches Err(AppError::Clipboard(_)),
{
    match decode_png(png) {
        Ok(img) => Ok(img),
        Err(e) => Err(AppError::Clipboard(e)),
    }
}

/// What is put on the system clipboard for a snapshot.
#[derive(Debug)]
pub enum ClipboardPayload {
    /// Text.
    Text(String),
    /// A `width` x `height` RGBA8 image.
    Image { width: u32, height: u32, rgba: Vec<u8> },
    /// A file list.
    Files(Vec<String>),
}

/// What writing `captured` back puts on the clipboard: the text, the image
/// decoded from its PNG (decoded once, before the clipboard is opened), or
/// the file list. Fails only when the PNG does not decode.
pub fn write_payload(captured: &Captured) -> (res: Result<ClipboardPayload, AppError>)
    ensures
        match *captured {
            Captured::Text(t) => res matches Ok(ClipboardPayload::Text(r)) && r@ == t@,
            Captured::Files(paths) => res matches Ok(ClipboardPayload::Files(r)) && r@ == paths@,
            Captured::Image { png, .. } => match png_decoding(png@) {
                Ok((w, h, px)) => res matches Ok(ClipboardPayload::Image { width, height, rgba })
                    && width == w && height == h && rgba@ == px,
                Err(m) => res matches Err(AppError::Clipboard(e)) && e@ == m,
            },
        },
        // An image is written back with the very pixels it was encoded from.
        captured matches Captured::Image { png, .. } ==> forall|img: (u32, u32, Seq<u8>)|
            #[trigger] is_png_of(png@, img) ==> (res matches Ok(
                ClipboardPayload::Image { width, height, rgba },
            ) && width == img.0 && height == img.1 && rgba@ == img.2),
        // Bytes that are not a PNG fail to decode.
        captured matches Captured::Image { png, .. } ==> (!has_png_signature(png@) ==> res matches Err(
            AppError::Clipboard(_),
        )),
{
    match captured {
        Captured::Text(t) => Ok(ClipboardPayload::Text(t.clone())),
        Captured::Files(paths) => Ok(ClipboardPayload::Files(copy_strings(paths))),
        Captured::Image { png, .. } => {
            match decode_rgba(png.as_slice()) {
                Ok((width, height, rgba)) => Ok(ClipboardPayload::Image { width, height, rgba }),
                Err(e) => Err(e),
            }
        },
    }
}

/// The outcome of reading one format from the clipboard.
#[derive(Debug)]
pub enum FormatRead<T> {
    /// The clipboard held the format.
    Read(T),
    /// Another process holds the clipboard: the whole read is retried.
    Occupied,
    /// The format is not on the clipboard (or could not be read).
    Unavailable,
}

/// Where a clipboard read goes after one format.
#[derive(Debug)]
pub enum ReadStep {
    /// The read is over with this snapshot (`None`: nothing to record).
    Done(Option<Captured>),
    /// The clipboard is occupied: retry the whole read.
    Occupied,
    /// Try the next format (files, then image, then text).
    Next,
}

/// After reading the file list (tried first): a non-empty list is the
/// snapshot; an empty or missing list moves on to the image.
pub fn after_files_read(read: FormatRead<Vec<String>>) -> (res: ReadStep)
    ensures
        match read {
            FormatRead::Read(paths) => if paths@.len() > 0 {
                res == ReadStep::Done(Some(Captured::Files(paths)))
            } else {
                res is Next
            },
            FormatRead::Occupied => res is Occupied,
            FormatRead::Unavailable => res is Next,
        },
{
    match read {
        FormatRead::Read(paths) => match files_snapshot(paths) {
            Some(c) => ReadStep::Done(Some(c)),
            None => ReadStep::Next,
        },
        FormatRead::Occupied => ReadStep::Occupied,
        FormatRead::Unavailable => ReadStep::Next,
    }
}

/// After reading the image (`width`, `height`, RGBA8 bytes): an image ends
/// the read with what the image threshold makes of it, even when that is
/// nothing; a missing image moves on to the text.
pub fn after_image_read(read: FormatRead<(usize, usize, Vec<u8>)>) -> (res: ReadStep)
    ensures
        match read {
            FormatRead::Read((w, h, bytes)) => res matches ReadStep::Done(c) && is_image_snapshot(
                w,
                h,
                bytes@,
                c,
            ),
            FormatRead::Occupied => res is Occupied,
            FormatRead::Unavailable => res is Next,
        },
{
    match read {
        FormatRead::Read((w, h, bytes)) => ReadStep::Done(image_snapshot(w, h, bytes)),
        FormatRead::Occupied => ReadStep::Occupied,
        FormatRead::Unavailable => ReadStep::Next,
    }
}

/// After reading the text (tried last): the text threshold decides; no text
/// ends the read with nothing.
pub fn after_text_read(read: FormatRead<String>) -> (res: ReadStep)
    ensures
        match read {
            FormatRead::Read(t) => res matches ReadStep::Done(c) && (if text_recorded(t@) {
                c matches Some(Captured::Text(r)) && r@ == t@
            } else {
                c is None
            }),
            FormatRead::Occupied => res is Occupied,
            FormatRead::Unavailable => res matches ReadStep::Done(None),
        },
{
    match read {
        FormatRead::Read(t) => ReadStep::Done(text_snapshot(t)),
        FormatRead::Occupied => ReadStep::Occupied,
        FormatRead::Unavailable => ReadStep::Done(None),
    }
}

} // verus!
