//! Session thumbnails: the row layout of a texture read back from the GPU,
//! the conversion of its rows to tightly packed RGBA, and the PNG/base64
//! text that a saved session stores.
use vstd::prelude::*;
use base64::Engine;

verus! {

/// Row alignment that buffer-texture copies require, in bytes.
pub const COPY_ROW_ALIGNMENT: u32 = 256;

/// Bytes of one padded row: `4 * width` rounded up to a multiple of 256.
pub open spec fn spec_padded_row(width: u32) -> int {
    ((4 * width + 255) / 256) * 256
}

/// Bytes per row of the staging buffer for a texture `width` pixels wide.
pub fn padded_bytes_per_row(width: u32) -> (p: u32)
    requires
        4 * width + 255 <= u32::MAX,
    ensures
        p as int == spec_padded_row(width),
        p >= 4 * width,
        p % COPY_ROW_ALIGNMENT == 0,
        p < 4 * width + COPY_ROW_ALIGNMENT,
{
    let bytes_per_row: u32 = width * 4;
    let x: u32 = bytes_per_row + (COPY_ROW_ALIGNMENT - 1);
    let p: u32 = x & !(COPY_ROW_ALIGNMENT - 1);
    assert(x & !255u32 == x - x % 256) by (bit_vector);
    assert(p as int == spec_padded_row(width));
    p
}

/// Channel `k` of an output pixel is read from channel `source_channel(k)`
/// of the stored pixel: red and blue trade places for BGRA textures.
pub open spec fn source_channel(k: int, bgra: bool) -> int {
    if bgra && k == 0 { 2 } else if bgra && k == 2 { 0 } else { k }
}

/// One stored row as RGBA bytes.
pub open spec fn rgba_row(row: Seq<u8>, bgra: bool) -> Seq<u8> {
    Seq::new(row.len(), |j: int| row[j - j % 4 + source_channel(j % 4, bgra)])
}

/// The first `rows` rows of a padded buffer, with padding stripped and
/// converted to RGBA.
pub open spec fn unpacked_rows(data: Seq<u8>, padded: int, row_bytes: int, bgra: bool, rows: nat) -> Seq<u8>
    decreases rows,
{
    if rows == 0 {
        Seq::empty()
    } else {
        let start = (rows - 1) * padded;
        unpacked_rows(data, padded, row_bytes, bgra, (rows - 1) as nat)
            + rgba_row(data.subrange(start, start + row_bytes), bgra)
    }
}

/// Tightly packed RGBA8 pixels (`width * height * 4` bytes) of a texture
/// read back with rows of `padded` bytes, swapping red and blue when the
/// texture is BGRA.
pub fn unpack_pixels(data: &Vec<u8>, width: u32, height: u32, padded: u32, bgra: bool) -> (pixels: Vec<u8>)
    requires
        4 * width <= padded,
        height > 0 ==> (height - 1) * padded + 4 * width <= data.len(),
    ensures
        pixels@ == unpacked_rows(data@, padded as int, 4 * width, bgra, height as nat),
        pixels.len() == 4 * width * height,
{
    let row_bytes: usize = (width as usize) * 4;
    let mut pixels: Vec<u8> = Vec::new();
    let mut row: u32 = 0;
    while row < height
        invariant
            row <= height,
            row_bytes == 4 * width,
            4 * width <= padded,
            height > 0 ==> (height - 1) * padded + 4 * width <= data.len(),
            pixels@ == unpacked_rows(data@, padded as int, 4 * width, bgra, row as nat),
            pixels.len() == 4 * width * row,
        decreases height - row,
    {
        proof {
            assert(row * padded + 4 * width <= data.len()) by (nonlinear_arith)
                requires
                    row < height,
                    (height - 1) * padded + 4 * width <= data.len(),
                    padded >= 0,
            ;
        }
        let offset: usize = (row as usize) * (padded as usize);
        let ghost before = pixels@;
        let ghost src = data@.subrange(offset as int, offset + row_bytes);
        let mut p: usize = 0;
        while p < row_bytes
            invariant
                p <= row_bytes,
                p % 4 == 0,
                row_bytes == 4 * width,
                row_bytes % 4 == 0,
                offset + row_bytes <= data.len(),
                src == data@.subrange(offset as int, offset + row_bytes),
                pixels@ == before + rgba_row(src, bgra).take(p as int),
            decreases row_bytes - p,
        {
            let base = offset + p;
            if bgra {
                pixels.push(data[base + 2]);
                pixels.push(data[base + 1]);
                pixels.push(data[base]);
                pixels.push(data[base + 3]);
            } else {
                pixels.push(data[base]);
                pixels.push(data[base + 1]);
                pixels.push(data[base + 2]);
                pixels.push(data[base + 3]);
            }
            proof {
                let r = rgba_row(src, bgra);
                assert forall|t: int| 0 <= t < 4 implies #[trigger] r[p + t] == src[p + source_channel(t, bgra)] by {
                    assert((p + t) % 4 == t);
                    assert(p + t - (p + t) % 4 == p);
                }
                assert(pixels@ =~= before + r.take(p + 4));
            }
            p = p + 4;
        }
        proof {
            assert(rgba_row(src, bgra).take(row_bytes as int) =~= rgba_row(src, bgra));
            assert((row + 1) as nat - 1 == row as nat);
            assert(4 * width * (row + 1) == 4 * width * row + 4 * width) by (nonlinear_arith);
        }
        row = row + 1;
    }
    pixels
}

/// A PNG file holding a `width` x `height` RGBA8 image whose pixel bytes
/// are `pixels` (as the `image` crate encodes it).
pub uninterp spec fn png_of_rgba(pixels: Seq<u8>, width: u32, height: u32) -> Seq<u8>;

/// Encodes an RGBA8 image as PNG with the `image` crate
/// (`RgbaImage::from_raw`, then `write_to` with `ImageFormat::Png`).
/// The bytes are those the crate writes; an encoding error leaves what was
/// written before it.
#[verifier::external_body]
fn encode_png(pixels: &Vec<u8>, width: u32, height: u32) -> (png: Vec<u8>)
    requires
        4 * width * height <= pixels.len(),
    ensures
        png@ == png_of_rgba(pixels@, width, height),
{
    match image::RgbaImage::from_raw(width, height, pixels.clone()) {
        Some(img) => {
            let mut out: Vec<u8> = Vec::new();
            let _ = img.write_to(&mut std::io::Cursor::new(&mut out), image::ImageFormat::Png);
            out
        },
        None => Vec::new(),
    }
}

/// The standard base64 alphabet (RFC 4648, section 4).
pub open spec fn base64_char(v: int) -> char {
    if v < 26 {
        (65 + v) as char
    } else if v < 52 {
        (97 + v - 26) as char
    } else if v < 62 {
        (48 + v - 52) as char
    } else if v == 62 {
        '+'
    } else {
        '/'
    }
}

/// Standard base64 with `=` padding of a byte sequence.
pub open spec fn base64_text(b: Seq<u8>) -> Seq<char>
    decreases b.len(),
{
    if b.len() == 0 {
        Seq::empty()
    } else if b.len() == 1 {
        seq![base64_char(b[0] as int / 4), base64_char((b[0] as int % 4) * 16), '=', '=']
    } else if b.len() == 2 {
        seq![
            base64_char(b[0] as int / 4),
            base64_char((b[0] as int % 4) * 16 + b[1] as int / 16),
            base64_char((b[1] as int % 16) * 4),
            '=',
        ]
    } else {
        seq![
            base64_char(b[0] as int / 4),
            base64_char((b[0] as int % 4) * 16 + b[1] as int / 16),
            base64_char((b[1] as int % 16) * 4 + b[2] as int / 64),
            base64_char(b[2] as int % 64),
        ] + base64_text(b.skip(3))
    }
}

/// Standard base64 encoding with padding
/// (`base64::engine::general_purpose::STANDARD.encode`).
#[verifier::external_body]
fn base64_encode(bytes: &Vec<u8>) -> (s: String)
    ensures
        s@ == base64_text(bytes@),
{
    base64::engine::general_purpose::STANDARD.encode(bytes)
}

/// The pixels a thumbnail is encoded from: `pixels` when it holds the whole
/// image, otherwise a transparent black image of the same size.
pub open spec fn thumbnail_source(pixels: Seq<u8>, width: u32, height: u32) -> Seq<u8> {
    if 4 * width * height <= pixels.len() {
        pixels
    } else {
        Seq::new((4 * width * height) as nat, |i: int| 0u8)
    }
}

/// Encodes RGBA pixels as a PNG and returns it as base64 text; when the
/// buffer is too short for the image a blank image of that size is encoded.
pub fn encode_thumbnail_png(pixels: &Vec<u8>, width: u32, height: u32) -> (text: String)
    requires
        4 * width * height <= usize::MAX,
    ensures
        text@ == base64_text(png_of_rgba(thumbnail_source(pixels@, width, height), width, height)),
{
    assert(width * height * 4 == 4 * width * height && width * height <= 4 * width * height) by (nonlinear_arith);
    let area: usize = (width as usize) * (height as usize);
    let needed: usize = area * 4;
    let png = if needed <= pixels.len() {
        encode_png(pixels, width, height)
    } else {
        let mut blank: Vec<u8> = Vec::new();
        let mut i: usize = 0;
        while i < needed
            invariant
                i <= needed,
                blank@ == Seq::new(i as nat, |k: int| 0u8),
            decreases needed - i,
        {
            blank.push(0u8);
            i = i + 1;
            assert(blank@ =~= Seq::new(i as nat, |k: int| 0u8));
        }
        assert(blank@ =~= thumbnail_source(pixels@, width, height));
        encode_png(&blank, width, height)
    };
    base64_encode(&png)
}

/// What standard base64 decoding (with padding) gives for a text: the
/// bytes, or `None` when the text is not valid base64.
pub uninterp spec fn base64_decoded(text: Seq<char>) -> Option<Seq<u8>>;

/// Standard base64 decoding (`base64::engine::general_purpose::STANDARD.decode`);
/// `None` where the crate reports a decode error. Decoding the encoding of
/// some bytes gives those bytes back; nothing else is stated of which texts
/// are accepted.
#[verifier::external_body]
fn base64_decode(text: &str) -> (r: Option<Vec<u8>>)
    ensures
        match r {
            Some(b) => base64_decoded(text@) == Some(b@),
            None => base64_decoded(text@) is None,
        },
        forall|b: Seq<u8>| #[trigger] base64_text(b) == text@ ==> r is Some && r->0@ == b,
{
    match base64::engine::general_purpose::STANDARD.decode(text) {
        Ok(bytes) => Some(bytes),
        Err(_) => None,
    }
}

/// The RGBA8 image a PNG file holds, as `(width, height, pixels)`, or
/// `None` when the `image` crate cannot decode it.
pub uninterp spec fn png_decoded(png: Seq<u8>) -> Option<(u32, u32, Seq<u8>)>;

/// Decodes a PNG file into RGBA8 pixels with the `image` crate
/// (`load_from_memory_with_format` with `ImageFormat::Png`, then
/// `into_rgba8`); `None` on a decode error.
#[verifier::external_body]
fn decode_png(png: &Vec<u8>) -> (r: Option<(u32, u32, Vec<u8>)>)
    ensures
        match r {
            Some((w, h, p)) => png_decoded(png@) == Some((w, h, p@)),
            None => png_decoded(png@) is None,
        },
{
    match image::load_from_memory_with_format(png, image::ImageFormat::Png) {
        Ok(img) => {
            let rgba = img.into_rgba8();
            Some((rgba.width(), rgba.height(), rgba.into_raw()))
        },
        Err(_) => None,
    }
}

/// The image a stored thumbnail text holds: nothing for an empty text,
/// otherwise the PNG decoded from the base64 text.
pub open spec fn thumbnail_image(text: Seq<char>) -> Option<(u32, u32, Seq<u8>)> {
    if text.len() == 0 {
        None
    } else {
        match base64_decoded(text) {
            Some(png) => png_decoded(png),
            None => None,
        }
    }
}

/// Decodes a stored thumbnail (base64 text of a PNG) into its width,
/// height and RGBA8 pixels; `None` for an empty text, invalid base64 or an
/// undecodable PNG.
pub fn decode_thumbnail(text: &str) -> (r: Option<(u32, u32, Vec<u8>)>)
    ensures
        match r {
            Some((w, h, p)) => thumbnail_image(text@) == Some((w, h, p@)),
            None => thumbnail_image(text@) is None,
        },
{
    if text.is_empty() {
        return None;
    }
    match base64_decode(text) {
        Some(png) => decode_png(&png),
        None => None,
    }
}

} // verus!
