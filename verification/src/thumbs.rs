//! Preview derivation: a fast path that pulls the small embedded
//! preview out of the file's own metadata block, accepted only when
//! its shorter side reaches the minimum-quality threshold, and a
//! fallback that decodes the whole file. Output previews always
//! exactly fill a 256-by-256 square and carry the orientation
//! rotation; mirrored orientation codes are left unrotated. An
//! outside decoder does the pixel work; this module decides which
//! bytes it sees and which result is kept, and tracks every image's
//! dimensions as plain values.

use vstd::prelude::*;
use crate::exif::{
    exif_raw_buffer, exif_thumb_length, exif_thumb_offset, read_exif_container,
};

verus! {

/// The shortest side an embedded preview must have to be used: a
/// smaller one would be upscaled into a blurry cache entry.
pub open spec fn size_gate() -> int {
    200
}

/// The edge length of every cached preview.
pub open spec fn thumb_edge() -> int {
    256
}

#[verifier::external_type_specification]
#[verifier::external_body]
pub struct ExDynamicImage(image::DynamicImage);

/// A decoded image together with its dimensions as plain values.
pub struct SizedImage {
    pub image: image::DynamicImage,
    pub width: u32,
    pub height: u32,
}

/// Whether the given bytes decode as an image, and to what
/// dimensions: the outcome depends on the bytes alone, so it is
/// given a name.
pub uninterp spec fn decoded_of(b: Seq<u8>) -> Option<(u32, u32)>;

/// Relies on image::load_from_memory and the dimension accessors of
/// the decoded image: decodes the bytes and measures the result,
/// whose observable outcome is named `decoded_of`.
#[verifier::external_body]
pub(crate) fn decode_image(bytes: &Vec<u8>) -> (r: Option<SizedImage>)
    ensures
        r is Some <==> decoded_of(bytes@) is Some,
        r is Some ==> (r->Some_0.width, r->Some_0.height) == decoded_of(bytes@)->Some_0,
{
    let image = image::load_from_memory(bytes.as_slice()).ok()?;
    let width = image::GenericImageView::width(&image);
    let height = image::GenericImageView::height(&image);
    Some(SizedImage { image, width, height })
}

/// Relies on DynamicImage::resize_to_fill with the high-quality
/// Lanczos filter: crops to fill the square exactly, never
/// letterboxing, so the result is exactly `edge` by `edge`.
#[verifier::external_body]
pub(crate) fn resize_to_fill_square(img: &image::DynamicImage, edge: u32) -> (r: SizedImage)
    ensures
        r.width == edge,
        r.height == edge,
{
    let image = img.resize_to_fill(edge, edge, image::imageops::FilterType::Lanczos3);
    SizedImage { image, width: edge, height: edge }
}

/// Relies on DynamicImage::rotate90, which swaps the dimensions.
#[verifier::external_body]
pub(crate) fn rotate_quarter(s: &SizedImage) -> (r: SizedImage)
    ensures
        r.width == s.height,
        r.height == s.width,
{
    SizedImage { image: s.image.rotate90(), width: s.height, height: s.width }
}

/// Relies on DynamicImage::rotate180, which keeps the dimensions.
#[verifier::external_body]
pub(crate) fn rotate_half(s: &SizedImage) -> (r: SizedImage)
    ensures
        r.width == s.width,
        r.height == s.height,
{
    SizedImage { image: s.image.rotate180(), width: s.width, height: s.height }
}

/// Relies on DynamicImage::rotate270, which swaps the dimensions.
#[verifier::external_body]
pub(crate) fn rotate_three_quarters(s: &SizedImage) -> (r: SizedImage)
    ensures
        r.width == s.height,
        r.height == s.width,
{
    SizedImage { image: s.image.rotate270(), width: s.height, height: s.width }
}

/// The quality gate: an embedded preview is accepted exactly when
/// its shorter side is at least two hundred pixels.
pub open spec fn spec_meets_size_gate(width: u32, height: u32) -> bool {
    if width <= height {
        width as int >= size_gate()
    } else {
        height as int >= size_gate()
    }
}

pub fn embedded_meets_size_gate(width: u32, height: u32) -> (r: bool)
    ensures
        r == spec_meets_size_gate(width, height),
{
    let short_side = if width <= height {
        width
    } else {
        height
    };
    short_side >= 200
}

/// The embedded preview is used exactly when it decoded and passes
/// the size gate; a rejected or missing preview defers to the
/// caller's fallback.
pub fn choose_jpeg_source(embedded: Option<SizedImage>) -> (r: Option<SizedImage>)
    ensures
        r is Some <==> (embedded is Some && spec_meets_size_gate(
            embedded->Some_0.width,
            embedded->Some_0.height,
        )),
        r is Some ==> r == embedded,
{
    match embedded {
        Some(s) => {
            if embedded_meets_size_gate(s.width, s.height) {
                Some(s)
            } else {
                None
            }
        },
        None => None,
    }
}

/// Copy of the bytes in `[offset, offset + length)`; absent when the
/// range is empty or runs past the end.
pub fn slice_range(v: &Vec<u8>, offset: u64, length: u64) -> (r: Option<Vec<u8>>)
    ensures
        (length > 0 && offset + length <= v@.len()) <==> r is Some,
        r is Some ==> r->Some_0@ == v@.subrange(offset as int, offset as int + length as int),
{
    if length == 0 {
        return None;
    }
    let n = v.len();
    if offset > n as u64 || length > n as u64 - offset {
        return None;
    }
    let off = offset as usize;
    let cnt = length as usize;
    proof {
        assert(off + cnt <= v@.len());
    }
    let end: usize = off + cnt;
    let mut out: Vec<u8> = Vec::new();
    let mut i: usize = off;
    while i < end
        invariant
            off <= i <= end <= v@.len(),
            end == off + cnt,
            off == offset && cnt == length,
            out@ == v@.subrange(off as int, i as int),
        decreases end - i,
    {
        out.push(v[i]);
        proof {
            assert(out@ =~= v@.subrange(off as int, i + 1 as int));
        }
        i = i + 1;
    }
    Some(out)
}

/// Pull the embedded preview bytes out of a raster file's metadata
/// block, if the block names one that lies within its bounds. The
/// container reads are opaque outside calls; the bounds check and the
/// byte copy are `slice_range`, whose contract is exact.
pub fn extract_embedded_preview(file_bytes: &Vec<u8>) -> (r: Option<Vec<u8>>) {
    let container = match read_exif_container(file_bytes) {
        Some(e) => e,
        None => {
            return None;
        },
    };
    let offset = match exif_thumb_offset(&container) {
        Some(o) => o,
        None => {
            return None;
        },
    };
    let length = match exif_thumb_length(&container) {
        Some(l) => l,
        None => {
            return None;
        },
    };
    let buf = exif_raw_buffer(&container);
    slice_range(&buf, offset, length)
}

/// Apply the orientation rotation: codes 3, 6 and 8 rotate by a
/// half, a quarter and three quarters; the mirror codes 2, 4, 5 and
/// 7 are out of scope and leave the image unrotated, as does an
/// absent or unknown code.
pub fn apply_orientation(s: SizedImage, orientation: Option<u16>) -> (r: SizedImage)
    ensures
        match orientation {
            Some(3u16) => r.width == s.width && r.height == s.height,
            Some(6u16) => r.width == s.height && r.height == s.width,
            Some(8u16) => r.width == s.height && r.height == s.width,
            _ => r == s,
        },
{
    match orientation {
        Some(3) => rotate_half(&s),
        Some(6) => rotate_quarter(&s),
        Some(8) => rotate_three_quarters(&s),
        _ => s,
    }
}

/// Resize to exactly fill the preview square, then apply the
/// orientation rotation; the result always measures 256 by 256.
pub fn generate_thumbnail_from_image(s: SizedImage, orientation: Option<u16>) -> (r: SizedImage)
    ensures
        r.width as int == thumb_edge(),
        r.height as int == thumb_edge(),
{
    let resized = resize_to_fill_square(&s.image, 256);
    apply_orientation(resized, orientation)
}

/// Derive the preview image for a raster file: the embedded preview
/// when it decodes and passes the size gate, else a full decode.
/// Success is owed whenever the whole file decodes; any result
/// measures exactly 256 by 256.
pub fn jpeg_thumbnail_image(file_bytes: &Vec<u8>, orientation: Option<u16>) -> (r: Option<
    SizedImage,
>)
    ensures
        decoded_of(file_bytes@) is Some ==> r is Some,
        r is Some ==> r->Some_0.width as int == thumb_edge() && r->Some_0.height as int
            == thumb_edge(),
{
    let embedded = match extract_embedded_preview(file_bytes) {
        Some(bytes) => decode_image(&bytes),
        None => None,
    };
    match choose_jpeg_source(embedded) {
        Some(s) => Some(generate_thumbnail_from_image(s, orientation)),
        None => {
            match decode_image(file_bytes) {
                Some(s) => Some(generate_thumbnail_from_image(s, orientation)),
                None => None,
            }
        },
    }
}

/// Derive the preview image for a raw file from its largest embedded
/// preview, already extracted by the caller's raw decoder. No
/// orientation is applied: camera-embedded previews come
/// pre-oriented. Succeeds exactly when the preview bytes decode.
pub fn raw_thumbnail_image(preview_bytes: &Vec<u8>) -> (r: Option<SizedImage>)
    ensures
        r is Some <==> decoded_of(preview_bytes@) is Some,
        r is Some ==> r->Some_0.width as int == thumb_edge() && r->Some_0.height as int
            == thumb_edge(),
{
    match decode_image(preview_bytes) {
        Some(s) => Some(generate_thumbnail_from_image(s, None)),
        None => None,
    }
}

/// Among the candidate previews, is any flagged as the sought
/// format?
pub open spec fn some_flagged(cands: Seq<(bool, Seq<u8>)>) -> bool {
    exists|i: int| 0 <= i < cands.len() && (#[trigger] cands[i]).0
}

/// Pick the largest candidate flagged as the sought format: the
/// result is one of the flagged candidates and no flagged candidate
/// is longer. Absent exactly when none is flagged.
pub fn pick_largest_flagged(cands: Vec<(bool, Vec<u8>)>) -> (r: Option<Vec<u8>>)
    ensures
        r is Some <==> exists|i: int| 0 <= i < cands@.len() && (#[trigger] cands@[i]).0,
        r is Some ==> exists|i: int|
            0 <= i < cands@.len() && (#[trigger] cands@[i]).0 && cands@[i].1@ == r->Some_0@,
        r is Some ==> forall|i: int|
            0 <= i < cands@.len() && (#[trigger] cands@[i]).0 ==> cands@[i].1@.len()
                <= r->Some_0@.len(),
{
    let n = cands.len();
    let mut best: Option<usize> = None;
    let mut i: usize = 0;
    while i < n
        invariant
            i <= n == cands@.len(),
            match best {
                Some(b) => b < i && (cands@[b as int]).0 && forall|q: int|
                    0 <= q < i && (#[trigger] cands@[q]).0 ==> cands@[q].1@.len()
                        <= cands@[b as int].1@.len(),
                None => forall|q: int| 0 <= q < i ==> !(#[trigger] cands@[q]).0,
            },
        decreases n - i,
    {
        if cands[i].0 {
            best = match best {
                Some(b) => {
                    if cands[i].1.len() >= cands[b].1.len() {
                        Some(i)
                    } else {
                        Some(b)
                    }
                },
                None => Some(i),
            };
        }
        i = i + 1;
    }
    match best {
        Some(b) => {
            let mut picked = cands;
            let e = picked.remove(b);
            proof {
                assert((cands@[b as int]).0);
            }
            Some(e.1)
        },
        None => None,
    }
}

} // verus!
