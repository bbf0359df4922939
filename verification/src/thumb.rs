//! Thumbnail extraction and preview transport encoding.
//!
//! A preview is made by decoding an image buffer in memory, downsampling
//! it so that neither dimension exceeds a fixed bound (aspect ratio
//! preserved, high-quality resampling), re-encoding it as JPEG at a fixed
//! quality, and wrapping the payload as a self-describing data URI.
//! Previews are best-effort: a buffer that fails to decode or encode is
//! simply omitted, and at most the first few scanned files are previewed.
//! The decode–downsample–encode chain and the dimension probe are each a
//! function of the input bytes alone, so their results carry names
//! ([`thumb_jpeg_of`], [`decoded_dims_of`]) that the contracts here and in
//! the edit engine are exact over.

use vstd::prelude::*;
use vstd::string::*;

verus! {

/// Neither preview dimension exceeds this bound.
pub const PREVIEW_MAX_DIM: u32 = 300;

/// The JPEG quality previews are encoded at.
pub const PREVIEW_JPEG_QUALITY: u8 = 80;

/// At most this many previews are produced.
pub const PREVIEW_COUNT: usize = 4;

/// Largest JPEG payload that is base64-encoded for transport; larger
/// payloads are dropped so that encoding cannot overflow.
pub const PREVIEW_PAYLOAD_CAP: usize = 0x3000_0000;

/// What the standard padded base64 alphabet encodes a byte string to.
pub uninterp spec fn b64_of(b: Seq<u8>) -> Seq<char>;

/// What the standard padded base64 alphabet decodes a string to, when it
/// decodes at all.
pub uninterp spec fn b64_decode_of(s: Seq<char>) -> Option<Seq<u8>>;

/// The JPEG bytes that decoding an image buffer, downsampling it within
/// the given bound (aspect ratio preserved) and re-encoding at the given
/// quality produce — or nothing, when the buffer does not decode or the
/// thumbnail does not encode.
pub uninterp spec fn thumb_jpeg_of(b: Seq<u8>, max_dim: u32, quality: u8) -> Option<Seq<u8>>;

/// The pixel dimensions an image buffer decodes to, in the catalog's
/// signed fields — or nothing, when the buffer does not decode.
pub uninterp spec fn decoded_dims_of(b: Seq<u8>) -> Option<(i32, i32)>;

/// Relies on base64's `Engine::encode` with the `STANDARD` (padded)
/// engine: the result depends on the bytes alone, and its length is four
/// characters for every started group of three bytes.
#[verifier::external_body]
fn to_base64(b: &Vec<u8>) -> (r: String)
    requires
        b@.len() <= 0x3000_0000,
    ensures
        r@ == b64_of(b@),
        r@.len() == 4 * ((b@.len() + 2) / 3),
{
    base64::Engine::encode(&base64::engine::general_purpose::STANDARD, b)
}

/// Relies on base64's `Engine::decode` with the `STANDARD` (padded)
/// engine: the outcome depends on the characters alone. A refused payload
/// reports the decoder's own description; nothing is promised of that
/// text.
#[verifier::external_body]
pub(crate) fn from_base64(s: &str) -> (r: Result<Vec<u8>, String>)
    ensures
        match r {
            Ok(v) => b64_decode_of(s@) == Some(v@),
            Err(_) => b64_decode_of(s@) is None,
        },
{
    match base64::Engine::decode(&base64::engine::general_purpose::STANDARD, s) {
        Ok(v) => Ok(v),
        Err(e) => Err(format!("{}", e)),
    }
}

/// Relies on image's `load_from_memory`, `DynamicImage::resize` (largest
/// size fitting the bounds, aspect ratio preserved, Lanczos3 filter) and
/// `DynamicImage::write_to` with the JPEG encoder at the given quality:
/// the chain's outcome depends on the buffer and the two parameters alone.
#[verifier::external_body]
fn thumb_jpeg(bytes: &Vec<u8>, max_dim: u32, quality: u8) -> (r: Option<Vec<u8>>)
    ensures
        match r {
            Some(j) => thumb_jpeg_of(bytes@, max_dim, quality) == Some(j@),
            None => thumb_jpeg_of(bytes@, max_dim, quality) is None,
        },
{
    let img = match image::load_from_memory(bytes) {
        Ok(i) => i,
        Err(_) => return None,
    };
    let thumb = img.resize(max_dim, max_dim, image::imageops::FilterType::Lanczos3);
    let mut buffer: Vec<u8> = Vec::new();
    let mut cursor = std::io::Cursor::new(&mut buffer);
    match thumb.write_to(&mut cursor, image::ImageOutputFormat::Jpeg(quality)) {
        Ok(()) => Some(buffer),
        Err(_) => None,
    }
}

/// Relies on image's `load_from_memory` and `GenericImageView`'s `width`
/// and `height`: the dimensions depend on the buffer alone. They are
/// truncated into the catalog's signed fields, as the record schema
/// stores them.
#[verifier::external_body]
pub(crate) fn decode_dims(bytes: &Vec<u8>) -> (r: Option<(i32, i32)>)
    ensures
        match r {
            Some(d) => decoded_dims_of(bytes@) == Some(d),
            None => decoded_dims_of(bytes@) is None,
        },
{
    match image::load_from_memory(bytes) {
        Ok(img) => {
            let w = image::GenericImageView::width(&img);
            let h = image::GenericImageView::height(&img);
            Some((w as i32, h as i32))
        },
        Err(_) => None,
    }
}

/// Relies on chrono's `Local::now`, formatted as the automatic import
/// folder stamp (two-digit year, month, day, hour and minute). The result
/// depends on the clock, so nothing is promised of it.
#[verifier::external_body]
pub(crate) fn folder_stamp() -> (r: String) {
    chrono::Local::now().format("%y-%m-%d %H-%M").to_string()
}

/// Relies on chrono's `Local::now` in RFC 3339 form, for record creation
/// stamps. The result depends on the clock, so nothing is promised of it.
#[verifier::external_body]
pub(crate) fn now_stamp() -> (r: String) {
    chrono::Local::now().to_rfc3339()
}

/// The preview, if any, that one buffer yields: the thumbnail chain's JPEG
/// payload at the fixed bound and quality, capped for transport, wrapped
/// as a data URI.
pub open spec fn spec_preview_of(b: Seq<u8>) -> Option<Seq<char>> {
    match thumb_jpeg_of(b, PREVIEW_MAX_DIM, PREVIEW_JPEG_QUALITY) {
        Some(j) => if j.len() <= PREVIEW_PAYLOAD_CAP {
            Some("data:image/jpeg;base64,"@ + b64_of(j))
        } else {
            None
        },
        None => None,
    }
}

/// The previews of the first `k` buffers, in buffer order, with the
/// buffers that yield none dropped.
pub open spec fn spec_previews(bufs: Seq<Seq<u8>>, k: int) -> Seq<Seq<char>>
    decreases k,
{
    if k <= 0 || k > bufs.len() {
        Seq::empty()
    } else {
        spec_previews(bufs, k - 1) + match spec_preview_of(bufs[k - 1]) {
            Some(s) => seq![s],
            None => Seq::empty(),
        }
    }
}

/// The byte views of a list of buffers.
pub open spec fn spec_buf_views(s: Seq<Vec<u8>>) -> Seq<Seq<u8>> {
    s.map_values(|v: Vec<u8>| v@)
}

/// Builds one preview from an image buffer: decode, downsample within the
/// preview bound, re-encode as JPEG, and wrap as a data URI. The result
/// is exactly [`spec_preview_of`] the buffer: a buffer that fails to
/// decode or encode (or whose encoding is outsized) yields nothing rather
/// than an error.
pub fn thumbnail_data_uri(bytes: &Vec<u8>) -> (r: Option<String>)
    ensures
        match r {
            Some(s) => spec_preview_of(bytes@) == Some(s@),
            None => spec_preview_of(bytes@) is None,
        },
{
    let jpeg = match thumb_jpeg(bytes, PREVIEW_MAX_DIM, PREVIEW_JPEG_QUALITY) {
        Some(j) => j,
        None => {
            return None;
        },
    };
    if jpeg.len() > PREVIEW_PAYLOAD_CAP {
        return None;
    }
    let b64 = to_base64(&jpeg);
    let r = String::from_str("data:image/jpeg;base64,").concat(b64.as_str());
    proof {
        assert(r@ == "data:image/jpeg;base64,"@ + b64_of(jpeg@));
    }
    Some(r)
}

/// Builds the preview list for a volume scan: exactly the previews of the
/// first [`PREVIEW_COUNT`] buffers, in order, with failing buffers
/// silently omitted.
pub fn build_previews(buffers: &Vec<Vec<u8>>) -> (r: Vec<String>)
    ensures
        crate::scan::spec_views(r@) == spec_previews(
            spec_buf_views(buffers@),
            if buffers@.len() < PREVIEW_COUNT {
                buffers@.len() as int
            } else {
                PREVIEW_COUNT as int
            },
        ),
        r@.len() <= PREVIEW_COUNT,
        r@.len() <= buffers@.len(),
{
    let mut out: Vec<String> = Vec::new();
    let n = buffers.len();
    let cap = if n < PREVIEW_COUNT {
        n
    } else {
        PREVIEW_COUNT
    };
    proof {
        assert(crate::scan::spec_views(out@) =~= Seq::<Seq<char>>::empty());
    }
    let mut i: usize = 0;
    while i < cap
        invariant
            cap <= n,
            cap <= PREVIEW_COUNT,
            n == buffers@.len(),
            i <= cap,
            out@.len() <= i,
            crate::scan::spec_views(out@) == spec_previews(spec_buf_views(buffers@), i as int),
        decreases cap - i,
    {
        let ghost bviews = spec_buf_views(buffers@);
        proof {
            assert(bviews[i as int] == buffers@[i as int]@);
        }
        match thumbnail_data_uri(&buffers[i]) {
            Some(uri) => {
                let ghost prev = out@;
                out.push(uri);
                proof {
                    assert(crate::scan::spec_views(out@) =~= spec_previews(
                        bviews,
                        i as int + 1,
                    ));
                }
            },
            None => {
                proof {
                    assert(crate::scan::spec_views(out@) + Seq::<Seq<char>>::empty()
                        =~= crate::scan::spec_views(out@));
                    assert(crate::scan::spec_views(out@) =~= spec_previews(
                        bviews,
                        i as int + 1,
                    ));
                }
            },
        }
        i += 1;
    }
    out
}

} // verus!
