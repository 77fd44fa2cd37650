//! Metadata extraction from in-memory file contents. The container
//! parsing itself is done by outside decoders behind trusted
//! wrappers; everything that interprets their results — timestamp
//! slicing, text-field cleanup, make/model combining — is verified
//! here, exactly, over plain values.

use vstd::prelude::*;
use crate::datetime::parse_exif_datetime;
use crate::model::PhotoFormat;
use crate::text::{chars_to_string, str_to_chars};

verus! {

/// Best-effort metadata of one file: every field may be absent.
#[derive(Debug, Clone)]
pub struct ExifData {
    pub capture_time: Option<i64>,
    pub camera_model: Option<String>,
    pub lens: Option<String>,
    pub orientation: Option<u16>,
}

impl ExifData {
    /// The all-absent record every failure path degrades to.
    pub fn empty() -> (r: ExifData)
        ensures
            r.capture_time is None,
            r.camera_model is None,
            r.lens is None,
            r.orientation is None,
    {
        ExifData { capture_time: None, camera_model: None, lens: None, orientation: None }
    }
}

/// The metadata fields of a raw file as its decoder reports them,
/// still uninterpreted.
#[derive(Debug, Clone)]
pub struct RawMetaFields {
    pub make: Vec<u8>,
    pub model: Vec<u8>,
    pub lens_model: Option<Vec<u8>>,
    pub date_time_original: Option<Vec<u8>>,
    pub orientation: Option<u16>,
}

#[verifier::external_type_specification]
#[verifier::external_body]
pub struct ExExif(exif::Exif);

/// Relies on exif::Reader::read_from_container: parses the metadata
/// container out of the raster file's bytes, if there is one.
#[verifier::external_body]
pub(crate) fn read_exif_container(bytes: &Vec<u8>) -> (r: Option<exif::Exif>) {
    exif::Reader::new().read_from_container(&mut std::io::Cursor::new(bytes.as_slice())).ok()
}

/// Relies on exif::Exif::get_field with the original-date/time tag:
/// hands back the raw text of that field, if present.
#[verifier::external_body]
pub(crate) fn exif_datetime_original(e: &exif::Exif) -> (r: Option<Vec<u8>>) {
    match e.get_field(exif::Tag::DateTimeOriginal, exif::In::PRIMARY) {
        Some(f) => match &f.value {
            exif::Value::Ascii(vecs) => vecs.first().cloned(),
            _ => None,
        },
        None => None,
    }
}

/// Relies on exif::Exif::get_field with the camera-model tag.
#[verifier::external_body]
pub(crate) fn exif_camera_model(e: &exif::Exif) -> (r: Option<Vec<u8>>) {
    match e.get_field(exif::Tag::Model, exif::In::PRIMARY) {
        Some(f) => match &f.value {
            exif::Value::Ascii(vecs) => vecs.first().cloned(),
            _ => None,
        },
        None => None,
    }
}

/// Relies on exif::Exif::get_field with the lens-model tag.
#[verifier::external_body]
pub(crate) fn exif_lens_model(e: &exif::Exif) -> (r: Option<Vec<u8>>) {
    match e.get_field(exif::Tag::LensModel, exif::In::PRIMARY) {
        Some(f) => match &f.value {
            exif::Value::Ascii(vecs) => vecs.first().cloned(),
            _ => None,
        },
        None => None,
    }
}

/// Relies on exif::Exif::get_field with the orientation tag: the
/// code is one of 1 through 8 in well-formed files, but nothing is
/// assumed of it here.
#[verifier::external_body]
pub(crate) fn exif_orientation(e: &exif::Exif) -> (r: Option<u16>) {
    match e.get_field(exif::Tag::Orientation, exif::In::PRIMARY) {
        Some(f) => match &f.value {
            exif::Value::Short(v) => v.first().copied(),
            _ => None,
        },
        None => None,
    }
}

/// Relies on exif::Exif::get_field with the thumbnail-offset tag of
/// the thumbnail directory.
#[verifier::external_body]
pub(crate) fn exif_thumb_offset(e: &exif::Exif) -> (r: Option<u64>) {
    match e.get_field(exif::Tag::JPEGInterchangeFormat, exif::In::THUMBNAIL) {
        Some(f) => match &f.value {
            exif::Value::Long(v) => v.first().map(|x| *x as u64),
            _ => None,
        },
        None => None,
    }
}

/// Relies on exif::Exif::get_field with the thumbnail-length tag of
/// the thumbnail directory.
#[verifier::external_body]
pub(crate) fn exif_thumb_length(e: &exif::Exif) -> (r: Option<u64>) {
    match e.get_field(exif::Tag::JPEGInterchangeFormatLength, exif::In::THUMBNAIL) {
        Some(f) => match &f.value {
            exif::Value::Long(v) => v.first().map(|x| *x as u64),
            _ => None,
        },
        None => None,
    }
}

/// Relies on exif::Exif::buf: the raw bytes of the metadata block,
/// which the thumbnail offsets index into.
#[verifier::external_body]
pub(crate) fn exif_raw_buffer(e: &exif::Exif) -> (r: Vec<u8>) {
    e.buf().to_vec()
}

/// Relies on String::from_utf8: succeeds exactly on valid UTF-8 and
/// decodes to the character sequence whose encoding is the input.
#[verifier::external_body]
pub(crate) fn bytes_to_string(v: Vec<u8>) -> (r: Option<String>)
    ensures
        r is Some <==> vstd::utf8::valid_utf8(v@),
        r is Some ==> vstd::utf8::encode_utf8(r->Some_0@) == v@,
{
    String::from_utf8(v).ok()
}

/// An ASCII whitespace byte, as the text-field cleanup removes it.
pub open spec fn is_ws_byte(b: u8) -> bool {
    b == 32 || (9 <= b && b <= 13)
}

pub open spec fn trim_ws_front(s: Seq<u8>) -> Seq<u8>
    decreases s.len(),
{
    if s.len() > 0 && is_ws_byte(s[0]) {
        trim_ws_front(s.drop_first())
    } else {
        s
    }
}

pub open spec fn trim_ws_back(s: Seq<u8>) -> Seq<u8>
    decreases s.len(),
{
    if s.len() > 0 && is_ws_byte(s.last()) {
        trim_ws_back(s.drop_last())
    } else {
        s
    }
}

/// The cleanup every metadata text field goes through: whitespace
/// trimmed at both ends, and an empty remainder treated as absent.
pub open spec fn spec_clean_field(s: Seq<u8>) -> Option<Seq<u8>> {
    let t = trim_ws_back(trim_ws_front(s));
    if t.len() == 0 {
        None
    } else {
        Some(t)
    }
}

fn ws_byte(b: u8) -> (r: bool)
    ensures
        r == is_ws_byte(b),
{
    b == 32 || (9 <= b && b <= 13)
}

/// Trim whitespace from both ends; absent when nothing remains.
pub fn clean_field_bytes(s: Vec<u8>) -> (r: Option<Vec<u8>>)
    ensures
        match r {
            Some(t) => spec_clean_field(s@) == Some(t@),
            None => spec_clean_field(s@) is None,
        },
{
    let mut v = s;
    let ghost orig = v@;
    while v.len() > 0 && ws_byte(v[0])
        invariant
            trim_ws_front(v@) == trim_ws_front(orig),
        decreases v.len(),
    {
        let ghost before = v@;
        v.remove(0);
        proof {
            assert(v@ =~= before.drop_first());
        }
    }
    proof {
        assert(trim_ws_front(v@) == v@);
    }
    let ghost fronted = trim_ws_front(orig);
    while v.len() > 0 && ws_byte(v[v.len() - 1])
        invariant
            trim_ws_back(v@) == trim_ws_back(fronted),
        decreases v.len(),
    {
        let ghost before = v@;
        v.pop();
        proof {
            assert(v@ =~= before.drop_last());
        }
    }
    proof {
        assert(trim_ws_back(v@) == v@);
    }
    if v.len() == 0 {
        None
    } else {
        Some(v)
    }
}

/// What cleaning and decoding a text field yields: the trimmed text,
/// decoded as UTF-8, when it is non-empty and well-formed; nothing
/// otherwise.
pub open spec fn spec_text_field(s: Seq<u8>) -> Option<Seq<char>> {
    match spec_clean_field(s) {
        None => None,
        Some(t) => if vstd::utf8::valid_utf8(t) {
            Some(vstd::utf8::decode_utf8(t))
        } else {
            None
        },
    }
}

/// `out` is exactly the cleaned and decoded form of the raw field.
pub open spec fn text_field_matches(raw: Seq<u8>, out: Option<String>) -> bool {
    match out {
        Some(s) => spec_text_field(raw) == Some(s@),
        None => spec_text_field(raw) is None,
    }
}

/// Lifted to an optional raw field: absent input stays absent.
pub open spec fn opt_field_matches(raw: Option<Vec<u8>>, out: Option<String>) -> bool {
    match raw {
        Some(v) => text_field_matches(v@, out),
        None => out is None,
    }
}

/// The cleaned text, or empty when the field cleans to nothing.
pub open spec fn text_or_empty(s: Seq<u8>) -> Seq<char> {
    match spec_text_field(s) {
        Some(t) => t,
        None => Seq::empty(),
    }
}

/// The capture time a raw datetime field yields: cleaned, decoded and
/// parsed by literal slicing; absent when any step fails.
pub open spec fn spec_capture_of(raw: Option<Vec<u8>>) -> Option<i64> {
    match raw {
        Some(v) => match spec_text_field(v@) {
            Some(t) => crate::datetime::spec_parse_exif_datetime(t),
            None => None,
        },
        None => None,
    }
}

/// Clean a raw text field and decode it, when it is plain ASCII.
pub fn clean_text_field(s: Vec<u8>) -> (r: Option<String>)
    ensures
        text_field_matches(s@, r),
{
    match clean_field_bytes(s) {
        Some(t) => {
            let ghost tv = t@;
            let r = bytes_to_string(t);
            proof {
                if r is Some {
                    vstd::utf8::encode_utf8_decode_utf8(r->Some_0@);
                    assert(vstd::utf8::decode_utf8(tv) == r->Some_0@);
                }
            }
            r
        },
        None => None,
    }
}

/// Is `p` a prefix of `s`?
pub open spec fn is_char_prefix(p: Seq<char>, s: Seq<char>) -> bool {
    p.len() <= s.len() && s.take(p.len() as int) == p
}

fn starts_with_chars(s: &Vec<char>, p: &Vec<char>) -> (r: bool)
    ensures
        r == is_char_prefix(p@, s@),
{
    if p.len() > s.len() {
        proof {
            assert(!is_char_prefix(p@, s@));
        }
        return false;
    }
    let mut i: usize = 0;
    while i < p.len()
        invariant
            i <= p@.len() <= s@.len(),
            forall|j: int| 0 <= j < i ==> #[trigger] s@[j] == p@[j],
        decreases p@.len() - i,
    {
        if s[i] != p[i] {
            proof {
                assert(s@.take(p@.len() as int)[i as int] != p@[i as int]);
            }
            return false;
        }
        i = i + 1;
    }
    proof {
        assert(s@.take(p@.len() as int) =~= p@);
    }
    true
}

/// What combining make and model yields: the model alone when it
/// already names the make (so "Canon Canon EOS" never appears), the
/// make alone when the model is empty, nothing when both are empty,
/// and "make model" otherwise.
pub open spec fn spec_combine_make_model(make: Seq<char>, model: Seq<char>) -> Option<Seq<char>> {
    if model.len() == 0 && make.len() == 0 {
        None
    } else if model.len() == 0 {
        Some(make)
    } else if make.len() == 0 || is_char_prefix(make, model) {
        Some(model)
    } else {
        Some(make + seq![' '] + model)
    }
}

/// Combine camera make and model into one display string.
pub fn combine_make_model(make: &String, model: &String) -> (r: Option<String>)
    ensures
        match r {
            Some(t) => spec_combine_make_model(make@, model@) == Some(t@),
            None => spec_combine_make_model(make@, model@) is None,
        },
{
    let mk = str_to_chars(make.as_str());
    let md = str_to_chars(model.as_str());
    if md.len() == 0 && mk.len() == 0 {
        None
    } else if md.len() == 0 {
        Some(chars_to_string(&mk))
    } else if mk.len() == 0 || starts_with_chars(&md, &mk) {
        Some(chars_to_string(&md))
    } else {
        let mut out = chars_to_string(&mk);
        out.append(" ");
        out.append(model.as_str());
        proof {
            reveal_strlit(" ");
            assert(out@ =~= make@ + seq![' '] + model@);
        }
        Some(out)
    }
}

/// The record built from one container's raw fields: the timestamp
/// cleaned and parsed by literal slicing, the text fields cleaned,
/// the orientation code passed through.
pub open spec fn jpeg_fields_interpreted(
    dto: Option<Vec<u8>>,
    model: Option<Vec<u8>>,
    lens: Option<Vec<u8>>,
    orientation: Option<u16>,
    r: ExifData,
) -> bool {
    &&& r.capture_time == spec_capture_of(dto)
    &&& opt_field_matches(model, r.camera_model)
    &&& opt_field_matches(lens, r.lens)
    &&& r.orientation == orientation
}

/// Interpret the raw fields of a raster file's metadata container.
pub fn interpret_jpeg_fields(
    dto: Option<Vec<u8>>,
    model: Option<Vec<u8>>,
    lens: Option<Vec<u8>>,
    orientation: Option<u16>,
) -> (r: ExifData)
    ensures
        jpeg_fields_interpreted(dto, model, lens, orientation, r),
{
    let capture_time = match dto {
        Some(raw) => {
            match clean_text_field(raw) {
                Some(s) => parse_exif_datetime(s.as_str()),
                None => None,
            }
        },
        None => None,
    };
    let camera_model = match model {
        Some(raw) => clean_text_field(raw),
        None => None,
    };
    let lens_out = match lens {
        Some(raw) => clean_text_field(raw),
        None => None,
    };
    ExifData { capture_time, camera_model, lens: lens_out, orientation }
}

/// Extract metadata from the bytes of a raster-preview file. Never
/// fails: anything the container does not yield is simply absent.
/// The container reads are opaque outside calls, so this function's
/// own contract cannot reach the bytes; everything that interprets
/// their results is `interpret_jpeg_fields`, whose contract is exact.
pub fn extract_jpeg_exif(bytes: &Vec<u8>) -> (r: ExifData)
{
    match read_exif_container(bytes) {
        Some(container) => {
            let dto = exif_datetime_original(&container);
            let model = exif_camera_model(&container);
            let lens = exif_lens_model(&container);
            let orientation = exif_orientation(&container);
            interpret_jpeg_fields(dto, model, lens, orientation)
        },
        None => ExifData::empty(),
    }
}

/// What the raw decoder's metadata-only decode yields for given file
/// bytes: the result takes pages to state but depends on the bytes
/// alone, so it is given a name.
pub uninterp spec fn raw_meta_of(b: Seq<u8>) -> Option<RawMetaFields>;

/// Relies on rawler::get_decoder and its Decoder::raw_metadata: a
/// metadata-only decode of the raw file's bytes, handing the text
/// fields back as plain values named `raw_meta_of`. Two decoder calls
/// stand in this one body because the decoder between them is a boxed
/// trait object no declaration can carry; what they yield depends on
/// the bytes alone.
#[verifier::external_body]
pub(crate) fn raw_metadata_fields(bytes: Vec<u8>) -> (r: Option<RawMetaFields>)
    ensures
        r == raw_meta_of(bytes@),
{
    let src = rawler::rawsource::RawSource::new_from_shared_vec(std::sync::Arc::new(bytes));
    let decoder = rawler::get_decoder(&src).ok()?;
    let params = rawler::decoders::RawDecodeParams { image_index: 0 };
    let md = decoder.raw_metadata(&src, &params).ok()?;
    Some(RawMetaFields {
        make: md.make.into_bytes(),
        model: md.model.into_bytes(),
        lens_model: md.exif.lens_model.map(String::into_bytes),
        date_time_original: md.exif.date_time_original.map(String::into_bytes),
        orientation: md.exif.orientation,
    })
}

/// The record built from a raw decoder's fields: timestamp cleaned
/// and parsed, make and model cleaned and combined, lens cleaned,
/// orientation passed through.
pub open spec fn raw_fields_interpreted(f: RawMetaFields, r: ExifData) -> bool {
    &&& r.capture_time == spec_capture_of(f.date_time_original)
    &&& (match r.camera_model {
        Some(s) => spec_combine_make_model(text_or_empty(f.make@), text_or_empty(f.model@))
            == Some(s@),
        None => spec_combine_make_model(text_or_empty(f.make@), text_or_empty(f.model@)) is None,
    })
    &&& opt_field_matches(f.lens_model, r.lens)
    &&& r.orientation == f.orientation
}

/// Interpret the fields of a raw file's metadata-only decode.
pub fn interpret_raw_fields(f: RawMetaFields) -> (r: ExifData)
    ensures
        raw_fields_interpreted(f, r),
{
    let RawMetaFields { make, model, lens_model, date_time_original, orientation } = f;
    let capture_time = match date_time_original {
        Some(d) => {
            match clean_text_field(d) {
                Some(s) => parse_exif_datetime(s.as_str()),
                None => None,
            }
        },
        None => None,
    };
    let mk = match clean_text_field(make) {
        Some(s) => s,
        None => String::new(),
    };
    let md = match clean_text_field(model) {
        Some(s) => s,
        None => String::new(),
    };
    let camera_model = combine_make_model(&mk, &md);
    let lens = match lens_model {
        Some(v) => clean_text_field(v),
        None => None,
    };
    ExifData { capture_time, camera_model, lens, orientation }
}

/// Extract metadata from the bytes of a raw-sensor file: the decoder
/// reads the container, the verified code combines make and model
/// and parses the timestamp. When the decode yields nothing, every
/// field is absent.
pub fn extract_raw_exif(bytes: Vec<u8>) -> (r: ExifData)
    ensures
        match raw_meta_of(bytes@) {
            Some(f) => raw_fields_interpreted(f, r),
            None => r.capture_time is None && r.camera_model is None && r.lens is None
                && r.orientation is None,
        },
{
    match raw_metadata_fields(bytes) {
        Some(f) => interpret_raw_fields(f),
        None => ExifData::empty(),
    }
}

/// Dispatch to the extractor matching the file's format: the
/// two-variant enum is matched exhaustively, with no third case.
pub fn extract_exif(bytes: Vec<u8>, format: PhotoFormat) -> (r: ExifData)
    ensures
        format == PhotoFormat::Raw ==> match raw_meta_of(bytes@) {
            Some(f) => raw_fields_interpreted(f, r),
            None => r.capture_time is None && r.camera_model is None && r.lens is None
                && r.orientation is None,
        },
{
    match format {
        PhotoFormat::Jpeg => extract_jpeg_exif(&bytes),
        PhotoFormat::Raw => extract_raw_exif(bytes),
    }
}

} // verus!
