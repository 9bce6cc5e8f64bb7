use vstd::prelude::*;
use vstd::utf8::valid_utf8;

use crate::bytes::copy_range;

verus! {

/// Relies on simdutf8::basic::from_utf8: succeeds exactly on valid UTF-8.
#[verifier::external_body]
pub fn is_utf8(data: &[u8]) -> (r: bool)
    ensures
        r == valid_utf8(data@),
{
    simdutf8::basic::from_utf8(data).is_ok()
}

/// The UTF-8 bytes of UTF-16 `data` (big-endian or little-endian), its byte
/// order mark removed.
pub uninterp spec fn utf16_to_utf8(data: Seq<u8>, big_endian: bool) -> Seq<u8>;

/// Whether the encoding guessed for `data` is UTF-8.
pub uninterp spec fn guessed_utf8(data: Seq<u8>) -> bool;

/// The UTF-8 bytes of `data`, read in the encoding guessed for it.
pub uninterp spec fn guessed_to_utf8(data: Seq<u8>) -> Seq<u8>;

/// Relies on encoding_rs::Encoding::decode with UTF_16BE or UTF_16LE.
#[verifier::external_body]
fn decode_utf16(data: &[u8], big_endian: bool) -> (r: Vec<u8>)
    ensures
        r@ == utf16_to_utf8(data@, big_endian),
{
    let encoding = if big_endian { encoding_rs::UTF_16BE } else { encoding_rs::UTF_16LE };
    encoding.decode(data).0.into_owned().into_bytes()
}

/// Relies on chardetng::EncodingDetector (feed, then guess allowing UTF-8) and
/// encoding_rs::Encoding::decode: `None` when the guess is UTF-8, else `data`
/// decoded in the guessed encoding.
#[verifier::external_body]
fn transcode_guessed(data: &[u8]) -> (r: Option<Vec<u8>>)
    ensures
        r is None <==> guessed_utf8(data@),
        r matches Some(v) ==> v@ == guessed_to_utf8(data@),
{
    let mut detector = chardetng::EncodingDetector::new();
    detector.feed(data, true);
    let encoding = detector.guess(None, true);
    if encoding == encoding_rs::UTF_8 {
        return None;
    }
    Some(encoding.decode(data).0.into_owned().into_bytes())
}

pub open spec fn spec_has_utf8_bom(d: Seq<u8>) -> bool {
    d.len() >= 3 && d[0] == 0xEFu8 && d[1] == 0xBBu8 && d[2] == 0xBFu8
}

pub open spec fn spec_skip_bom(d: Seq<u8>) -> Seq<u8> {
    if spec_has_utf8_bom(d) {
        d.subrange(3, d.len() as int)
    } else {
        d
    }
}

/// Whether `data` starts with the UTF-8 byte order mark.
pub fn has_utf8_bom(data: &[u8]) -> (r: bool)
    ensures
        r == spec_has_utf8_bom(data@),
{
    data.len() >= 3 && data[0] == 0xEF && data[1] == 0xBB && data[2] == 0xBF
}

/// `data` without a leading UTF-8 byte order mark.
pub fn skip_bom(data: &[u8]) -> (r: &[u8])
    ensures
        r@ == spec_skip_bom(data@),
{
    if has_utf8_bom(data) {
        &data[3..data.len()]
    } else {
        data
    }
}

/// The sample as UTF-8, and whether it was transcoded: UTF-16 by its byte
/// order mark, valid UTF-8 as it is, else the guessed encoding.
pub open spec fn spec_transcode(d: Seq<u8>) -> (Seq<u8>, bool) {
    if d.len() >= 2 && d[0] == 0xFFu8 && d[1] == 0xFEu8 {
        (utf16_to_utf8(d, false), true)
    } else if d.len() >= 2 && d[0] == 0xFEu8 && d[1] == 0xFFu8 {
        (utf16_to_utf8(d, true), true)
    } else if valid_utf8(d) || guessed_utf8(d) {
        (d, false)
    } else {
        (guessed_to_utf8(d), true)
    }
}

/// Transcode the sample to UTF-8 where it is not UTF-8 already.
pub fn detect_and_transcode(data: &[u8]) -> (r: (Vec<u8>, bool))
    ensures
        (r.0@, r.1) == spec_transcode(data@),
{
    if data.len() >= 2 {
        if data[0] == 0xFF && data[1] == 0xFE {
            return (decode_utf16(data, false), true);
        }
        if data[0] == 0xFE && data[1] == 0xFF {
            return (decode_utf16(data, true), true);
        }
    }
    let guessed = if is_utf8(data) {
        None
    } else {
        transcode_guessed(data)
    };
    match guessed {
        Some(v) => (v, true),
        None => {
            let copy = copy_range(data, 0, data.len());
            assert(copy@ =~= data@);
            (copy, false)
        },
    }
}

/// Encoding facts about a sample.
#[derive(Debug, Clone, Copy, PartialEq, Eq, Structural)]
pub struct EncodingInfo {
    /// The sample, without a byte order mark, is valid UTF-8.
    pub is_utf8: bool,
    pub has_bom: bool,
}

impl EncodingInfo {
    pub fn new(is_utf8: bool, has_bom: bool) -> (r: EncodingInfo)
        ensures
            r == (EncodingInfo { is_utf8, has_bom }),
    {
        EncodingInfo { is_utf8, has_bom }
    }
}

/// Whether the sample has a UTF-8 byte order mark and is UTF-8 after it.
pub fn detect_encoding(data: &[u8]) -> (r: EncodingInfo)
    ensures
        r == (EncodingInfo {
            is_utf8: valid_utf8(spec_skip_bom(data@)),
            has_bom: spec_has_utf8_bom(data@),
        }),
{
    let has_bom = has_utf8_bom(data);
    let rest = skip_bom(data);
    EncodingInfo { is_utf8: is_utf8(rest), has_bom }
}

} // verus!
