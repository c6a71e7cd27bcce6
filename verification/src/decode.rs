//! Decoding text files: UTF-8 first, then the CJK legacy encodings GBK,
//! Big5, Shift_JIS and EUC-JP, then lossy UTF-8.
use vstd::prelude::*;
use vstd::utf8::{decode_utf8, valid_utf8};

verus! {

/// The legacy encodings tried in order after UTF-8.
#[derive(Clone, Copy, PartialEq, Eq, Debug)]
pub enum Legacy {
    Gbk,
    Big5,
    ShiftJis,
    EucJp,
}

/// What `Encoding::decode` of `encoding_rs` yields for `enc` on `bytes`:
/// the text (with BOM sniffing, malformed sequences replaced) and whether
/// malformed sequences were met.
pub uninterp spec fn legacy_decoded(enc: Legacy, bytes: Seq<u8>) -> (Seq<char>, bool);

/// What `String::from_utf8_lossy` yields on `bytes`.
pub uninterp spec fn lossy_utf8(bytes: Seq<u8>) -> Seq<char>;

/// Inputs short enough that no decoder's output-size computation overflows.
pub open spec fn decodable_len(n: nat) -> bool {
    n <= usize::MAX / 8
}

/// `encoding_rs::Encoding::decode` for `enc` (GBK, BIG5, SHIFT_JIS or
/// EUC_JP): its result, taken as (text, had_errors), is `legacy_decoded`.
/// `decode` panics only when its buffer size overflows `usize`, which the
/// length bound rules out.
#[verifier::external_body]
fn decode_legacy(enc: Legacy, data: &[u8]) -> (out: (String, bool))
    requires
        decodable_len(data@.len()),
    ensures
        (out.0@, out.1) == legacy_decoded(enc, data@),
{
    let e = match enc {
        Legacy::Gbk => encoding_rs::GBK,
        Legacy::Big5 => encoding_rs::BIG5,
        Legacy::ShiftJis => encoding_rs::SHIFT_JIS,
        Legacy::EucJp => encoding_rs::EUC_JP,
    };
    let (text, _used, had_errors) = e.decode(data);
    (text.into_owned(), had_errors)
}

/// `std::str::from_utf8`: `Ok` exactly on valid UTF-8, and then the text
/// those bytes encode.
#[verifier::external_body]
fn utf8_str(data: &[u8]) -> (out: Option<String>)
    ensures
        out is Some <==> valid_utf8(data@),
        out matches Some(s) ==> s@ == decode_utf8(data@),
{
    std::str::from_utf8(data).ok().map(|s| s.to_string())
}

/// `String::from_utf8_lossy`: its result is `lossy_utf8`; on valid UTF-8 it
/// is the text the bytes encode.
#[verifier::external_body]
pub(crate) fn utf8_lossy(data: &[u8]) -> (out: String)
    ensures
        out@ == lossy_utf8(data@),
        valid_utf8(data@) ==> out@ == decode_utf8(data@),
{
    String::from_utf8_lossy(data).into_owned()
}

/// The text of a chapter file of an archive, as it is read for parsing:
/// its bytes as UTF-8, with each invalid sequence replaced.
pub fn chapter_text_of(data: &[u8]) -> (out: String)
    ensures
        out@ == lossy_utf8(data@),
        valid_utf8(data@) ==> out@ == decode_utf8(data@),
{
    utf8_lossy(data)
}

/// The text of a file's bytes: UTF-8 when valid; otherwise the first of
/// GBK, Big5, Shift_JIS, EUC-JP that decodes without errors; otherwise
/// lossy UTF-8.
pub open spec fn decoded_text(d: Seq<u8>) -> Seq<char> {
    if valid_utf8(d) {
        decode_utf8(d)
    } else if !legacy_decoded(Legacy::Gbk, d).1 {
        legacy_decoded(Legacy::Gbk, d).0
    } else if !legacy_decoded(Legacy::Big5, d).1 {
        legacy_decoded(Legacy::Big5, d).0
    } else if !legacy_decoded(Legacy::ShiftJis, d).1 {
        legacy_decoded(Legacy::ShiftJis, d).0
    } else if !legacy_decoded(Legacy::EucJp, d).1 {
        legacy_decoded(Legacy::EucJp, d).0
    } else {
        lossy_utf8(d)
    }
}

/// Decodes file bytes as `decoded_text` says.
pub fn decode_text(data: &[u8]) -> (out: String)
    requires
        decodable_len(data@.len()),
    ensures
        out@ == decoded_text(data@),
{
    if let Some(s) = utf8_str(data) {
        return s;
    }
    let (t, bad) = decode_legacy(Legacy::Gbk, data);
    if !bad {
        return t;
    }
    let (t, bad) = decode_legacy(Legacy::Big5, data);
    if !bad {
        return t;
    }
    let (t, bad) = decode_legacy(Legacy::ShiftJis, data);
    if !bad {
        return t;
    }
    let (t, bad) = decode_legacy(Legacy::EucJp, data);
    if !bad {
        return t;
    }
    utf8_lossy(data)
}

} // verus!
