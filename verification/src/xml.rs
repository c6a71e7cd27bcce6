//! XML tokens from `quick_xml`, as plain values for the DOCX and XHTML
//! readers.
use vstd::prelude::*;
use quick_xml::events::{BytesStart, Event};
use quick_xml::Reader;

verus! {

#[verifier::external_type_specification]
#[verifier::external_body]
#[verifier::reject_recursive_types(R)]
pub struct ExXmlReader<R>(Reader<R>);

#[verifier::external_type_specification]
#[verifier::external_body]
pub struct ExBytesStart<'a>(BytesStart<'a>);

/// One XML event: a start or empty-element tag (raw name, attributes as
/// raw key/value bytes, and the raw value of a `w:val` attribute), an end
/// tag, unescaped text, anything else, or the end of input (or an error).
pub enum XmlTok {
    Open { name: Vec<u8>, attrs: Vec<(Vec<u8>, Vec<u8>)>, w_val: Option<Vec<u8>> },
    Close { name: Vec<u8> },
    Text { text: String },
    Other,
    Done,
}

pub enum XmlTokV {
    Open { name: Seq<u8>, attrs: Seq<(Seq<u8>, Seq<u8>)>, w_val: Option<Seq<u8>> },
    Close { name: Seq<u8> },
    Text { text: Seq<char> },
    Other,
    Done,
}

pub open spec fn opt_bytes(o: Option<Vec<u8>>) -> Option<Seq<u8>> {
    match o {
        Some(v) => Some(v@),
        None => None,
    }
}

impl View for XmlTok {
    type V = XmlTokV;

    open spec fn view(&self) -> XmlTokV {
        match self {
            XmlTok::Open { name, attrs, w_val } => XmlTokV::Open {
                name: name@,
                attrs: attrs@.map_values(|a: (Vec<u8>, Vec<u8>)| (a.0@, a.1@)),
                w_val: opt_bytes(*w_val),
            },
            XmlTok::Close { name } => XmlTokV::Close { name: name@ },
            XmlTok::Text { text } => XmlTokV::Text { text: text@ },
            XmlTok::Other => XmlTokV::Other,
            XmlTok::Done => XmlTokV::Done,
        }
    }
}

pub open spec fn toks_view(v: Seq<XmlTok>) -> Seq<XmlTokV> {
    v.map_values(|t: XmlTok| t@)
}

/// The tokens that a `quick_xml` reader made by `Reader::from_reader` over
/// `data`, with `trim_text(true)`, yields (each event taken as `xml_next`
/// takes it) before it first yields `Done`: the end of input or an error.
pub uninterp spec fn xml_events(data: Seq<u8>) -> Seq<XmlTokV>;

/// The tokens that a `quick_xml` reader made by `Reader::from_str` over
/// `s`, with `trim_text(true)`, yields before it first yields `Done`.
pub uninterp spec fn xml_str_events(s: Seq<char>) -> Seq<XmlTokV>;

/// The tokens that reader `r` has yet to yield (each event taken as
/// `xml_next` takes it) before it next yields `Done`.
pub uninterp spec fn reader_pending(r: Reader<&[u8]>) -> Seq<XmlTokV>;

/// `quick_xml::Reader::from_reader` over `data`, with `trim_text(true)`:
/// the reader has the tokens of `data` ahead of it, none of them `Done`.
#[verifier::external_body]
fn xml_reader(data: &[u8]) -> (r: Reader<&[u8]>)
    ensures
        reader_pending(r) == xml_events(data@),
        forall|k: int| 0 <= k < reader_pending(r).len() ==> !(#[trigger] reader_pending(r)[k] is Done),
{
    let mut r = Reader::from_reader(data);
    r.config_mut().trim_text(true);
    r
}

/// `quick_xml::Reader::from_str` over `s`, with `trim_text(true)`: the
/// reader has the tokens of `s` ahead of it, none of them `Done`.
#[verifier::external_body]
fn xml_reader_str(s: &str) -> (r: Reader<&[u8]>)
    ensures
        reader_pending(r) == xml_str_events(s@),
        forall|k: int| 0 <= k < reader_pending(r).len() ==> !(#[trigger] reader_pending(r)[k] is Done),
{
    let mut r = Reader::from_str(s);
    r.config_mut().trim_text(true);
    r
}

/// `BytesStart::attributes` with malformed attributes skipped (`flatten`),
/// each as raw key and raw value.
#[verifier::external_body]
fn start_attrs(e: &BytesStart<'_>) -> (out: Vec<(Vec<u8>, Vec<u8>)>) {
    e.attributes().flatten().map(|a| (a.key.as_ref().to_vec(), a.value.to_vec())).collect()
}

/// `BytesStart::try_get_attribute(b"w:val")`: the raw value, when found
/// without an error.
#[verifier::external_body]
fn start_w_val(e: &BytesStart<'_>) -> (out: Option<Vec<u8>>) {
    e.try_get_attribute(b"w:val").ok().flatten().map(|a| a.value.to_vec())
}

/// `Reader::read_event_into`, one event as a token; an unescaping error
/// gives empty text.  While the reader has tokens ahead of it, the first
/// of them comes and the rest stay ahead; otherwise `Done` comes, and
/// nothing is said of what the reader holds after it.
#[verifier::external_body]
fn xml_next(r: &mut Reader<&[u8]>, buf: &mut Vec<u8>) -> (tok: XmlTok)
    ensures
        (tok@ is Done) == (reader_pending(*old(r)).len() == 0),
        reader_pending(*old(r)).len() > 0 ==> {
            &&& tok@ == reader_pending(*old(r))[0]
            &&& reader_pending(*final(r)) == reader_pending(*old(r)).drop_first()
        },
{
    buf.clear();
    match r.read_event_into(buf) {
        Ok(Event::Start(e)) | Ok(Event::Empty(e)) => XmlTok::Open {
            name: e.name().as_ref().to_vec(),
            attrs: start_attrs(&e),
            w_val: start_w_val(&e),
        },
        Ok(Event::End(e)) => XmlTok::Close { name: e.name().as_ref().to_vec() },
        Ok(Event::Text(e)) => XmlTok::Text { text: e.unescape().map(|t| t.into_owned()).unwrap_or_default() },
        Ok(Event::Eof) | Err(_) => XmlTok::Done,
        Ok(_) => XmlTok::Other,
    }
}

/// The tokens of `data` up to the end of input or the first error.
pub fn xml_tokens(data: &[u8]) -> (out: Vec<XmlTok>)
    ensures
        toks_view(out@) == xml_events(data@),
        forall|k: int| 0 <= k < out@.len() ==> !(#[trigger] out@[k]@ is Done),
{
    let mut r = xml_reader(data);
    collect_tokens(&mut r)
}

/// The tokens of text `s` (read as `Reader::from_str` does), up to the end
/// of input or the first error.
pub fn xml_tokens_str(s: &str) -> (out: Vec<XmlTok>)
    ensures
        toks_view(out@) == xml_str_events(s@),
        forall|k: int| 0 <= k < out@.len() ==> !(#[trigger] out@[k]@ is Done),
{
    let mut r = xml_reader_str(s);
    collect_tokens(&mut r)
}

/// All the tokens that `r` has ahead of it, in order.
fn collect_tokens(r: &mut Reader<&[u8]>) -> (out: Vec<XmlTok>)
    ensures
        toks_view(out@) == reader_pending(*old(r)),
        forall|k: int| 0 <= k < out@.len() ==> !(#[trigger] out@[k]@ is Done),
{
    let ghost all = reader_pending(*r);
    let mut buf: Vec<u8> = Vec::new();
    let mut out: Vec<XmlTok> = Vec::new();
    loop
        invariant_except_break
            toks_view(out@) + reader_pending(*r) == all,
        invariant
            all == reader_pending(*old(r)),
            forall|k: int| 0 <= k < out@.len() ==> !(#[trigger] out@[k]@ is Done),
        ensures
            toks_view(out@) == all,
        decreases reader_pending(*r).len(),
    {
        let ghost before = reader_pending(*r);
        let t = xml_next(r, &mut buf);
        if let XmlTok::Done = t {
            assert(toks_view(out@) =~= all);
            break;
        }
        let ghost prev = toks_view(out@);
        out.push(t);
        proof {
            assert(toks_view(out@) =~= prev.push(before[0]));
            assert(before =~= seq![before[0]] + before.drop_first());
            assert(toks_view(out@) + reader_pending(*r) =~= all);
        }
    }
    out
}

/// Byte string `s` ends with `suf`.
pub open spec fn bytes_end_with(s: Seq<u8>, suf: Seq<u8>) -> bool {
    suf.len() <= s.len() && s.skip(s.len() - suf.len()) == suf
}

/// Byte string `s` begins with `pre`.
pub open spec fn bytes_begin_with(s: Seq<u8>, pre: Seq<u8>) -> bool {
    pre.len() <= s.len() && s.take(pre.len() as int) == pre
}

pub fn ends_with_bytes(s: &[u8], suf: &[u8]) -> (r: bool)
    ensures
        r == bytes_end_with(s@, suf@),
{
    if suf.len() > s.len() {
        return false;
    }
    let sl = s.len();
    let off = sl - suf.len();
    let mut k: usize = 0;
    while k < suf.len()
        invariant
            k <= suf@.len(),
            sl == s@.len(),
            off + suf@.len() == sl,
            forall|j: int| 0 <= j < k ==> s@[off + j] == suf@[j],
        decreases suf@.len() - k,
    {
        if s[off + k] != suf[k] {
            assert(s@.skip(off as int)[k as int] != suf@[k as int]);
            return false;
        }
        k += 1;
    }
    assert(s@.skip(off as int) =~= suf@);
    true
}

pub fn begins_with_bytes(s: &[u8], pre: &[u8]) -> (r: bool)
    ensures
        r == bytes_begin_with(s@, pre@),
{
    if pre.len() > s.len() {
        return false;
    }
    let mut k: usize = 0;
    while k < pre.len()
        invariant
            k <= pre@.len() <= s@.len(),
            forall|j: int| 0 <= j < k ==> s@[j] == pre@[j],
        decreases pre@.len() - k,
    {
        if s[k] != pre[k] {
            assert(s@.take(pre@.len() as int)[k as int] != pre@[k as int]);
            return false;
        }
        k += 1;
    }
    assert(s@.take(pre@.len() as int) =~= pre@);
    true
}

/// ASCII lower case of a byte.
pub open spec fn ascii_lower(b: u8) -> u8 {
    if 65 <= b && b <= 90 {
        (b + 32) as u8
    } else {
        b
    }
}

/// `[u8]::eq_ignore_ascii_case`: same length, and equal bytes after ASCII
/// lower-casing.
pub open spec fn ieq(a: Seq<u8>, b: Seq<u8>) -> bool {
    a.len() == b.len() && forall|k: int| 0 <= k < a.len() ==> ascii_lower(#[trigger] a[k])
        == ascii_lower(b[k])
}

pub fn eq_ignore_ascii_case(a: &[u8], b: &[u8]) -> (r: bool)
    ensures
        r == ieq(a@, b@),
{
    if a.len() != b.len() {
        return false;
    }
    let mut k: usize = 0;
    while k < a.len()
        invariant
            k <= a@.len(),
            a@.len() == b@.len(),
            forall|j: int| 0 <= j < k ==> ascii_lower(#[trigger] a@[j]) == ascii_lower(b@[j]),
        decreases a@.len() - k,
    {
        let x = if 65 <= a[k] && a[k] <= 90 {
            a[k] + 32
        } else {
            a[k]
        };
        let y = if 65 <= b[k] && b[k] <= 90 {
            b[k] + 32
        } else {
            b[k]
        };
        if x != y {
            return false;
        }
        k += 1;
    }
    true
}

} // verus!
