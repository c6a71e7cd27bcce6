//! DOCX body text: paragraphs of `word/document.xml` become chapters; a
//! paragraph styled `Heading…` labels the chapter that follows it.
use vstd::prelude::*;
use crate::chapters::{chs_view, has_body, merge, merge_chapters, toc_all, ChapterV};
use crate::text::{chars_of, copy_chars, push_all, trim, trim_chars};
use crate::xml::{
    begins_with_bytes, bytes_begin_with, bytes_end_with, ends_with_bytes, toks_view, xml_events, xml_tokens,
    XmlTok, XmlTokV,
};

verus! {

/// The reader's state between events: chapters so far, the paragraph text
/// being collected, whether that paragraph is a heading, and a pending
/// heading label.
pub struct DocxState {
    pub chapters: Seq<ChapterV>,
    pub body: Seq<char>,
    pub is_heading: bool,
    pub heading: Seq<char>,
}

pub open spec fn colon_pstyle() -> Seq<u8> {
    seq![58u8, 112u8, 83u8, 116u8, 121u8, 108u8, 101u8]
}

pub open spec fn colon_p() -> Seq<u8> {
    seq![58u8, 112u8]
}

pub open spec fn heading_upper() -> Seq<u8> {
    seq![72u8, 101u8, 97u8, 100u8, 105u8, 110u8, 103u8]
}

pub open spec fn heading_lower() -> Seq<u8> {
    seq![104u8, 101u8, 97u8, 100u8, 105u8, 110u8, 103u8]
}

/// One event: a `…:pStyle` tag with a `w:val` sets whether the paragraph
/// is a heading (`Heading…` / `heading…`); text is collected; a `…:p` end
/// tag closes the paragraph: a non-empty heading becomes the pending label,
/// other non-empty text a body chapter (after the pending label as a
/// chapter of its own).
pub open spec fn docx_step(st: DocxState, t: XmlTokV) -> DocxState {
    match t {
        XmlTokV::Open { name, attrs, w_val } => {
            if bytes_end_with(name, colon_pstyle()) && w_val is Some {
                let v = w_val->0;
                DocxState {
                    is_heading: bytes_begin_with(v, heading_upper()) || bytes_begin_with(
                        v,
                        heading_lower(),
                    ),
                    ..st
                }
            } else {
                st
            }
        },
        XmlTokV::Text { text } => DocxState { body: st.body + text, ..st },
        XmlTokV::Close { name } => {
            if bytes_end_with(name, colon_p()) {
                let t = trim(st.body);
                let closed = DocxState { body: Seq::<char>::empty(), is_heading: false, ..st };
                if t.len() == 0 {
                    closed
                } else if st.is_heading {
                    DocxState { heading: t, ..closed }
                } else if st.heading.len() > 0 {
                    DocxState {
                        chapters: st.chapters.push((st.heading, Seq::<char>::empty())).push(
                            (Seq::<char>::empty(), t),
                        ),
                        heading: Seq::<char>::empty(),
                        ..closed
                    }
                } else {
                    DocxState { chapters: st.chapters.push((Seq::<char>::empty(), t)), ..closed }
                }
            } else {
                st
            }
        },
        _ => st,
    }
}

pub open spec fn docx_fold(ts: Seq<XmlTokV>) -> DocxState
    decreases ts.len(),
{
    if ts.len() == 0 {
        DocxState {
            chapters: Seq::empty(),
            body: Seq::empty(),
            is_heading: false,
            heading: Seq::empty(),
        }
    } else {
        docx_step(docx_fold(ts.drop_last()), ts.last())
    }
}

/// The chapters of a DOCX event stream: paragraphs merged under their
/// headings, empty ones dropped.
pub open spec fn docx_chapters(ts: Seq<XmlTokV>) -> Seq<ChapterV> {
    merge(docx_fold(ts).chapters, true).filter(has_body())
}

pub open spec fn has_label() -> spec_fn((Seq<char>, int)) -> bool {
    |e: (Seq<char>, int)| e.0.len() > 0
}

/// Contents: the labelled chapters with their indices.
pub open spec fn docx_toc(ts: Seq<XmlTokV>) -> Seq<(Seq<char>, int)> {
    toc_all(docx_chapters(ts)).filter(has_label())
}

/// Chapters and contents of a DOCX event stream (see `docx_chapters`).
pub fn docx_from_tokens(toks: &Vec<XmlTok>) -> (out: (Vec<(Vec<char>, Vec<char>)>, Vec<(Vec<char>, usize)>))
    ensures
        chs_view(out.0@) == docx_chapters(toks_view(toks@)),
        out.1@.map_values(|t: (Vec<char>, usize)| (t.0@, t.1 as int)) == docx_toc(toks_view(toks@)),
{
    let ghost tv = toks_view(toks@);
    let mut chapters: Vec<(Vec<char>, Vec<char>)> = Vec::new();
    let mut body: Vec<char> = Vec::new();
    let mut is_heading = false;
    let mut heading: Vec<char> = Vec::new();
    let pstyle: Vec<u8> = vec![58u8, 112u8, 83u8, 116u8, 121u8, 108u8, 101u8];
    let colp: Vec<u8> = vec![58u8, 112u8];
    let hu: Vec<u8> = vec![72u8, 101u8, 97u8, 100u8, 105u8, 110u8, 103u8];
    let hl: Vec<u8> = vec![104u8, 101u8, 97u8, 100u8, 105u8, 110u8, 103u8];
    assert(pstyle@ =~= colon_pstyle());
    assert(colp@ =~= colon_p());
    assert(hu@ =~= heading_upper());
    assert(hl@ =~= heading_lower());
    let mut i: usize = 0;
    assert(tv.take(0) =~= Seq::<XmlTokV>::empty());
    assert(chs_view(chapters@) =~= Seq::<ChapterV>::empty());
    assert(body@ =~= Seq::<char>::empty());
    assert(heading@ =~= Seq::<char>::empty());
    while i < toks.len()
        invariant
            i <= toks@.len(),
            tv == toks_view(toks@),
            pstyle@ == colon_pstyle(),
            colp@ == colon_p(),
            hu@ == heading_upper(),
            hl@ == heading_lower(),
            docx_fold(tv.take(i as int)) == (DocxState {
                chapters: chs_view(chapters@),
                body: body@,
                is_heading: is_heading,
                heading: heading@,
            }),
        decreases toks@.len() - i,
    {
        assert(tv.take(i + 1).drop_last() =~= tv.take(i as int));
        assert(tv.take(i + 1).last() == toks@[i as int]@);
        let ghost st = docx_fold(tv.take(i as int));
        match &toks[i] {
            XmlTok::Open { name, attrs, w_val } => {
                if ends_with_bytes(name.as_slice(), pstyle.as_slice()) {
                    match w_val {
                        Some(v) => {
                            is_heading = begins_with_bytes(v.as_slice(), hu.as_slice())
                                || begins_with_bytes(v.as_slice(), hl.as_slice());
                        },
                        None => {},
                    }
                }
            },
            XmlTok::Text { text } => {
                let t = chars_of(text.as_str());
                push_all(&mut body, t.as_slice());
            },
            XmlTok::Close { name } => {
                if ends_with_bytes(name.as_slice(), colp.as_slice()) {
                    let t = trim_chars(body.as_slice());
                    if t.len() > 0 {
                        if is_heading {
                            heading = t;
                        } else {
                            if heading.len() > 0 {
                                let h = copy_chars(heading.as_slice());
                                let ghost before = chapters@;
                                chapters.push((h, Vec::new()));
                                assert(chs_view(chapters@) =~= chs_view(before).push(
                                    (st.heading, Seq::<char>::empty()),
                                ));
                                heading = Vec::new();
                            }
                            let ghost before2 = chapters@;
                            chapters.push((Vec::new(), t));
                            assert(chs_view(chapters@) =~= chs_view(before2).push(
                                (Seq::<char>::empty(), trim(st.body)),
                            ));
                        }
                    }
                    body = Vec::new();
                    is_heading = false;
                }
            },
            _ => {},
        }
        i += 1;
    }
    assert(tv.take(toks@.len() as int) =~= tv);
    let merged = merge_chapters(chapters, true);
    let mut toc: Vec<(Vec<char>, usize)> = Vec::new();
    let ghost all = toc_all(chs_view(merged@));
    let mut k: usize = 0;
    assert(all.take(0) =~= Seq::<(Seq<char>, int)>::empty());
    while k < merged.len()
        invariant
            k <= merged@.len(),
            all == toc_all(chs_view(merged@)),
            toc@.map_values(|t: (Vec<char>, usize)| (t.0@, t.1 as int)) == all.take(k as int).filter(
                has_label(),
            ),
        decreases merged@.len() - k,
    {
        proof {
            reveal(Seq::filter);
            assert(all.take(k + 1).drop_last() =~= all.take(k as int));
            assert(all.take(k + 1).last() == (merged@[k as int].0@, k as int));
        }
        let ghost before = toc@;
        if merged[k].0.len() > 0 {
            let l = copy_chars(merged[k].0.as_slice());
            toc.push((l, k));
            assert(toc@.map_values(|t: (Vec<char>, usize)| (t.0@, t.1 as int)) =~= before.map_values(
                |t: (Vec<char>, usize)| (t.0@, t.1 as int),
            ).push((merged@[k as int].0@, k as int)));
        }
        k += 1;
    }
    assert(all.take(merged@.len() as int) =~= all);
    (merged, toc)
}

/// Chapters and contents of `word/document.xml`: `docx_from_tokens` on
/// the tokens that `quick_xml` reads from it.
pub fn parse_docx_xml(xml: &[u8]) -> (out: (Vec<(Vec<char>, Vec<char>)>, Vec<(Vec<char>, usize)>))
    ensures
        chs_view(out.0@) == docx_chapters(xml_events(xml@)),
        out.1@.map_values(|t: (Vec<char>, usize)| (t.0@, t.1 as int)) == docx_toc(xml_events(xml@)),
{
    let toks = xml_tokens(xml);
    docx_from_tokens(&toks)
}

} // verus!
