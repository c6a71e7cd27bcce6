//! XHTML chapters of an EPUB as raw blocks: text runs and image references.
use vstd::prelude::*;
use crate::decode::{lossy_utf8, utf8_lossy};
use crate::paths::{cleaned, has_scheme_chars, normalized, path_resolution, resolve_path, scheme_at};
use crate::text::{chars_of, has_prefix, push_all, starts_with, string_from_chars, trim, trim_chars};
use crate::xml::{ascii_lower, eq_ignore_ascii_case, ieq, toks_view, xml_str_events, xml_tokens_str, XmlTok, XmlTokV};

verus! {

/// A raw block of a chapter: trimmed text, or a resolved image path.
pub enum RawBlock {
    Text(String),
    ImageRef(String),
}

pub enum RawV {
    Text(Seq<char>),
    Image(Seq<char>),
}

impl View for RawBlock {
    type V = RawV;

    open spec fn view(&self) -> RawV {
        match self {
            RawBlock::Text(t) => RawV::Text(t@),
            RawBlock::ImageRef(h) => RawV::Image(h@),
        }
    }
}

pub open spec fn raws_view(v: Seq<RawBlock>) -> Seq<RawV> {
    v.map_values(|b: RawBlock| b@)
}

pub open spec fn lit(s: Seq<char>) -> Seq<u8> {
    s.map_values(|c: char| c as u8)
}

pub open spec fn skip_tag(name: Seq<u8>) -> bool {
    ieq(name, lit(seq!['s', 'c', 'r', 'i', 'p', 't'])) || ieq(name, lit(seq!['s', 't', 'y', 'l', 'e']))
        || ieq(name, lit(seq!['s', 'v', 'g']))
}

pub open spec fn image_tag(name: Seq<u8>) -> bool {
    ieq(name, lit(seq!['i', 'm', 'g'])) || ieq(name, lit(seq!['i', 'm', 'a', 'g', 'e']))
}

pub open spec fn break_tag(name: Seq<u8>) -> bool {
    ieq(name, lit(seq!['b', 'r'])) || ieq(name, lit(seq!['h', 'r']))
}

/// End tags (exact case) after which a line break is due.
pub open spec fn block_tag(name: Seq<u8>) -> bool {
    name == lit(seq!['p']) || name == lit(seq!['d', 'i', 'v']) || name == lit(seq!['h', '1'])
        || name == lit(seq!['h', '2']) || name == lit(seq!['h', '3']) || name == lit(seq!['h', '4'])
        || name == lit(seq!['h', '5']) || name == lit(seq!['h', '6']) || name == lit(
        seq!['b', 'l', 'o', 'c', 'k', 'q', 'u', 'o', 't', 'e'],
    ) || name == lit(seq!['l', 'i']) || name == lit(seq!['t', 'd']) || name == lit(seq!['t', 'h'])
}

/// The index of the first `src` attribute (any ASCII case), if any.
pub open spec fn src_index(attrs: Seq<(Seq<u8>, Seq<u8>)>) -> int
    decreases attrs.len(),
{
    if attrs.len() == 0 {
        -1
    } else {
        let r = src_index(attrs.drop_last());
        if r >= 0 {
            r
        } else if ieq(attrs.last().0, lit(seq!['s', 'r', 'c'])) {
            attrs.len() - 1
        } else {
            -1
        }
    }
}

/// The image source of a tag: the lossy text of its first `src`
/// attribute, unless that is a `data:` URI or holds `://`.
pub open spec fn image_src(attrs: Seq<(Seq<u8>, Seq<u8>)>) -> Option<Seq<char>> {
    let k = src_index(attrs);
    if k < 0 {
        None
    } else {
        let src = lossy_utf8(attrs[k].1);
        if has_prefix(src, seq!['d', 'a', 't', 'a', ':']) || exists|j: int| #[trigger] scheme_at(src, j) {
            None
        } else {
            Some(src)
        }
    }
}

/// A block as the reader meets it: text, or the `k`-th image source.
pub enum RawS {
    Text(Seq<char>),
    Image(int),
}

/// Reader state: blocks so far, pending text, depth inside
/// `script`/`style`/`svg`, and the image sources met.
pub struct HtmlState {
    pub blocks: Seq<RawS>,
    pub cur: Seq<char>,
    pub skip: int,
    pub srcs: Seq<Seq<char>>,
}

/// Pending text, when non-empty after trimming, becomes a text block.
pub open spec fn flush(blocks: Seq<RawS>, cur: Seq<char>) -> Seq<RawS> {
    if trim(cur).len() > 0 {
        blocks.push(RawS::Text(trim(cur)))
    } else {
        blocks
    }
}

/// One event of the reader.
pub open spec fn html_step(st: HtmlState, t: XmlTokV) -> HtmlState {
    match t {
        XmlTokV::Open { name, attrs, w_val } => {
            let skip = if skip_tag(name) {
                st.skip + 1
            } else {
                st.skip
            };
            if skip > 0 {
                HtmlState { skip, ..st }
            } else if image_tag(name) {
                match image_src(attrs) {
                    Some(src) => HtmlState {
                        blocks: flush(st.blocks, st.cur).push(RawS::Image(st.srcs.len() as int)),
                        cur: if trim(st.cur).len() > 0 {
                            Seq::<char>::empty()
                        } else {
                            st.cur
                        },
                        srcs: st.srcs.push(src),
                        ..st
                    },
                    None => st,
                }
            } else if break_tag(name) {
                HtmlState { cur: st.cur.push('\n'), ..st }
            } else {
                st
            }
        },
        XmlTokV::Close { name } => {
            if skip_tag(name) {
                HtmlState {
                    skip: if st.skip > 0 {
                        st.skip - 1
                    } else {
                        st.skip
                    },
                    ..st
                }
            } else if st.skip > 0 {
                st
            } else if block_tag(name) && !(st.cur.len() > 0 && st.cur.last() == '\n') {
                HtmlState { cur: st.cur.push('\n'), ..st }
            } else {
                st
            }
        },
        XmlTokV::Text { text } => {
            if st.skip == 0 {
                HtmlState { cur: st.cur + text, ..st }
            } else {
                st
            }
        },
        _ => st,
    }
}

/// Closing a block element (`p`, `div`, `h1`–`h6`, `blockquote`, `li`,
/// `td`, `th`) outside skipped content ends the pending text with a line
/// break (adding one unless it already ends in one), and changes nothing
/// else: the text of two paragraphs stays apart.
pub proof fn lemma_block_close_breaks_line(st: HtmlState, name: Seq<u8>)
    requires
        st.skip == 0,
        name == seq![112u8] || name == seq![100u8, 105u8, 118u8] || name == seq![104u8, 49u8] || name == seq![
            104u8,
            50u8,
        ] || name == seq![104u8, 51u8] || name == seq![104u8, 52u8] || name == seq![104u8, 53u8] || name
            == seq![104u8, 54u8] || name == seq![98u8, 108u8, 111u8, 99u8, 107u8, 113u8, 117u8, 111u8, 116u8, 101u8]
            || name == seq![108u8, 105u8] || name == seq![116u8, 100u8] || name == seq![116u8, 104u8],
    ensures
        html_step(st, XmlTokV::Close { name }).cur.len() > 0,
        html_step(st, XmlTokV::Close { name }).cur.last() == '\n',
        html_step(st, XmlTokV::Close { name }).cur == st.cur || html_step(st, XmlTokV::Close { name }).cur
            == st.cur.push('\n'),
        html_step(st, XmlTokV::Close { name }).blocks == st.blocks,
        html_step(st, XmlTokV::Close { name }).srcs == st.srcs,
        html_step(st, XmlTokV::Close { name }).skip == 0,
{
    let sc = lit(seq!['s', 'c', 'r', 'i', 'p', 't']);
    let sy = lit(seq!['s', 't', 'y', 'l', 'e']);
    let sv = lit(seq!['s', 'v', 'g']);
    assert(sc.len() == 6 && sy.len() == 5 && sv.len() == 3);
    assert(sv[0] == 115u8);
    if name.len() == 3 {
        assert(ascii_lower(name[0]) != ascii_lower(sv[0]));
    }
    if name.len() == 5 {
        assert(false);
    }
    if name.len() == 6 {
        assert(false);
    }
    assert(!skip_tag(name));
    assert(block_tag(name)) by {
        assert(lit(seq!['p']) =~= seq![112u8]);
        assert(lit(seq!['d', 'i', 'v']) =~= seq![100u8, 105u8, 118u8]);
        assert(lit(seq!['h', '1']) =~= seq![104u8, 49u8]);
        assert(lit(seq!['h', '2']) =~= seq![104u8, 50u8]);
        assert(lit(seq!['h', '3']) =~= seq![104u8, 51u8]);
        assert(lit(seq!['h', '4']) =~= seq![104u8, 52u8]);
        assert(lit(seq!['h', '5']) =~= seq![104u8, 53u8]);
        assert(lit(seq!['h', '6']) =~= seq![104u8, 54u8]);
        assert(lit(seq!['b', 'l', 'o', 'c', 'k', 'q', 'u', 'o', 't', 'e']) =~= seq![
            98u8,
            108u8,
            111u8,
            99u8,
            107u8,
            113u8,
            117u8,
            111u8,
            116u8,
            101u8,
        ]);
        assert(lit(seq!['l', 'i']) =~= seq![108u8, 105u8]);
        assert(lit(seq!['t', 'd']) =~= seq![116u8, 100u8]);
        assert(lit(seq!['t', 'h']) =~= seq![116u8, 104u8]);
    }
}

pub open spec fn html_fold(ts: Seq<XmlTokV>) -> HtmlState
    decreases ts.len(),
{
    if ts.len() == 0 {
        HtmlState { blocks: Seq::empty(), cur: Seq::empty(), skip: 0, srcs: Seq::empty() }
    } else {
        html_step(html_fold(ts.drop_last()), ts.last())
    }
}

/// The blocks of an XHTML event stream, images as source indices.
pub open spec fn html_blocks(ts: Seq<XmlTokV>) -> Seq<RawS> {
    let st = html_fold(ts);
    flush(st.blocks, st.cur)
}

/// The image sources of an XHTML event stream, in order.
pub open spec fn html_srcs(ts: Seq<XmlTokV>) -> Seq<Seq<char>> {
    html_fold(ts).srcs
}

/// Blocks with image `k` replaced by resolved path `rs[k]`.
pub open spec fn with_paths(bs: Seq<RawS>, rs: Seq<Seq<char>>) -> Seq<RawV> {
    bs.map_values(
        |b: RawS|
            match b {
                RawS::Text(t) => RawV::Text(t),
                RawS::Image(k) => RawV::Image(rs[k]),
            },
    )
}

/// `r` is what `resolve_path` gives for image source `src` of the chapter
/// stored at `href`.
pub open spec fn resolves(href: Seq<char>, src: Seq<char>, r: Seq<char>) -> bool {
    path_resolution(href, src, r)
}

/// `raw` is what `extract_raw_blocks` gives for XHTML text `html` of the
/// chapter stored at `href`: its blocks, each image with the resolution
/// of its source.
pub open spec fn xhtml_raw(html: Seq<char>, href: Seq<char>, raw: Seq<RawV>) -> bool {
    let ts = xml_str_events(html);
    exists|paths: Seq<Seq<char>>|
        {
            &&& paths.len() == html_srcs(ts).len()
            &&& forall|k: int| 0 <= k < paths.len() ==> resolves(href, #[trigger] html_srcs(ts)[k], paths[k])
            &&& raw == with_paths(html_blocks(ts), paths)
        }
}

fn lit_bytes(s: &str) -> (out: Vec<u8>)
    requires
        forall|k: int| 0 <= k < s@.len() ==> (#[trigger] s@[k] as u32) < 128,
    ensures
        out@ == lit(s@),
{
    let cs = chars_of(s);
    let mut out: Vec<u8> = Vec::new();
    let mut k: usize = 0;
    while k < cs.len()
        invariant
            k <= cs@.len(),
            cs@ == s@,
            forall|j: int| 0 <= j < s@.len() ==> (#[trigger] s@[j] as u32) < 128,
            out@ == lit(cs@.take(k as int)),
        decreases cs@.len() - k,
    {
        out.push(cs[k] as u8);
        assert(lit(cs@.take(k + 1)) =~= lit(cs@.take(k as int)).push(cs@[k as int] as u8));
        k += 1;
    }
    assert(cs@.take(cs@.len() as int) =~= cs@);
    out
}

fn bytes_eq(a: &[u8], b: &[u8]) -> (r: bool)
    ensures
        r == (a@ == b@),
{
    if a.len() != b.len() {
        return false;
    }
    let mut k: usize = 0;
    while k < a.len()
        invariant
            k <= a@.len() == b@.len(),
            forall|j: int| 0 <= j < k ==> a@[j] == b@[j],
        decreases a@.len() - k,
    {
        if a[k] != b[k] {
            return false;
        }
        k += 1;
    }
    assert(a@ =~= b@);
    true
}

/// Tag names the reader tells apart, as byte strings.
struct TagNames {
    script: Vec<u8>,
    style: Vec<u8>,
    svg: Vec<u8>,
    img: Vec<u8>,
    image: Vec<u8>,
    br: Vec<u8>,
    hr: Vec<u8>,
    src: Vec<u8>,
    blocks: Vec<Vec<u8>>,
}

impl TagNames {
    spec fn wf(&self) -> bool {
        &&& self.script@ == lit(seq!['s', 'c', 'r', 'i', 'p', 't'])
        &&& self.style@ == lit(seq!['s', 't', 'y', 'l', 'e'])
        &&& self.svg@ == lit(seq!['s', 'v', 'g'])
        &&& self.img@ == lit(seq!['i', 'm', 'g'])
        &&& self.image@ == lit(seq!['i', 'm', 'a', 'g', 'e'])
        &&& self.br@ == lit(seq!['b', 'r'])
        &&& self.hr@ == lit(seq!['h', 'r'])
        &&& self.src@ == lit(seq!['s', 'r', 'c'])
        &&& forall|n: Seq<u8>| block_tag(n) <==> exists|k: int|
            0 <= k < self.blocks@.len() && #[trigger] self.blocks@[k]@ == n
    }

    fn new() -> (t: TagNames)
        ensures
            t.wf(),
    {
        proof {
            reveal_strlit("script");
            reveal_strlit("style");
            reveal_strlit("svg");
            reveal_strlit("img");
            reveal_strlit("image");
            reveal_strlit("br");
            reveal_strlit("hr");
            reveal_strlit("src");
            reveal_strlit("p");
            reveal_strlit("div");
            reveal_strlit("h1");
            reveal_strlit("h2");
            reveal_strlit("h3");
            reveal_strlit("h4");
            reveal_strlit("h5");
            reveal_strlit("h6");
            reveal_strlit("blockquote");
            reveal_strlit("li");
            reveal_strlit("td");
            reveal_strlit("th");
        }
        let t = TagNames {
            script: lit_bytes("script"),
            style: lit_bytes("style"),
            svg: lit_bytes("svg"),
            img: lit_bytes("img"),
            image: lit_bytes("image"),
            br: lit_bytes("br"),
            hr: lit_bytes("hr"),
            src: lit_bytes("src"),
            blocks: vec![
                lit_bytes("p"),
                lit_bytes("div"),
                lit_bytes("h1"),
                lit_bytes("h2"),
                lit_bytes("h3"),
                lit_bytes("h4"),
                lit_bytes("h5"),
                lit_bytes("h6"),
                lit_bytes("blockquote"),
                lit_bytes("li"),
                lit_bytes("td"),
                lit_bytes("th"),
            ],
        };
        assert(t.script@ =~= lit(seq!['s', 'c', 'r', 'i', 'p', 't']));
        assert(t.style@ =~= lit(seq!['s', 't', 'y', 'l', 'e']));
        assert(t.svg@ =~= lit(seq!['s', 'v', 'g']));
        assert(t.img@ =~= lit(seq!['i', 'm', 'g']));
        assert(t.image@ =~= lit(seq!['i', 'm', 'a', 'g', 'e']));
        assert(t.br@ =~= lit(seq!['b', 'r']));
        assert(t.hr@ =~= lit(seq!['h', 'r']));
        assert(t.src@ =~= lit(seq!['s', 'r', 'c']));
        assert(t.blocks@[0]@ =~= lit(seq!['p']));
        assert(t.blocks@[1]@ =~= lit(seq!['d', 'i', 'v']));
        assert(t.blocks@[2]@ =~= lit(seq!['h', '1']));
        assert(t.blocks@[3]@ =~= lit(seq!['h', '2']));
        assert(t.blocks@[4]@ =~= lit(seq!['h', '3']));
        assert(t.blocks@[5]@ =~= lit(seq!['h', '4']));
        assert(t.blocks@[6]@ =~= lit(seq!['h', '5']));
        assert(t.blocks@[7]@ =~= lit(seq!['h', '6']));
        assert(t.blocks@[8]@ =~= lit(seq!['b', 'l', 'o', 'c', 'k', 'q', 'u', 'o', 't', 'e']));
        assert(t.blocks@[9]@ =~= lit(seq!['l', 'i']));
        assert(t.blocks@[10]@ =~= lit(seq!['t', 'd']));
        assert(t.blocks@[11]@ =~= lit(seq!['t', 'h']));
        assert forall|n: Seq<u8>| block_tag(n) implies exists|k: int|
            0 <= k < t.blocks@.len() && #[trigger] t.blocks@[k]@ == n by {
            if n == lit(seq!['p']) {
                assert(t.blocks@[0]@ == n);
            } else if n == lit(seq!['d', 'i', 'v']) {
                assert(t.blocks@[1]@ == n);
            } else if n == lit(seq!['h', '1']) {
                assert(t.blocks@[2]@ == n);
            } else if n == lit(seq!['h', '2']) {
                assert(t.blocks@[3]@ == n);
            } else if n == lit(seq!['h', '3']) {
                assert(t.blocks@[4]@ == n);
            } else if n == lit(seq!['h', '4']) {
                assert(t.blocks@[5]@ == n);
            } else if n == lit(seq!['h', '5']) {
                assert(t.blocks@[6]@ == n);
            } else if n == lit(seq!['h', '6']) {
                assert(t.blocks@[7]@ == n);
            } else if n == lit(seq!['b', 'l', 'o', 'c', 'k', 'q', 'u', 'o', 't', 'e']) {
                assert(t.blocks@[8]@ == n);
            } else if n == lit(seq!['l', 'i']) {
                assert(t.blocks@[9]@ == n);
            } else if n == lit(seq!['t', 'd']) {
                assert(t.blocks@[10]@ == n);
            } else {
                assert(t.blocks@[11]@ == n);
            }
        }
        t
    }

    fn is_block(&self, name: &[u8]) -> (r: bool)
        requires
            self.wf(),
        ensures
            r == block_tag(name@),
    {
        let mut k: usize = 0;
        while k < self.blocks.len()
            invariant
                self.wf(),
                k <= self.blocks@.len(),
                forall|j: int| 0 <= j < k ==> self.blocks@[j]@ != name@,
            decreases self.blocks@.len() - k,
        {
            if bytes_eq(self.blocks[k].as_slice(), name) {
                return true;
            }
            k += 1;
        }
        false
    }
}

/// The first `src` attribute's index, or `attrs.len()` when none.
fn find_src(attrs: &Vec<(Vec<u8>, Vec<u8>)>, src: &Vec<u8>) -> (k: usize)
    requires
        src@ == lit(seq!['s', 'r', 'c']),
    ensures
        k <= attrs@.len(),
        k < attrs@.len() <==> src_index(attrs@.map_values(|a: (Vec<u8>, Vec<u8>)| (a.0@, a.1@)))
            >= 0,
        k < attrs@.len() ==> src_index(attrs@.map_values(|a: (Vec<u8>, Vec<u8>)| (a.0@, a.1@)))
            == k,
{
    let ghost av = attrs@.map_values(|a: (Vec<u8>, Vec<u8>)| (a.0@, a.1@));
    let mut k: usize = 0;
    assert(av.take(0) =~= Seq::<(Seq<u8>, Seq<u8>)>::empty());
    while k < attrs.len()
        invariant
            k <= attrs@.len(),
            av == attrs@.map_values(|a: (Vec<u8>, Vec<u8>)| (a.0@, a.1@)),
            src@ == lit(seq!['s', 'r', 'c']),
            src_index(av.take(k as int)) == -1,
        decreases attrs@.len() - k,
    {
        assert(av.take(k + 1).drop_last() =~= av.take(k as int));
        assert(av.take(k + 1).last() == av[k as int]);
        if eq_ignore_ascii_case(attrs[k].0.as_slice(), src.as_slice()) {
            proof {
                lemma_src_index_prefix(av, k as int);
            }
            return k;
        }
        k += 1;
    }
    assert(av.take(attrs@.len() as int) =~= av);
    k
}

proof fn lemma_src_index_prefix(av: Seq<(Seq<u8>, Seq<u8>)>, k: int)
    requires
        0 <= k < av.len(),
        src_index(av.take(k + 1)) == k,
    ensures
        src_index(av) == k,
    decreases av.len() - k,
{
    if av.len() > k + 1 {
        assert(av.drop_last().take(k + 1) =~= av.take(k + 1));
        lemma_src_index_prefix(av.drop_last(), k);
    } else {
        assert(av.take(k + 1) =~= av);
    }
}

pub open spec fn strs_view(v: Seq<String>) -> Seq<Seq<char>> {
    v.map_values(|x: String| x@)
}

/// Every image index in `bs` is below `n`.
pub open spec fn images_below(bs: Seq<RawS>, n: int) -> bool {
    forall|k: int| 0 <= k < bs.len() ==> match #[trigger] bs[k] {
        RawS::Image(j) => 0 <= j < n,
        RawS::Text(_) => true,
    }
}

proof fn lemma_with_paths_push(bs: Seq<RawS>, rs: Seq<Seq<char>>, b: RawS, r: Seq<char>)
    requires
        images_below(bs, rs.len() as int),
    ensures
        with_paths(bs, rs.push(r)) == with_paths(bs, rs),
        with_paths(bs.push(b), rs.push(r)) == with_paths(bs, rs).push(
            match b {
                RawS::Text(t) => RawV::Text(t),
                RawS::Image(k) => RawV::Image(rs.push(r)[k]),
            },
        ),
{
    assert forall|k: int| 0 <= k < bs.len() implies with_paths(bs, rs.push(r))[k] == with_paths(
        bs,
        rs,
    )[k] by {
        match bs[k] {
            RawS::Image(j) => {
                assert(rs.push(r)[j] == rs[j]);
            },
            RawS::Text(_) => {},
        }
    }
    assert(with_paths(bs, rs.push(r)) =~= with_paths(bs, rs));
    assert(with_paths(bs.push(b), rs.push(r)) =~= with_paths(bs, rs.push(r)).push(
        match b {
            RawS::Text(t) => RawV::Text(t),
            RawS::Image(k) => RawV::Image(rs.push(r)[k]),
        },
    ));
}

/// The raw blocks of a chapter's XHTML event stream, and the resolved path
/// of each image source in order (`resolve_path` against `chapter_href`).
pub fn blocks_from_tokens(toks: &Vec<XmlTok>, chapter_href: &str) -> (out: (Vec<RawBlock>, Vec<String>))
    ensures
        raws_view(out.0@) == with_paths(html_blocks(toks_view(toks@)), strs_view(out.1@)),
        out.1@.len() == html_srcs(toks_view(toks@)).len(),
        forall|k: int|
            0 <= k < out.1@.len() ==> resolves(
                chapter_href@,
                #[trigger] html_srcs(toks_view(toks@))[k],
                out.1@[k]@,
            ),
{
    let ghost tv = toks_view(toks@);
    let names = TagNames::new();
    let mut blocks: Vec<RawBlock> = Vec::new();
    let mut resolved: Vec<String> = Vec::new();
    let mut cur: Vec<char> = Vec::new();
    let mut skip: usize = 0;
    let ghost mut bs: Seq<RawS> = Seq::empty();
    let ghost mut srcs: Seq<Seq<char>> = Seq::empty();
    let mut i: usize = 0;
    assert(tv.take(0) =~= Seq::<XmlTokV>::empty());
    assert(cur@ =~= Seq::<char>::empty());
    assert(raws_view(blocks@) =~= with_paths(bs, strs_view(resolved@)));
    while i < toks.len()
        invariant
            i <= toks@.len(),
            i <= usize::MAX,
            skip <= i,
            names.wf(),
            tv == toks_view(toks@),
            html_fold(tv.take(i as int)) == (HtmlState { blocks: bs, cur: cur@, skip: skip as int, srcs }),
            raws_view(blocks@) == with_paths(bs, strs_view(resolved@)),
            images_below(bs, resolved@.len() as int),
            resolved@.len() == srcs.len(),
            forall|k: int| 0 <= k < resolved@.len() ==> resolves(chapter_href@, #[trigger] srcs[k], resolved@[k]@),
        decreases toks@.len() - i,
    {
        assert(tv.take(i + 1).drop_last() =~= tv.take(i as int));
        assert(tv.take(i + 1).last() == toks@[i as int]@);
        let ghost st = html_fold(tv.take(i as int));
        match &toks[i] {
            XmlTok::Open { name, attrs, w_val } => {
                let is_skip = eq_ignore_ascii_case(name.as_slice(), names.script.as_slice())
                    || eq_ignore_ascii_case(name.as_slice(), names.style.as_slice())
                    || eq_ignore_ascii_case(name.as_slice(), names.svg.as_slice());
                if is_skip {
                    skip += 1;
                }
                if skip > 0 {
                } else if eq_ignore_ascii_case(name.as_slice(), names.img.as_slice())
                    || eq_ignore_ascii_case(name.as_slice(), names.image.as_slice()) {
                    let k = find_src(attrs, &names.src);
                    let ghost av = attrs@.map_values(|a: (Vec<u8>, Vec<u8>)| (a.0@, a.1@));
                    if k < attrs.len() {
                        let src_s = utf8_lossy(attrs[k].1.as_slice());
                        let src = chars_of(src_s.as_str());
                        proof {
                            reveal_strlit("data:");
                            assert(av[k as int].1 == attrs@[k as int].1@);
                        }
                        let data = chars_of("data:");
                        assert(data@ =~= seq!['d', 'a', 't', 'a', ':']);
                        if !(starts_with(src.as_slice(), data.as_slice()) || has_scheme_chars(
                            src.as_slice(),
                        )) {
                            let r = resolve_path(chapter_href, src_s.as_str());
                            let t = trim_chars(cur.as_slice());
                            let ghost rv = r@;
                            let ghost before_blocks = blocks@;
                            let ghost bs0 = bs;
                            let ghost rs0 = strs_view(resolved@);
                            if t.len() > 0 {
                                blocks.push(RawBlock::Text(string_from_chars(t.as_slice())));
                                cur = Vec::new();
                                proof {
                                    assert(raws_view(blocks@) =~= raws_view(before_blocks).push(
                                        RawV::Text(t@),
                                    ));
                                    lemma_with_paths_push(bs0, rs0, RawS::Text(t@), rv);
                                }
                            }
                            let ghost mid_blocks = blocks@;
                            let ghost bs1 = flush(bs0, st.cur);
                            proof {
                                if t.len() > 0 {
                                    assert(with_paths(bs1, rs0.push(rv)) == raws_view(mid_blocks));
                                } else {
                                    lemma_with_paths_push(bs0, rs0, RawS::Text(t@), rv);
                                    assert(with_paths(bs1, rs0.push(rv)) == raws_view(mid_blocks));
                                }
                            }
                            let r2 = r.clone();
                            let ghost before2 = blocks@;
                            blocks.push(RawBlock::ImageRef(r));
                            resolved.push(r2);
                            proof {
                                lemma_with_paths_push(bs1, rs0, RawS::Image(srcs.len() as int), rv);
                                assert(raws_view(blocks@) =~= raws_view(before2).push(RawV::Image(rv)));
                                assert(strs_view(resolved@) =~= rs0.push(rv));
                                bs = bs1.push(RawS::Image(srcs.len() as int));
                                srcs = srcs.push(src@);
                            }
                        }
                    }
                } else if eq_ignore_ascii_case(name.as_slice(), names.br.as_slice())
                    || eq_ignore_ascii_case(name.as_slice(), names.hr.as_slice()) {
                    cur.push('\n');
                }
            },
            XmlTok::Close { name } => {
                let is_skip = eq_ignore_ascii_case(name.as_slice(), names.script.as_slice())
                    || eq_ignore_ascii_case(name.as_slice(), names.style.as_slice())
                    || eq_ignore_ascii_case(name.as_slice(), names.svg.as_slice());
                if is_skip {
                    if skip > 0 {
                        skip -= 1;
                    }
                } else if skip > 0 {
                } else if names.is_block(name.as_slice()) {
                    let n = cur.len();
                    if !(n > 0 && cur[n - 1] == '\n') {
                        cur.push('\n');
                    }
                }
            },
            XmlTok::Text { text } => {
                if skip == 0 {
                    let t = chars_of(text.as_str());
                    push_all(&mut cur, t.as_slice());
                }
            },
            _ => {},
        }
        i += 1;
    }
    assert(tv.take(toks@.len() as int) =~= tv);
    let t = trim_chars(cur.as_slice());
    let ghost before = blocks@;
    let ghost rs = strs_view(resolved@);
    if t.len() > 0 {
        blocks.push(RawBlock::Text(string_from_chars(t.as_slice())));
        assert(raws_view(blocks@) =~= raws_view(before).push(RawV::Text(t@)));
        assert(with_paths(bs.push(RawS::Text(t@)), rs) =~= with_paths(bs, rs).push(RawV::Text(t@)));
    }
    assert(html_blocks(tv) == flush(bs, cur@));
    (blocks, resolved)
}

/// The raw blocks of XHTML chapter text `html` (stored at `chapter_href`)
/// and the resolved path of each image source: `blocks_from_tokens` on the
/// tokens that `quick_xml` reads from it.
pub fn extract_raw_blocks(html: &str, chapter_href: &str) -> (out: (Vec<RawBlock>, Vec<String>))
    ensures
        raws_view(out.0@) == with_paths(html_blocks(xml_str_events(html@)), strs_view(out.1@)),
        out.1@.len() == html_srcs(xml_str_events(html@)).len(),
        forall|k: int|
            0 <= k < out.1@.len() ==> resolves(chapter_href@, #[trigger] html_srcs(xml_str_events(html@))[k], out.1@[k]@),
{
    let toks = xml_tokens_str(html);
    blocks_from_tokens(&toks, chapter_href)
}

} // verus!
