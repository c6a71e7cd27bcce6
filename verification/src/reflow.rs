//! Reflowable documents (EPUB, TXT, Markdown, DOCX) held in memory: their
//! chapters, contents and images.
use vstd::prelude::*;
use crate::chapters::{
    chapters_at, chs_view, cut_sections, heads_view, lines_view, merge_chapters, sections_ok,
    split_txt_chapters_chars, toc_all, toc_of, txt_chapters, txt_toc, ChapterV, TocEntry,
};
use crate::decode::{decodable_len, decode_text, decoded_text};
use crate::docx::{docx_chapters, docx_toc, parse_docx_xml};
use crate::html::{extract_raw_blocks, html_srcs, raws_view, resolves, strs_view, xhtml_raw, RawBlock, RawV};
use crate::xml::xml_str_events;
use crate::markdown::{md_plain, strip_markdown_chars};
use crate::paths::{
    file_name_of, has_plain_stem, lemma_plain_file_stem, lemma_plain_is_slash, opt_chars, plain_path, slash_path,
    std_file_stem, stem_of,
};
use crate::text::{
    chars_of, copy_chars, lines, push_all, split_lines, str_eq, string_from_chars, trim, trim_chars,
};
use crate::xml::{xml_events, XmlTokV};
use std::io::Read;

verus! {

/// An image as stored for display: encoded bytes and pixel size.
pub struct StoredImage {
    pub raw_bytes: Vec<u8>,
    pub width: u32,
    pub height: u32,
}

/// A block of chapter content.
pub enum ContentBlock {
    Text(String),
    Image(StoredImage),
}

pub enum BlockV {
    Text(Seq<char>),
    Image(Seq<u8>, u32, u32),
}

impl View for ContentBlock {
    type V = BlockV;

    open spec fn view(&self) -> BlockV {
        match self {
            ContentBlock::Text(t) => BlockV::Text(t@),
            ContentBlock::Image(i) => BlockV::Image(i.raw_bytes@, i.width, i.height),
        }
    }
}

pub open spec fn blocks_view(v: Seq<ContentBlock>) -> Seq<BlockV> {
    v.map_values(|b: ContentBlock| b@)
}

/// A chapter: its title and blocks.
pub struct Chapter {
    pub title: String,
    pub blocks: Vec<ContentBlock>,
}

/// What a block is, without its content.
pub struct BlockInfo {
    pub is_image: bool,
    pub char_count: usize,
}

/// A chapter's title and block shapes.
pub struct ChapterInfo {
    pub title: String,
    pub blocks: Vec<BlockInfo>,
}

/// A reflowable document held in memory.
pub struct ReflowDocument {
    path: String,
    doc_title: String,
    toc: Vec<TocEntry>,
    /// The EPUB spine: (id, href) of each chapter file; empty for TXT/DOCX.
    spine: Vec<(String, String)>,
    /// Raw blocks of each spine chapter.
    raw: Vec<Vec<RawBlock>>,
    /// Chapters of TXT/Markdown/DOCX documents.
    texts: Vec<Vec<ContentBlock>>,
    /// Images loaded so far, by resolved path; no path twice.
    images: Vec<(String, StoredImage)>,
}

impl ReflowDocument {
    pub closed spec fn spine_len(&self) -> nat {
        self.spine@.len()
    }

    pub closed spec fn texts_v(&self) -> Seq<Seq<BlockV>> {
        self.texts@.map_values(|c: Vec<ContentBlock>| blocks_view(c@))
    }

    pub closed spec fn raw_v(&self) -> Seq<Seq<RawV>> {
        self.raw@.map_values(|c: Vec<RawBlock>| raws_view(c@))
    }

    pub closed spec fn toc_v(&self) -> Seq<(Seq<char>, int)> {
        self.toc@.map_values(|t: TocEntry| t@)
    }

    pub closed spec fn title_v(&self) -> Seq<char> {
        self.doc_title@
    }

    pub closed spec fn path_v(&self) -> Seq<char> {
        self.path@
    }

    /// The loaded images, by resolved path.
    pub closed spec fn images_v(&self) -> Map<Seq<char>, BlockV> {
        Map::new(
            |h: Seq<char>| exists|k: int| 0 <= k < self.images@.len() && #[trigger] self.images@[k].0@ == h,
            |h: Seq<char>| {
                let k = choose|k: int| 0 <= k < self.images@.len() && #[trigger] self.images@[k].0@ == h;
                BlockV::Image(self.images@[k].1.raw_bytes@, self.images@[k].1.width, self.images@[k].1.height)
            },
        )
    }

    pub closed spec fn wf(&self) -> bool {
        &&& self.raw@.len() == self.spine@.len()
        &&& forall|a: int, b: int|
            0 <= a < b < self.images@.len() ==> self.images@[a].0@ != self.images@[b].0@
    }

    /// Chapters: the spine length for an EPUB; else the chapters held, at
    /// least one.
    pub open spec fn count_v(&self) -> nat {
        if self.spine_len() == 0 {
            if self.texts_v().len() > 0 {
                self.texts_v().len()
            } else {
                1
            }
        } else {
            self.spine_len()
        }
    }

    /// The label of contents entry `idx`, or empty.
    pub open spec fn label_v(&self, idx: int) -> Seq<char> {
        if 0 <= idx < self.toc_v().len() {
            self.toc_v()[idx].0
        } else {
            Seq::empty()
        }
    }

    /// The blocks of chapter `idx` as `load_chapter_blocks` gives them.
    pub open spec fn blocks_v(&self, idx: int, load_images: bool) -> Seq<BlockV> {
        if self.spine_len() == 0 {
            if 0 <= idx < self.texts_v().len() {
                self.texts_v()[idx]
            } else {
                Seq::empty()
            }
        } else if 0 <= idx < self.raw_v().len() {
            convert_raw(self.raw_v()[idx], self.images_v(), load_images)
        } else {
            Seq::empty()
        }
    }

    pub fn chapter_count(&self) -> (n: usize)
        ensures
            n == self.count_v(),
    {
        if self.spine.len() == 0 {
            let n = self.texts.len();
            if n > 0 {
                n
            } else {
                1
            }
        } else {
            self.spine.len()
        }
    }

    pub fn title(&self) -> (t: String)
        ensures
            t@ == self.title_v(),
    {
        self.doc_title.clone()
    }

    pub fn path(&self) -> (p: &str)
        ensures
            p@ == self.path_v(),
    {
        self.path.as_str()
    }

    pub fn toc_entries(&self) -> (out: Vec<TocEntry>)
        ensures
            out@.map_values(|t: TocEntry| t@) == self.toc_v(),
    {
        let mut out: Vec<TocEntry> = Vec::new();
        let mut i: usize = 0;
        while i < self.toc.len()
            invariant
                i <= self.toc@.len(),
                out@.len() == i,
                out@.map_values(|t: TocEntry| t@) == self.toc@.take(i as int).map_values(|t: TocEntry| t@),
            decreases self.toc@.len() - i,
        {
            let e = TocEntry { label: self.toc[i].label.clone(), page_index: self.toc[i].page_index };
            assert(e@ == self.toc@[i as int]@);
            let ghost before = out@;
            out.push(e);
            assert(out@.map_values(|t: TocEntry| t@) =~= before.map_values(|t: TocEntry| t@).push(self.toc@[i as int]@));
            assert(self.toc@.take(i + 1) =~= self.toc@.take(i as int).push(self.toc@[i as int]));
            assert(out@.map_values(|t: TocEntry| t@) =~= self.toc@.take(i + 1).map_values(|t: TocEntry| t@));
            i += 1;
        }
        assert(self.toc@.take(self.toc@.len() as int) =~= self.toc@);
        assert(self.toc_v() == self.toc@.map_values(|t: TocEntry| t@));
        out
    }

    /// No metadata is kept for reflowable documents.
    pub fn metadata(&self, key: &str) -> (out: Option<String>)
        ensures
            out is None,
    {
        None
    }
}

/// Raw blocks as content: trimmed non-empty text; an image as loaded (a
/// missing one is left out) or, without image loading, a 600x800
/// placeholder with no bytes.
pub open spec fn convert_raw(raw: Seq<RawV>, images: Map<Seq<char>, BlockV>, load: bool) -> Seq<BlockV>
    decreases raw.len(),
{
    if raw.len() == 0 {
        Seq::empty()
    } else {
        let r = convert_raw(raw.drop_last(), images, load);
        match raw.last() {
            RawV::Text(t) => if trim(t).len() > 0 {
                r.push(BlockV::Text(trim(t)))
            } else {
                r
            },
            RawV::Image(h) => if !load {
                r.push(BlockV::Image(Seq::empty(), 600, 800))
            } else if images.contains_key(h) {
                r.push(images[h])
            } else {
                r
            },
        }
    }
}


fn copy_bytes(v: &[u8]) -> (out: Vec<u8>)
    ensures
        out@ == v@,
{
    let mut out: Vec<u8> = Vec::new();
    let mut i: usize = 0;
    while i < v.len()
        invariant
            i <= v@.len(),
            out@ == v@.take(i as int),
        decreases v@.len() - i,
    {
        out.push(v[i]);
        assert(v@.take(i + 1) =~= v@.take(i as int).push(v@[i as int]));
        i += 1;
    }
    assert(v@.take(v@.len() as int) =~= v@);
    out
}

fn copy_image(i: &StoredImage) -> (out: StoredImage)
    ensures
        out.raw_bytes@ == i.raw_bytes@,
        out.width == i.width,
        out.height == i.height,
{
    StoredImage { raw_bytes: copy_bytes(i.raw_bytes.as_slice()), width: i.width, height: i.height }
}

fn copy_block(b: &ContentBlock) -> (out: ContentBlock)
    ensures
        out@ == b@,
{
    match b {
        ContentBlock::Text(t) => ContentBlock::Text(t.clone()),
        ContentBlock::Image(i) => ContentBlock::Image(copy_image(i)),
    }
}

/// The pixel size that `image` reads from encoded bytes whose format it
/// recognises by their leading magic bytes, or (0, 0) when no built-in
/// format matches or the header is unreadable.
pub uninterp spec fn decoded_dims(bytes: Seq<u8>) -> (u32, u32);

/// `image::guess_format` (a match of the leading bytes against the
/// built-in formats' signatures), then `ImageReader::with_format` and
/// `into_dimensions` on the bytes: the result is `decoded_dims`.  A built-in
/// format is used, so no registered hook takes part.  Only the header is
/// read; an unknown format or a malformed header comes back as an error,
/// which gives `(0, 0)`.  That no format's header code panics on malformed
/// bytes rests on the `image` crate and its codecs, which report such
/// input as errors.
#[verifier::external_body]
fn image_dimensions(bytes: &[u8]) -> (out: (u32, u32))
    ensures
        out == decoded_dims(bytes@),
{
    image::guess_format(bytes)
        .ok()
        .and_then(|f| image::ImageReader::with_format(std::io::Cursor::new(bytes), f).into_dimensions().ok())
        .unwrap_or((0, 0))
}

/// `std::path::Path::file_stem` of `p`, as a string.  Of a path of
/// `/`-separated parts it is `std_file_stem` on every platform; of other
/// paths nothing is promised, as they follow the separators and prefixes
/// of the platform.
#[verifier::external_body]
pub(crate) fn path_file_stem(p: &str) -> (out: Option<String>)
    ensures
        slash_path(p@) ==> opt_chars(out) == std_file_stem(p@),
{
    std::path::Path::new(p).file_stem().and_then(|s| s.to_str()).map(|s| s.to_string())
}

/// The file stem of `p` (`std::path::Path::file_stem`): `std_file_stem`
/// for a path of `/`-separated parts, and for a plain path whose file name
/// is not `..` the stem of that name.
pub(crate) fn file_stem(p: &str) -> (out: Option<String>)
    ensures
        slash_path(p@) ==> opt_chars(out) == std_file_stem(p@),
        has_plain_stem(p@) ==> opt_chars(out) == Some(stem_of(file_name_of(p@))),
{
    let out = path_file_stem(p);
    proof {
        if has_plain_stem(p@) {
            lemma_plain_is_slash(p@);
            lemma_plain_file_stem(p@);
        }
    }
    out
}

/// The title of an EPUB at `path`: the title its metadata gives, else the
/// file's stem, else `Untitled`.
pub fn epub_title(meta_title: Option<String>, path: &str) -> (t: String)
    ensures
        meta_title matches Some(m) ==> t@ == m@,
        meta_title is None && has_plain_stem(path@) ==> t@ == stem_of(file_name_of(path@)),
{
    match meta_title {
        Some(m) => m,
        None => title_or_untitled(file_stem(path)),
    }
}

/// The stem, or `Untitled`.
pub fn title_or_untitled(stem: Option<String>) -> (t: String)
    ensures
        stem matches Some(s) ==> t@ == s@,
        stem is None ==> t@ == seq!['U', 'n', 't', 'i', 't', 'l', 'e', 'd'],
{
    match stem {
        Some(s) => s,
        None => {
            proof {
                reveal_strlit("Untitled");
            }
            let t = String::from_str("Untitled");
            t
        },
    }
}

/// What `zip` reads as member `name` of archive `data`: its bytes, or
/// `None` when the archive or the member cannot be read.
pub uninterp spec fn zip_member(data: Seq<u8>, name: Seq<char>) -> Option<Seq<u8>>;

/// `zip::ZipArchive::new` over the bytes, `by_name`, `read_to_end`: the
/// result is `zip_member`.  A malformed archive, a missing member or a
/// corrupt stream comes back from these calls as an error, which gives
/// `None`; the crate's reading path (`read.rs`) panics on none of them, and
/// the decompressors report corrupt data as `io::Error`.
#[verifier::external_body]
fn zip_entry(data: &[u8], name: &str) -> (out: Option<Vec<u8>>)
    ensures
        opt_bytes(out) == zip_member(data@, name@),
{
    let mut archive = zip::ZipArchive::new(std::io::Cursor::new(data)).ok()?;
    let mut member = archive.by_name(name).ok()?;
    let mut bytes = Vec::new();
    member.read_to_end(&mut bytes).ok()?;
    Some(bytes)
}

pub open spec fn opt_bytes(o: Option<Vec<u8>>) -> Option<Seq<u8>> {
    match o {
        Some(v) => Some(v@),
        None => None,
    }
}

/// Whether path `p` ends in `.md` in any ASCII case.
pub open spec fn is_md_path(p: Seq<char>) -> bool {
    p.len() >= 3 && p[p.len() - 3] == '.' && (p[p.len() - 2] == 'm' || p[p.len() - 2] == 'M') && (
    p[p.len() - 1] == 'd' || p[p.len() - 1] == 'D')
}

/// Level-one Markdown headings among lines `ls`: a trimmed line that
/// starts with `# ` and has text after it; label: that text, trimmed.
pub open spec fn md_headings(ls: Seq<Seq<char>>) -> Seq<(int, Seq<char>)>
    decreases ls.len(),
{
    if ls.len() == 0 {
        Seq::empty()
    } else {
        let r = md_headings(ls.drop_last());
        let t = trim(ls.last());
        if t.len() >= 2 && t[0] == '#' && t[1] == ' ' && trim(t.skip(2)).len() > 0 {
            r.push(((ls.len() - 1) as int, trim(t.skip(2))))
        } else {
            r
        }
    }
}


/// The level-one Markdown headings of lines `ls`.
fn find_md_headings(ls: &Vec<Vec<char>>) -> (out: Vec<(usize, Vec<char>)>)
    ensures
        heads_view(out@) == md_headings(lines_view(ls@)),
{
    let ghost lv = lines_view(ls@);
    let mut out: Vec<(usize, Vec<char>)> = Vec::new();
    let mut i: usize = 0;
    assert(lv.take(0) =~= Seq::<Seq<char>>::empty());
    while i < ls.len()
        invariant
            i <= ls@.len(),
            lv == lines_view(ls@),
            heads_view(out@) == md_headings(lv.take(i as int)),
        decreases ls@.len() - i,
    {
        assert(lv.take(i + 1).drop_last() =~= lv.take(i as int));
        assert(lv.take(i + 1).last() == ls@[i as int]@);
        let t = trim_chars(ls[i].as_slice());
        if t.len() >= 2 && t[0] == '#' && t[1] == ' ' {
            let mut rest: Vec<char> = Vec::new();
            let mut k: usize = 2;
            while k < t.len()
                invariant
                    2 <= k <= t@.len(),
                    rest@ == t@.subrange(2, k as int),
                decreases t@.len() - k,
            {
                rest.push(t[k]);
                assert(t@.subrange(2, k + 1) =~= t@.subrange(2, k as int).push(t@[k as int]));
                k += 1;
            }
            assert(rest@ =~= t@.skip(2));
            let label = trim_chars(rest.as_slice());
            if label.len() > 0 {
                let ghost before = out@;
                out.push((i, label));
                assert(heads_view(out@) =~= heads_view(before).push((i as int, label@)));
            }
        }
        i += 1;
    }
    assert(lv.take(ls@.len() as int) =~= lv);
    out
}

/// The chapters and contents of a text file's content.
pub open spec fn text_chapters(path: Seq<char>, content: Seq<char>) -> (Seq<ChapterV>, Seq<(Seq<char>, int)>) {
    if is_md_path(path) {
        let hs = md_headings(lines(content));
        let stripped = md_plain(content);
        if hs.len() > 0 {
            let chs = chapters_at(lines(stripped), hs);
            (chs, toc_all(chs))
        } else {
            (txt_chapters(stripped), txt_toc(stripped))
        }
    } else {
        (txt_chapters(content), txt_toc(content))
    }
}

/// Markdown headings are read from the source lines but cut the stripped
/// text; cutting must not reach past the stripped text's last line.
pub open spec fn text_cut_ok(path: Seq<char>, content: Seq<char>) -> bool {
    is_md_path(path) ==> sections_ok(
        lines(md_plain(content)).len() as int,
        md_headings(lines(content)),
        0,
    )
}

/// Each chapter's body as its one text block.
pub open spec fn body_blocks(chs: Seq<ChapterV>) -> Seq<Seq<BlockV>> {
    chs.map_values(|c: ChapterV| seq![BlockV::Text(c.1)])
}

fn chapters_with_toc(chs: Vec<(Vec<char>, Vec<char>)>, toc: Vec<(Vec<char>, usize)>) -> (out: (
    Vec<Vec<ContentBlock>>,
    Vec<TocEntry>,
))
    ensures
        out.0@.map_values(|c: Vec<ContentBlock>| blocks_view(c@)) == body_blocks(chs_view(chs@)),
        out.1@.map_values(|t: TocEntry| t@) == toc@.map_values(|t: (Vec<char>, usize)| (t.0@, t.1 as int)),
{
    let mut texts: Vec<Vec<ContentBlock>> = Vec::new();
    let mut i: usize = 0;
    while i < chs.len()
        invariant
            i <= chs@.len(),
            texts@.len() == i,
            forall|k: int| 0 <= k < i ==> blocks_view((#[trigger] texts@[k])@) == seq![BlockV::Text(chs@[k].1@)],
        decreases chs@.len() - i,
    {
        let mut v: Vec<ContentBlock> = Vec::new();
        v.push(ContentBlock::Text(string_from_chars(chs[i].1.as_slice())));
        assert(blocks_view(v@) =~= seq![BlockV::Text(chs@[i as int].1@)]);
        texts.push(v);
        i += 1;
    }
    assert(texts@.map_values(|c: Vec<ContentBlock>| blocks_view(c@)) =~= body_blocks(chs_view(chs@)));
    let mut entries: Vec<TocEntry> = Vec::new();
    let mut k: usize = 0;
    while k < toc.len()
        invariant
            k <= toc@.len(),
            entries@.len() == k,
            forall|j: int| 0 <= j < k ==> (#[trigger] entries@[j])@ == (toc@[j].0@, toc@[j].1 as int),
        decreases toc@.len() - k,
    {
        entries.push(TocEntry { label: string_from_chars(toc[k].0.as_slice()), page_index: toc[k].1 });
        k += 1;
    }
    assert(entries@.map_values(|t: TocEntry| t@) =~= toc@.map_values(|t: (Vec<char>, usize)| (t.0@, t.1 as int)));
    (texts, entries)
}

impl ReflowDocument {
    /// A TXT or Markdown document from its path and decoded text: `None`
    /// for an empty text; else chapters as `text_chapters` says, each body
    /// one text block.
    pub fn from_text(path: &str, content: &[char]) -> (out: Option<ReflowDocument>)
        requires
            text_cut_ok(path@, content@),
        ensures
            out is None <==> content@.len() == 0,
            out matches Some(d) ==> {
                &&& d.wf()
                &&& d.spine_len() == 0
                &&& d.path_v() == path@
                &&& has_plain_stem(path@) ==> d.title_v() == stem_of(file_name_of(path@))
                &&& d.texts_v() == body_blocks(text_chapters(path@, content@).0)
                &&& d.toc_v() == text_chapters(path@, content@).1
                &&& d.images_v() == Map::<Seq<char>, BlockV>::empty()
            },
    {
        if content.len() == 0 {
            return None;
        }
        let title = title_or_untitled(file_stem(path));
        let is_md = md_path(path);
        let (chs, toc) = if is_md {
            let src_lines = split_lines(content);
            let hs = find_md_headings(&src_lines);
            let stripped = strip_markdown_chars(content);
            if hs.len() > 0 {
                let ls = split_lines(stripped.as_slice());
                let secs = cut_sections(&ls, &hs);
                let chs = merge_chapters(secs, false);
                let toc = toc_of(&chs);
                (chs, toc)
            } else {
                split_txt_chapters_chars(stripped.as_slice())
            }
        } else {
            split_txt_chapters_chars(content)
        };
        let (texts, entries) = chapters_with_toc(chs, toc);
        let d = ReflowDocument {
            path: String::from_str(path),
            doc_title: title,
            toc: entries,
            spine: Vec::new(),
            raw: Vec::new(),
            texts,
            images: Vec::new(),
        };
        assert(d.images_v() =~= Map::<Seq<char>, BlockV>::empty());
        Some(d)
    }

    /// A TXT or Markdown document from its path and file bytes: the bytes
    /// decoded as `decoded_text` says, then as `from_text`.
    pub fn from_text_bytes(path: &str, data: &[u8]) -> (out: Option<ReflowDocument>)
        requires
            decodable_len(data@.len()),
            text_cut_ok(path@, decoded_text(data@)),
        ensures
            out is None <==> decoded_text(data@).len() == 0,
            out matches Some(d) ==> {
                &&& d.wf()
                &&& d.spine_len() == 0
                &&& d.path_v() == path@
                &&& has_plain_stem(path@) ==> d.title_v() == stem_of(file_name_of(path@))
                &&& d.texts_v() == body_blocks(text_chapters(path@, decoded_text(data@)).0)
                &&& d.toc_v() == text_chapters(path@, decoded_text(data@)).1
                &&& d.images_v() == Map::<Seq<char>, BlockV>::empty()
            },
    {
        let content_s = decode_text(data);
        let content = chars_of(content_s.as_str());
        Self::from_text(path, content.as_slice())
    }

    /// As `from_text_bytes`, checked: `None` also when the file is too
    /// large to decode, or when a Markdown heading lies past the last line
    /// of the text left once its markup is stripped (a cut there would
    /// read past the text's end).
    pub fn open_text_bytes(path: &str, data: &[u8]) -> (out: Option<ReflowDocument>)
        ensures
            !decodable_len(data@.len()) ==> out is None,
            decodable_len(data@.len()) && !text_cut_ok(path@, decoded_text(data@)) ==> out is None,
            decodable_len(data@.len()) && text_cut_ok(path@, decoded_text(data@)) ==> {
                &&& out is None <==> decoded_text(data@).len() == 0
                &&& out matches Some(d) ==> {
                    &&& d.wf()
                    &&& d.spine_len() == 0
                    &&& d.path_v() == path@
                    &&& has_plain_stem(path@) ==> d.title_v() == stem_of(file_name_of(path@))
                    &&& d.texts_v() == body_blocks(text_chapters(path@, decoded_text(data@)).0)
                    &&& d.toc_v() == text_chapters(path@, decoded_text(data@)).1
                    &&& d.images_v() == Map::<Seq<char>, BlockV>::empty()
                }
            },
    {
        if data.len() > usize::MAX / 8 {
            return None;
        }
        let content_s = decode_text(data);
        let content = chars_of(content_s.as_str());
        if md_path(path) {
            let src_lines = split_lines(content.as_slice());
            let hs = find_md_headings(&src_lines);
            let stripped = strip_markdown_chars(content.as_slice());
            let ls = split_lines(stripped.as_slice());
            if !sections_fit(ls.len(), &hs) {
                return None;
            }
        }
        Self::from_text(path, content.as_slice())
    }
}

/// Whether a path ends in `.md` in any ASCII case.
fn md_path(path: &str) -> (r: bool)
    ensures
        r == is_md_path(path@),
{
    let p = chars_of(path);
    let n = p.len();
    n >= 3 && p[n - 3] == '.' && (p[n - 2] == 'm' || p[n - 2] == 'M') && (p[n - 1] == 'd' || p[n - 1]
        == 'D')
}

/// Whether cutting `len` lines at headings `hs` stays within the lines.
fn sections_fit(len: usize, hs: &Vec<(usize, Vec<char>)>) -> (r: bool)
    ensures
        r == sections_ok(len as int, heads_view(hs@), 0),
{
    let ghost hv = heads_view(hs@);
    let mut prev: usize = 0;
    let mut i: usize = 0;
    assert(hv.skip(0) =~= hv);
    while i < hs.len()
        invariant
            i <= hs@.len(),
            hv == heads_view(hs@),
            sections_ok(len as int, hv, 0) == sections_ok(len as int, hv.skip(i as int), prev as int),
        decreases hs@.len() - i,
    {
        let h = hs[i].0;
        let ghost rest = hv.skip(i as int);
        assert(rest[0].0 == h);
        assert(rest.drop_first() =~= hv.skip(i + 1));
        if !((h <= prev || h <= len) && h < usize::MAX) {
            return false;
        }
        prev = h + 1;
        i += 1;
    }
    true
}

impl ReflowDocument {
    /// A DOCX document from its path and file bytes: `word/document.xml`
    /// read from the archive; chapters from its paragraphs (see
    /// `docx_chapters`); `None` when the member is missing or no chapter
    /// results.
    pub fn from_docx_bytes(path: &str, data: &[u8]) -> (out: Option<ReflowDocument>)
        ensures
            out is Some <==> (zip_member(data@, "word/document.xml"@) matches Some(x) && docx_chapters(
                xml_events(x),
            ).len() > 0),
            out matches Some(d) ==> {
                &&& d.wf()
                &&& d.spine_len() == 0
                &&& d.path_v() == path@
                &&& has_plain_stem(path@) ==> d.title_v() == stem_of(file_name_of(path@))
                &&& d.images_v() == Map::<Seq<char>, BlockV>::empty()
                &&& d.texts_v() == body_blocks(docx_chapters(xml_events(zip_member(data@, "word/document.xml"@)->0)))
                &&& d.toc_v() == docx_toc(xml_events(zip_member(data@, "word/document.xml"@)->0))
            },
    {
        let xml = match zip_entry(data, "word/document.xml") {
            Some(x) => x,
            None => return None,
        };
        let title = title_or_untitled(file_stem(path));
        let (chs, toc) = parse_docx_xml(xml.as_slice());
        if chs.len() == 0 {
            return None;
        }
        let ghost cv = chs_view(chs@);
        let ghost tv = toc@.map_values(|t: (Vec<char>, usize)| (t.0@, t.1 as int));
        let (texts, entries) = chapters_with_toc(chs, toc);
        let d = ReflowDocument {
            path: String::from_str(path),
            doc_title: title,
            toc: entries,
            spine: Vec::new(),
            raw: Vec::new(),
            texts,
            images: Vec::new(),
        };
        assert(d.images_v() =~= Map::<Seq<char>, BlockV>::empty());
        Some(d)
    }

    /// An EPUB document from what was read from the archive: title,
    /// contents, spine (id, href) and each spine chapter's XHTML text
    /// (`None` when it could not be read: the chapter has no blocks).
    pub fn from_epub_parts(
        path: &str,
        doc_title: String,
        toc: Vec<TocEntry>,
        spine: Vec<(String, String)>,
        htmls: Vec<Option<String>>,
    ) -> (out: ReflowDocument)
        requires
            htmls@.len() == spine@.len(),
        ensures
            out.wf(),
            out.spine_len() == spine@.len(),
            out.path_v() == path@,
            out.title_v() == doc_title@,
            out.toc_v() == toc@.map_values(|t: TocEntry| t@),
            out.images_v() == Map::<Seq<char>, BlockV>::empty(),
            forall|k: int|
                0 <= k < spine@.len() ==> (htmls@[k] is None ==> #[trigger] out.raw_v()[k].len() == 0),
            forall|k: int|
                0 <= k < spine@.len() ==> (htmls@[k] is Some ==> xhtml_raw(
                    htmls@[k]->0@,
                    spine@[k].1@,
                    #[trigger] out.raw_v()[k],
                )),
    {
        let mut raw: Vec<Vec<RawBlock>> = Vec::new();
        let mut i: usize = 0;
        while i < spine.len()
            invariant
                i <= spine@.len(),
                htmls@.len() == spine@.len(),
                raw@.len() == i,
                forall|k: int| 0 <= k < i ==> (htmls@[k] is None ==> (#[trigger] raw@[k])@.len() == 0),
                forall|k: int|
                    0 <= k < i ==> (htmls@[k] is Some ==> xhtml_raw(
                        htmls@[k]->0@,
                        spine@[k].1@,
                        raws_view((#[trigger] raw@[k])@),
                    )),
            decreases spine@.len() - i,
        {
            match &htmls[i] {
                Some(h) => {
                    let (blocks, refs) = extract_raw_blocks(h.as_str(), spine[i].1.as_str());
                    proof {
                        let ts = xml_str_events(h@);
                        let paths = strs_view(refs@);
                        assert forall|k: int| 0 <= k < paths.len() implies resolves(
                            spine@[i as int].1@,
                            #[trigger] html_srcs(ts)[k],
                            paths[k],
                        ) by {
                            assert(paths[k] == refs@[k]@);
                        }
                        assert(xhtml_raw(h@, spine@[i as int].1@, raws_view(blocks@)));
                    }
                    raw.push(blocks);
                },
                None => {
                    raw.push(Vec::new());
                },
            }
            i += 1;
        }
        let d = ReflowDocument {
            path: String::from_str(path),
            doc_title,
            toc,
            spine,
            raw,
            texts: Vec::new(),
            images: Vec::new(),
        };
        assert(d.images_v() =~= Map::<Seq<char>, BlockV>::empty());
        d
    }

    /// The image paths chapter `idx` refers to, each once, in the order
    /// of their first reference; none for a chapter that is not there.
    pub fn chapter_image_refs(&self, idx: usize) -> (out: Vec<String>)
        ensures
            forall|k: int| 0 <= k < out@.len() ==> (0 <= idx < self.raw_v().len() && self.raw_v()[idx as int].contains(RawV::Image(#[trigger] out@[k]@))),
            forall|a: int, b: int| 0 <= a < b < out@.len() ==> out@[a]@ != out@[b]@,
            0 <= idx < self.raw_v().len() ==> forall|j: int|
                0 <= j < self.raw_v()[idx as int].len() && (#[trigger] self.raw_v()[idx as int][j]) is Image ==> exists|k: int|
                    0 <= k < out@.len() && RawV::Image(#[trigger] out@[k]@) == self.raw_v()[idx as int][j],
    {
        let mut out: Vec<String> = Vec::new();
        if idx >= self.raw.len() {
            return out;
        }
        let blocks = &self.raw[idx];
        let ghost rv = raws_view(blocks@);
        let mut i: usize = 0;
        while i < blocks.len()
            invariant
                i <= blocks@.len(),
                idx < self.raw@.len(),
                blocks == self.raw@[idx as int],
                rv == raws_view(blocks@),
                forall|k: int| 0 <= k < out@.len() ==> rv.contains(RawV::Image(#[trigger] out@[k]@)),
                forall|a: int, b: int| 0 <= a < b < out@.len() ==> out@[a]@ != out@[b]@,
                forall|j: int|
                    0 <= j < i && (#[trigger] rv[j]) is Image ==> exists|k: int|
                        0 <= k < out@.len() && RawV::Image(#[trigger] out@[k]@) == rv[j],
            decreases blocks@.len() - i,
        {
            match &blocks[i] {
                RawBlock::ImageRef(h) => {
                    let mut seen = false;
                    let mut k: usize = 0;
                    while k < out.len()
                        invariant
                            k <= out@.len(),
                            seen <==> exists|m: int| 0 <= m < k && (#[trigger] out@[m])@ == h@,
                        decreases out@.len() - k,
                    {
                        if str_eq(out[k].as_str(), h.as_str()) {
                            seen = true;
                        }
                        k += 1;
                    }
                    assert(rv[i as int] == RawV::Image(h@));
                    if !seen {
                        let ghost before = out@;
                        out.push(h.clone());
                        assert(out@[before.len() as int]@ == h@);
                        assert forall|a: int, b: int| 0 <= a < b < out@.len() implies out@[a]@ != out@[b]@ by {
                            if b == before.len() {
                                assert(out@[a] == before[a]);
                            }
                        }
                        assert forall|j: int|
                            0 <= j < i + 1 && (#[trigger] rv[j]) is Image implies exists|k: int|
                                0 <= k < out@.len() && RawV::Image(#[trigger] out@[k]@) == rv[j] by {
                            if j < i {
                                let k0 = choose|k: int| 0 <= k < before.len() && RawV::Image(#[trigger] before[k]@) == rv[j];
                                assert(out@[k0] == before[k0]);
                            } else {
                                assert(RawV::Image(out@[before.len() as int]@) == rv[j]);
                            }
                        }
                    } else {
                        proof {
                            let m = choose|m: int| 0 <= m < out@.len() && (#[trigger] out@[m])@ == h@;
                            assert(RawV::Image(out@[m]@) == rv[i as int]);
                        }
                    }
                },
                _ => {},
            }
            i += 1;
        }
        assert(self.raw_v()[idx as int] == rv);
        out
    }

    /// Stores an image read from the archive under its resolved path (an
    /// already stored path keeps its image); its size is what `image`
    /// decodes from the bytes.
    pub fn insert_image(&mut self, href: &str, bytes: Vec<u8>)
        requires
            old(self).wf(),
        ensures
            final(self).wf(),
            final(self).spine_len() == old(self).spine_len(),
            final(self).raw_v() == old(self).raw_v(),
            final(self).texts_v() == old(self).texts_v(),
            final(self).toc_v() == old(self).toc_v(),
            final(self).title_v() == old(self).title_v(),
            final(self).path_v() == old(self).path_v(),
            old(self).images_v().contains_key(href@) ==> final(self).images_v() == old(self).images_v(),
            !old(self).images_v().contains_key(href@) ==> final(self).images_v() == old(self).images_v().insert(
                href@,
                BlockV::Image(bytes@, decoded_dims(bytes@).0, decoded_dims(bytes@).1),
            ),
    {
        let mut k: usize = 0;
        while k < self.images.len()
            invariant
                k <= self.images@.len(),
                *self == *old(self),
                self.wf(),
                forall|j: int| 0 <= j < k ==> self.images@[j].0@ != href@,
            decreases self.images@.len() - k,
        {
            if str_eq(self.images[k].0.as_str(), href) {
                assert(self.images_v().contains_key(href@));
                return;
            }
            k += 1;
        }
        assert(!self.images_v().contains_key(href@));
        let (w, h) = image_dimensions(bytes.as_slice());
        let ghost old_images = self.images@;
        let ghost oldm = self.images_v();
        let ghost bv = bytes@;
        self.images.push((String::from_str(href), StoredImage { raw_bytes: bytes, width: w, height: h }));
        let ghost n = old_images.len() as int;
        assert(self.images@[n].0@ == href@);
        assert forall|h2: Seq<char>| self.images_v().contains_key(h2) == oldm.insert(href@, BlockV::Image(bv, w, h)).contains_key(h2) by {
            if h2 == href@ {
                assert(self.images@[n].0@ == h2);
            } else if self.images_v().contains_key(h2) {
                let j = choose|j: int| 0 <= j < self.images@.len() && #[trigger] self.images@[j].0@ == h2;
                assert(j < n);
                assert(old_images[j].0@ == h2);
            } else if oldm.contains_key(h2) {
                let j = choose|j: int| 0 <= j < old_images.len() && #[trigger] old_images[j].0@ == h2;
                assert(self.images@[j].0@ == h2);
            }
        }
        assert forall|h2: Seq<char>| #[trigger] self.images_v().contains_key(h2) implies self.images_v()[h2] == oldm.insert(href@, BlockV::Image(bv, w, h))[h2] by {
            let j = choose|j: int| 0 <= j < self.images@.len() && #[trigger] self.images@[j].0@ == h2;
            if h2 == href@ {
                assert(j == n);
            } else {
                assert(j < n);
                let j0 = choose|j0: int| 0 <= j0 < old_images.len() && #[trigger] old_images[j0].0@ == h2;
                assert(j0 == j);
            }
        }
        assert(self.images_v() =~= oldm.insert(href@, BlockV::Image(bv, w, h)));
    }
}

/// What `chapter_text` shows for a block: its text, or `[IMAGE]`.
pub open spec fn block_str(b: BlockV) -> Seq<char> {
    match b {
        BlockV::Text(t) => t,
        BlockV::Image(_, _, _) => seq!['[', 'I', 'M', 'A', 'G', 'E', ']'],
    }
}

/// The shape of a content block: (is image, character count).
pub open spec fn block_shape(b: BlockV) -> (bool, nat) {
    match b {
        BlockV::Text(t) => (false, t.len()),
        BlockV::Image(_, _, _) => (true, 1),
    }
}

impl ReflowDocument {
    fn find_image(&self, href: &str) -> (out: Option<usize>)
        requires
            self.wf(),
        ensures
            out is None <==> !self.images_v().contains_key(href@),
            out matches Some(k) ==> k < self.images@.len() && self.images_v()[href@] == BlockV::Image(
                self.images@[k as int].1.raw_bytes@,
                self.images@[k as int].1.width,
                self.images@[k as int].1.height,
            ),
    {
        let mut k: usize = 0;
        while k < self.images.len()
            invariant
                k <= self.images@.len(),
                self.wf(),
                forall|j: int| 0 <= j < k ==> self.images@[j].0@ != href@,
            decreases self.images@.len() - k,
        {
            if str_eq(self.images[k].0.as_str(), href) {
                assert(self.images_v().contains_key(href@));
                let ghost c = choose|j: int| 0 <= j < self.images@.len() && #[trigger] self.images@[j].0@ == href@;
                assert(c == k);
                return Some(k);
            }
            k += 1;
        }
        None
    }

    /// The blocks of chapter `idx`: for a TXT/DOCX document the chapter held;
    /// for an EPUB its raw blocks as `convert_raw` says (`load_images`:
    /// images as loaded, else placeholders).
    pub fn load_chapter_blocks(&self, idx: usize, load_images: bool) -> (out: Vec<ContentBlock>)
        requires
            self.wf(),
        ensures
            blocks_view(out@) == self.blocks_v(idx as int, load_images),
    {
        let mut out: Vec<ContentBlock> = Vec::new();
        if self.spine.len() == 0 {
            if idx < self.texts.len() {
                let src = &self.texts[idx];
                let mut i: usize = 0;
                while i < src.len()
                    invariant
                        i <= src@.len(),
                        out@.len() == i,
                        forall|k: int| 0 <= k < i ==> (#[trigger] out@[k])@ == src@[k]@,
                    decreases src@.len() - i,
                {
                    out.push(copy_block(&src[i]));
                    i += 1;
                }
                assert(blocks_view(out@) =~= blocks_view(src@));
                assert(self.texts_v()[idx as int] == blocks_view(src@));
            } else {
                assert(blocks_view(out@) =~= Seq::<BlockV>::empty());
            }
            return out;
        }
        if idx >= self.raw.len() {
            assert(blocks_view(out@) =~= Seq::<BlockV>::empty());
            return out;
        }
        let raw = &self.raw[idx];
        let ghost rv = raws_view(raw@);
        assert(self.raw_v()[idx as int] == rv);
        let mut i: usize = 0;
        assert(rv.take(0) =~= Seq::<RawV>::empty());
        assert(blocks_view(out@) =~= Seq::<BlockV>::empty());
        while i < raw.len()
            invariant
                i <= raw@.len(),
                self.wf(),
                rv == raws_view(raw@),
                blocks_view(out@) == convert_raw(rv.take(i as int), self.images_v(), load_images),
            decreases raw@.len() - i,
        {
            assert(rv.take(i + 1).drop_last() =~= rv.take(i as int));
            assert(rv.take(i + 1).last() == raw@[i as int]@);
            let ghost before = out@;
            match &raw[i] {
                RawBlock::Text(t) => {
                    let tc = chars_of(t.as_str());
                    let tt = trim_chars(tc.as_slice());
                    if tt.len() > 0 {
                        out.push(ContentBlock::Text(string_from_chars(tt.as_slice())));
                        assert(blocks_view(out@) =~= blocks_view(before).push(BlockV::Text(tt@)));
                    }
                },
                RawBlock::ImageRef(h) => {
                    if !load_images {
                        out.push(ContentBlock::Image(StoredImage { raw_bytes: Vec::new(), width: 600, height: 800 }));
                        assert(blocks_view(out@) =~= blocks_view(before).push(BlockV::Image(Seq::empty(), 600, 800)));
                    } else {
                        match self.find_image(h.as_str()) {
                            Some(k) => {
                                out.push(ContentBlock::Image(copy_image(&self.images[k].1)));
                                assert(blocks_view(out@) =~= blocks_view(before).push(self.images_v()[h@]));
                            },
                            None => {},
                        }
                    }
                },
            }
            i += 1;
        }
        assert(rv.take(raw@.len() as int) =~= rv);
        out
    }

    /// Chapter `idx`: its contents label (or empty) and its blocks.
    pub fn load_chapter(&self, idx: usize, load_images: bool) -> (out: Chapter)
        requires
            self.wf(),
        ensures
            out.title@ == self.label_v(idx as int),
            blocks_view(out.blocks@) == self.blocks_v(idx as int, load_images),
    {
        let title = if idx < self.toc.len() {
            self.toc[idx].label.clone()
        } else {
            String::new()
        };
        proof {
            if idx < self.toc@.len() {
                assert(self.toc_v()[idx as int] == self.toc@[idx as int]@);
            }
        }
        Chapter { title, blocks: self.load_chapter_blocks(idx, load_images) }
    }

    /// The text of chapter `idx` without loading images: the blocks, images
    /// shown as `[IMAGE]`, joined with newlines.
    pub fn chapter_text(&self, idx: usize) -> (out: String)
        requires
            self.wf(),
        ensures
            out@ == crate::text::join_lines(self.blocks_v(idx as int, false).map_values(|b: BlockV| block_str(b))),
    {
        let blocks = self.load_chapter_blocks(idx, false);
        let ghost bv = blocks_view(blocks@).map_values(|b: BlockV| block_str(b));
        let mut parts: Vec<Vec<char>> = Vec::new();
        let mut i: usize = 0;
        while i < blocks.len()
            invariant
                i <= blocks@.len(),
                bv == blocks_view(blocks@).map_values(|b: BlockV| block_str(b)),
                parts@.len() == i,
                forall|k: int| 0 <= k < i ==> (#[trigger] parts@[k])@ == bv[k],
            decreases blocks@.len() - i,
        {
            match &blocks[i] {
                ContentBlock::Text(t) => {
                    parts.push(chars_of(t.as_str()));
                },
                ContentBlock::Image(_) => {
                    let v: Vec<char> = vec!['[', 'I', 'M', 'A', 'G', 'E', ']'];
                    assert(v@ =~= seq!['[', 'I', 'M', 'A', 'G', 'E', ']']);
                    parts.push(v);
                },
            }
            i += 1;
        }
        let joined = crate::text::join_range(&parts, 0, parts.len());
        assert(lines_view(parts@).subrange(0, parts@.len() as int) =~= bv);
        string_from_chars(joined.as_slice())
    }

    /// Chapter `idx`'s label and block shapes: for a TXT/DOCX document the
    /// chapter held; for an EPUB its raw blocks (non-empty trimmed text,
    /// images) without loading images.
    pub fn chapter_info(&self, idx: usize) -> (out: ChapterInfo)
        requires
            self.wf(),
        ensures
            out.title@ == self.label_v(idx as int),
            out.blocks@.map_values(|b: BlockInfo| (b.is_image, b.char_count as nat)) == self.blocks_v(
                idx as int,
                false,
            ).map_values(|b: BlockV| block_shape(b)),
    {
        let blocks = self.load_chapter_blocks(idx, false);
        let ghost bv = blocks_view(blocks@).map_values(|b: BlockV| block_shape(b));
        let mut infos: Vec<BlockInfo> = Vec::new();
        let mut i: usize = 0;
        while i < blocks.len()
            invariant
                i <= blocks@.len(),
                bv == blocks_view(blocks@).map_values(|b: BlockV| block_shape(b)),
                infos@.len() == i,
                forall|k: int| 0 <= k < i ==> ((#[trigger] infos@[k]).is_image, infos@[k].char_count as nat) == bv[k],
            decreases blocks@.len() - i,
        {
            match &blocks[i] {
                ContentBlock::Text(t) => {
                    let c = chars_of(t.as_str());
                    infos.push(BlockInfo { is_image: false, char_count: c.len() });
                },
                ContentBlock::Image(_) => {
                    infos.push(BlockInfo { is_image: true, char_count: 1 });
                },
            }
            i += 1;
        }
        assert(infos@.map_values(|b: BlockInfo| (b.is_image, b.char_count as nat)) =~= bv);
        let ch = self.load_chapter(idx, false);
        ChapterInfo { title: ch.title, blocks: infos }
    }
}
} // verus!
