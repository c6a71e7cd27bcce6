//! Documents: which engine opens a file, what every document tells about
//! itself, a rendered page, and the recent files list.
use vstd::prelude::*;
use crate::chapters::TocEntry;
use crate::reflow::{block_str, blocks_view, file_stem, title_or_untitled, BlockV, Chapter, ReflowDocument};
use crate::paths::{ext_of, extension, file_name_of, has_plain_stem, stem_of};
use crate::text::{chars_of, str_eq};

verus! {

/// `c` is `l` (a lower-case ASCII letter or other character) in either
/// ASCII case.
pub open spec fn ci_char(c: char, l: char) -> bool {
    c == l || ('a' <= l && l <= 'z' && (c as u32) + 32 == (l as u32))
}

/// `p` ends with `suffix` (lower case) in any ASCII case.
pub open spec fn ends_ci(p: Seq<char>, suffix: Seq<char>) -> bool {
    &&& p.len() >= suffix.len()
    &&& forall|i: int|
        0 <= i < suffix.len() ==> ci_char(#[trigger] p[p.len() - suffix.len() + i], suffix[i])
}

/// Whether a path ends with a lower-case suffix in any ASCII case.
pub fn path_ends_ci(path: &str, suffix: &str) -> (r: bool)
    ensures
        r == ends_ci(path@, suffix@),
{
    let p = chars_of(path);
    let s = chars_of(suffix);
    if p.len() < s.len() {
        return false;
    }
    let off = p.len() - s.len();
    let mut i: usize = 0;
    while i < s.len()
        invariant
            i <= s@.len(),
            p@ == path@,
            s@ == suffix@,
            off == p@.len() - s@.len(),
            off + s@.len() == p.len(),
            forall|j: int| 0 <= j < i ==> ci_char(#[trigger] p@[p@.len() - s@.len() + j], s@[j]),
        decreases s@.len() - i,
    {
        let c = p[off + i];
        let l = s[i];
        let same = c == l || ('a' <= l && l <= 'z' && (l as u32) - 32 == (c as u32));
        if !same {
            assert(!ci_char(p@[p@.len() - s@.len() + i], s@[i as int]));
            return false;
        }
        i += 1;
    }
    true
}

/// The two kinds of documents: fixed pages (PDF) and reflowable text.
#[derive(Clone, Copy, PartialEq, Eq, Structural, Debug)]
pub enum DocKind {
    Fixed,
    Reflow,
}

/// The formats of reflowable documents.
#[derive(Clone, Copy, PartialEq, Eq, Structural, Debug)]
pub enum ReflowFormat {
    Epub,
    Text,
    Docx,
}

/// The kind of document a path names, by its extension in any case.
pub open spec fn doc_kind(p: Seq<char>) -> Option<DocKind> {
    if ends_ci(p, ".pdf"@) {
        Some(DocKind::Fixed)
    } else if ends_ci(p, ".epub"@) || ends_ci(p, ".txt"@) || ends_ci(p, ".md"@) || ends_ci(p, ".docx"@) {
        Some(DocKind::Reflow)
    } else {
        None
    }
}

/// The format of a reflowable document by its extension: EPUB, TXT or
/// Markdown, DOCX.
pub open spec fn reflow_format(p: Seq<char>) -> Option<ReflowFormat> {
    if ends_ci(p, ".epub"@) {
        Some(ReflowFormat::Epub)
    } else if ends_ci(p, ".txt"@) || ends_ci(p, ".md"@) {
        Some(ReflowFormat::Text)
    } else if ends_ci(p, ".docx"@) {
        Some(ReflowFormat::Docx)
    } else {
        None
    }
}

/// Opens documents by the engine their extension calls for.
pub struct DocumentManager;

impl DocumentManager {
    /// Which engine opens `path`, if any.
    pub fn kind_of(path: &str) -> (k: Option<DocKind>)
        ensures
            k == doc_kind(path@),
    {
        if path_ends_ci(path, ".pdf") {
            Some(DocKind::Fixed)
        } else if path_ends_ci(path, ".epub") || path_ends_ci(path, ".txt") || path_ends_ci(path, ".md")
            || path_ends_ci(path, ".docx") {
            Some(DocKind::Reflow)
        } else {
            None
        }
    }

    /// Which reflowable format `path` is, if any.
    pub fn reflow_format_of(path: &str) -> (f: Option<ReflowFormat>)
        ensures
            f == reflow_format(path@),
    {
        if path_ends_ci(path, ".epub") {
            Some(ReflowFormat::Epub)
        } else if path_ends_ci(path, ".txt") || path_ends_ci(path, ".md") {
            Some(ReflowFormat::Text)
        } else if path_ends_ci(path, ".docx") {
            Some(ReflowFormat::Docx)
        } else {
            None
        }
    }
}

/// A page rendered as RGBA pixels.
pub struct RenderedPage {
    pub width: u32,
    pub height: u32,
    pub rgba: Vec<u8>,
}

/// What every document tells about itself.
pub trait Document {
    /// Its title.
    fn title(&self) -> String;

    /// Its table of contents.
    fn toc_entries(&self) -> Vec<TocEntry>;

    /// A metadata value by key.
    fn metadata(&self, key: &str) -> Option<String>;
}

impl Document for ReflowDocument {
    fn title(&self) -> (t: String)
        ensures
            t@ == self.title_v(),
    {
        ReflowDocument::title(self)
    }

    fn toc_entries(&self) -> (out: Vec<TocEntry>)
        ensures
            out@.map_values(|t: TocEntry| t@) == self.toc_v(),
    {
        ReflowDocument::toc_entries(self)
    }

    fn metadata(&self, key: &str) -> (out: Option<String>)
        ensures
            out is None,
    {
        ReflowDocument::metadata(self, key)
    }
}

/// A document read as a flow of chapters.
pub trait ReflowLayout: Document {
    /// The document holds together, so that its chapters can be read.
    spec fn ready(&self) -> bool;

    /// How many chapters it has.
    fn chapter_count(&self) -> usize
        requires
            self.ready(),
    ;

    /// The text of chapter `idx`.
    fn chapter_text(&self, idx: usize) -> String
        requires
            self.ready(),
    ;

    /// Chapter `idx`, with its images loaded when asked.
    fn load_chapter(&self, idx: usize, load_images: bool) -> Chapter
        requires
            self.ready(),
    ;
}

impl ReflowLayout for ReflowDocument {
    open spec fn ready(&self) -> bool {
        self.wf()
    }

    fn chapter_count(&self) -> (n: usize)
        ensures
            n == self.count_v(),
    {
        ReflowDocument::chapter_count(self)
    }

    fn chapter_text(&self, idx: usize) -> (out: String)
        ensures
            out@ == crate::text::join_lines(self.blocks_v(idx as int, false).map_values(|b: BlockV| block_str(b))),
    {
        ReflowDocument::chapter_text(self, idx)
    }

    fn load_chapter(&self, idx: usize, load_images: bool) -> (out: Chapter)
        ensures
            out.title@ == self.label_v(idx as int),
            blocks_view(out.blocks@) == self.blocks_v(idx as int, load_images),
    {
        ReflowDocument::load_chapter(self, idx, load_images)
    }
}

/// What the `image` crate reads as the pixel size of `bytes` decoded as
/// the format of file extension `ext`: `None` when no format has that
/// extension or the header cannot be read.
pub uninterp spec fn ext_decoded_dims(ext: Seq<char>, bytes: Seq<u8>) -> Option<(u32, u32)>;

/// `image::ImageFormat::from_extension`, then `ImageReader::with_format`
/// and `into_dimensions` on the bytes: the result is `ext_decoded_dims`.
/// The format's decoder reads only the header; malformed bytes come back
/// as an error, which gives `None`.
#[verifier::external_body]
fn image_dims_for_ext(ext: &str, data: &[u8]) -> (out: Option<(u32, u32)>)
    ensures
        out == ext_decoded_dims(ext@, data@),
{
    let format = image::ImageFormat::from_extension(ext)?;
    image::ImageReader::with_format(std::io::Cursor::new(data), format).into_dimensions().ok()
}

/// A single image shown as a document of one page.
pub struct ImageDocument {
    path: String,
    doc_title: String,
    img_width: u32,
    img_height: u32,
}

impl ImageDocument {
    /// Its file path.
    pub closed spec fn path_v(&self) -> Seq<char> {
        self.path@
    }

    /// Its title.
    pub closed spec fn title_v(&self) -> Seq<char> {
        self.doc_title@
    }

    /// Its pixel size.
    pub closed spec fn size_v(&self) -> (u32, u32) {
        (self.img_width, self.img_height)
    }

    /// The image file at `path` with contents `data`: decoded by the
    /// format its extension names, it gives its pixel size; the title is
    /// the file's stem, or `Untitled`.  `None` when the extension names no
    /// format or the image's header cannot be read.
    pub fn open_bytes(path: &str, data: &[u8]) -> (out: Option<ImageDocument>)
        ensures
            has_plain_stem(path@) ==> (out is Some <==> (ext_of(file_name_of(path@)) matches Some(e)
                && ext_decoded_dims(e, data@) is Some)),
            out matches Some(d) ==> {
                &&& d.path_v() == path@
                &&& exists|e: Seq<char>| ext_decoded_dims(e, data@) == Some(#[trigger] d.size_v())
                &&& has_plain_stem(path@) ==> ext_decoded_dims(ext_of(file_name_of(path@))->0, data@)
                    == Some(d.size_v())
                &&& has_plain_stem(path@) ==> d.title_v() == stem_of(file_name_of(path@))
            },
    {
        let dims = match extension(path) {
            Some(e) => image_dims_for_ext(e.as_str(), data),
            None => None,
        };
        match dims {
            None => None,
            Some((w, h)) => Some(
                ImageDocument {
                    path: String::from_str(path),
                    doc_title: title_or_untitled(file_stem(path)),
                    img_width: w,
                    img_height: h,
                },
            ),
        }
    }

    /// An image is one page.
    pub fn page_count(&self) -> (n: usize)
        ensures
            n == 1,
    {
        1
    }

    /// The pixel size of the image.
    pub fn size(&self) -> (s: (u32, u32))
        ensures
            s == self.size_v(),
    {
        (self.img_width, self.img_height)
    }
}

impl Document for ImageDocument {
    fn title(&self) -> (t: String)
        ensures
            t@ == self.title_v(),
    {
        self.doc_title.clone()
    }

    fn toc_entries(&self) -> (out: Vec<TocEntry>)
        ensures
            out@.len() == 0,
    {
        Vec::new()
    }

    fn metadata(&self, key: &str) -> (out: Option<String>)
        ensures
            out is None,
    {
        None
    }
}

/// A recently opened file, and whether it is pinned.
pub struct RecentFile {
    pub path: String,
    pub pinned: bool,
}

/// Recent files as plain values: path and pin.
pub open spec fn recents_v(v: Seq<RecentFile>) -> Seq<(Seq<char>, bool)> {
    v.map_values(|f: RecentFile| (f.path@, f.pinned))
}

/// Whether the first entry for `path` is pinned (`false` without one).
pub open spec fn pinned_entry(l: Seq<(Seq<char>, bool)>, path: Seq<char>) -> bool
    decreases l.len(),
{
    if l.len() == 0 {
        false
    } else if l[0].0 == path {
        l[0].1
    } else {
        pinned_entry(l.drop_first(), path)
    }
}

/// The entries for other paths than `path`, in order.
pub open spec fn without_path(l: Seq<(Seq<char>, bool)>, path: Seq<char>) -> Seq<(Seq<char>, bool)>
    decreases l.len(),
{
    if l.len() == 0 {
        Seq::empty()
    } else if l[0].0 == path {
        without_path(l.drop_first(), path)
    } else {
        seq![l[0]] + without_path(l.drop_first(), path)
    }
}

/// The number of pinned entries.
pub open spec fn pinned_count(l: Seq<(Seq<char>, bool)>) -> nat
    decreases l.len(),
{
    if l.len() == 0 {
        0
    } else {
        pinned_count(l.drop_first()) + if l[0].1 {
            1nat
        } else {
            0nat
        }
    }
}

/// The entries kept: every pinned one, and the first `budget` unpinned.
pub open spec fn keep_recent(l: Seq<(Seq<char>, bool)>, budget: int) -> Seq<(Seq<char>, bool)>
    decreases l.len(),
{
    if l.len() == 0 {
        Seq::empty()
    } else if l[0].1 {
        seq![l[0]] + keep_recent(l.drop_first(), budget)
    } else if budget > 0 {
        seq![l[0]] + keep_recent(l.drop_first(), budget - 1)
    } else {
        keep_recent(l.drop_first(), budget)
    }
}

/// The most recent files the list keeps, pinned ones aside.
pub open spec fn max_recent() -> int {
    10
}

/// The list after opening `path`: its entry moves to the front, keeping
/// its pin, and of the unpinned entries only as many as leave room for 10
/// files with the pinned ones (none when 10 or more are pinned) stay.
pub open spec fn touched(l: Seq<(Seq<char>, bool)>, path: Seq<char>) -> Seq<(Seq<char>, bool)> {
    let front = seq![(path, pinned_entry(l, path))] + without_path(l, path);
    let pc = pinned_count(front) as int;
    keep_recent(front, if pc < max_recent() {
        max_recent() - pc
    } else {
        0
    })
}

/// Records that `path` was opened: see `touched`.
pub fn touch_recent(list: &mut Vec<RecentFile>, path: &str)
    ensures
        recents_v(final(list)@) == touched(recents_v(old(list)@), path@),
{
    let ghost l = recents_v(list@);
    // the pin of the first entry for `path`, and the others in order
    let mut was_pinned = false;
    let mut found = false;
    let mut rest: Vec<RecentFile> = Vec::new();
    let mut i: usize = 0;
    assert(l.skip(0) =~= l);
    assert(recents_v(rest@) + without_path(l, path@) =~= without_path(l, path@));
    while i < list.len()
        invariant
            i <= list@.len(),
            l == recents_v(list@),
            !found ==> !was_pinned,
            pinned_entry(l, path@) == if found {
                was_pinned
            } else {
                pinned_entry(l.skip(i as int), path@)
            },
            without_path(l, path@) == recents_v(rest@) + without_path(l.skip(i as int), path@),
        decreases list@.len() - i,
    {
        let ghost sk = l.skip(i as int);
        assert(sk.drop_first() =~= l.skip(i + 1));
        assert(sk[0] == (list@[i as int].path@, list@[i as int].pinned));
        if str_eq(list[i].path.as_str(), path) {
            if !found {
                found = true;
                was_pinned = list[i].pinned;
            }
        } else {
            let ghost before = recents_v(rest@);
            rest.push(RecentFile { path: list[i].path.clone(), pinned: list[i].pinned });
            assert(recents_v(rest@) =~= before + seq![sk[0]]);
            assert(seq![sk[0]] + without_path(l.skip(i + 1), path@) == without_path(sk, path@));
            assert(before + seq![sk[0]] + without_path(l.skip(i + 1), path@) =~= before + (seq![sk[0]]
                + without_path(l.skip(i + 1), path@)));
        }
        i += 1;
    }
    assert(l.skip(i as int) =~= Seq::<(Seq<char>, bool)>::empty());
    assert(pinned_entry(Seq::<(Seq<char>, bool)>::empty(), path@) == false);
    assert(without_path(Seq::<(Seq<char>, bool)>::empty(), path@) == Seq::<(Seq<char>, bool)>::empty());
    assert(recents_v(rest@) + Seq::<(Seq<char>, bool)>::empty() =~= recents_v(rest@));
    assert(was_pinned == pinned_entry(l, path@));
    assert(recents_v(rest@) == without_path(l, path@));
    // the opened file first, then the others
    let mut front: Vec<RecentFile> = Vec::new();
    front.push(RecentFile { path: String::from_str(path), pinned: was_pinned });
    assert(recents_v(front@) =~= seq![(path@, was_pinned)] + recents_v(rest@).take(0));
    let mut k: usize = 0;
    while k < rest.len()
        invariant
            k <= rest@.len(),
            recents_v(front@) == seq![(path@, was_pinned)] + recents_v(rest@).take(k as int),
        decreases rest@.len() - k,
    {
        let ghost bf = recents_v(front@);
        let f = RecentFile { path: rest[k].path.clone(), pinned: rest[k].pinned };
        assert((f.path@, f.pinned) == recents_v(rest@)[k as int]);
        front.push(f);
        assert(recents_v(front@) =~= bf.push(recents_v(rest@)[k as int]));
        assert(recents_v(rest@).take(k + 1) =~= recents_v(rest@).take(k as int).push(recents_v(rest@)[k as int]));
        assert(recents_v(front@) =~= seq![(path@, was_pinned)] + recents_v(rest@).take(k + 1));
        k += 1;
    }
    assert(recents_v(rest@).take(k as int) =~= recents_v(rest@));
    let ghost fv = recents_v(front@);
    assert(fv == seq![(path@, pinned_entry(l, path@))] + without_path(l, path@));
    // count the pinned ones
    let mut pc: usize = 0;
    let mut j: usize = 0;
    assert(fv.skip(0) =~= fv);
    while j < front.len()
        invariant
            j <= front@.len(),
            fv == recents_v(front@),
            pc as int + pinned_count(fv.skip(j as int)) == pinned_count(fv),
            pc <= j,
        decreases front@.len() - j,
    {
        assert(fv.skip(j as int).drop_first() =~= fv.skip(j + 1));
        if front[j].pinned {
            pc += 1;
        }
        j += 1;
    }
    assert(fv.skip(j as int) =~= Seq::<(Seq<char>, bool)>::empty());
    let mut budget: usize = if pc < 10 {
        10 - pc
    } else {
        0
    };
    // keep the pinned ones and the first unpinned ones
    let mut out: Vec<RecentFile> = Vec::new();
    let mut m: usize = 0;
    assert(fv.skip(0) =~= fv);
    while m < front.len()
        invariant
            m <= front@.len(),
            fv == recents_v(front@),
            recents_v(out@) + keep_recent(fv.skip(m as int), budget as int) == touched(l, path@),
        decreases front@.len() - m,
    {
        let ghost sk = fv.skip(m as int);
        assert(sk.drop_first() =~= fv.skip(m + 1));
        assert(sk[0] == (front@[m as int].path@, front@[m as int].pinned));
        let ghost before = recents_v(out@);
        if front[m].pinned || budget > 0 {
            if !front[m].pinned {
                budget -= 1;
            }
            out.push(RecentFile { path: front[m].path.clone(), pinned: front[m].pinned });
            assert(recents_v(out@) =~= before + seq![sk[0]]);
            assert(before + seq![sk[0]] + keep_recent(fv.skip(m + 1), budget as int) =~= before + (seq![sk[0]]
                + keep_recent(fv.skip(m + 1), budget as int)));
        }
        m += 1;
    }
    assert(fv.skip(m as int) =~= Seq::<(Seq<char>, bool)>::empty());
    assert(recents_v(out@) =~= recents_v(out@) + Seq::<(Seq<char>, bool)>::empty());
    *list = out;
}

/// The recent files of a configuration that names none.
pub fn default_recent_files() -> (v: Vec<RecentFile>)
    ensures
        v@.len() == 0,
{
    Vec::new()
}

} // verus!
