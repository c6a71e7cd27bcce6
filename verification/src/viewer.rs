//! Moving through a document: the chapter viewer of reflowable documents,
//! page jumps, and the active tab of a simple tab strip.
use vstd::prelude::*;
use crate::reflow::{block_str, BlockV, ReflowDocument};
use crate::text::{chars_of, join_lines, lines, split_lines, string_from_chars};
use vstd::utf8::encode_utf8;
use vstd::arithmetic::div_mod::{lemma_fundamental_div_mod, lemma_fundamental_div_mod_converse};

verus! {

/// The text of chapter `idx` as the viewer shows it.
pub open spec fn chapter_text_v(d: ReflowDocument, idx: int) -> Seq<char> {
    join_lines(d.blocks_v(idx, false).map_values(|b: BlockV| block_str(b)))
}

/// A viewer of one reflowable document, a chapter at a time.
pub struct ReflowViewerState {
    document: Option<ReflowDocument>,
    current_chapter: usize,
}

impl ReflowViewerState {
    /// The document shown, if any.
    pub closed spec fn doc(&self) -> Option<ReflowDocument> {
        self.document
    }

    /// The chapter shown.
    pub closed spec fn chapter(&self) -> nat {
        self.current_chapter as nat
    }

    /// A document, when there is one, is well formed.
    pub closed spec fn wf(&self) -> bool {
        self.document matches Some(d) ==> d.wf()
    }

    /// A viewer with no document.
    pub fn new() -> (v: Self)
        ensures
            v.wf(),
            v.doc() is None,
            v.chapter() == 0,
    {
        ReflowViewerState { document: None, current_chapter: 0 }
    }

    /// Shows `doc` from its first chapter; returns that chapter's text.
    pub fn load(&mut self, doc: ReflowDocument) -> (text: String)
        requires
            doc.wf(),
        ensures
            final(self).wf(),
            final(self).doc() == Some(doc),
            final(self).chapter() == 0,
            text@ == chapter_text_v(doc, 0),
    {
        let text = doc.chapter_text(0);
        self.document = Some(doc);
        self.current_chapter = 0;
        text
    }

    /// Whether a document is shown.
    pub fn has_document(&self) -> (r: bool)
        ensures
            r == self.doc() is Some,
    {
        self.document.is_some()
    }

    /// The number of chapters; 0 without a document.
    pub fn chapter_count(&self) -> (n: usize)
        ensures
            n == match self.doc() {
                Some(d) => d.count_v(),
                None => 0,
            },
    {
        match &self.document {
            Some(d) => d.chapter_count(),
            None => 0,
        }
    }

    /// The chapter shown.
    pub fn current_chapter_index(&self) -> (i: usize)
        ensures
            i == self.chapter(),
    {
        self.current_chapter
    }

    /// The text of the chapter shown; empty without a document.
    pub fn current_text(&self) -> (t: String)
        requires
            self.wf(),
        ensures
            t@ == match self.doc() {
                Some(d) => chapter_text_v(d, self.chapter() as int),
                None => Seq::empty(),
            },
    {
        match &self.document {
            Some(d) => d.chapter_text(self.current_chapter),
            None => String::new(),
        }
    }

    /// The title to show: the contents label of the chapter shown when it
    /// has a non-empty one, else the document's title; empty without a
    /// document.
    pub fn current_title(&self) -> (t: String)
        ensures
            t@ == match self.doc() {
                Some(d) => if self.chapter() < d.count_v() && self.chapter() < d.toc_v().len()
                    && d.toc_v()[self.chapter() as int].0.len() > 0 {
                    d.toc_v()[self.chapter() as int].0
                } else {
                    d.title_v()
                },
                None => Seq::empty(),
            },
    {
        match &self.document {
            Some(d) => {
                let n = d.chapter_count();
                if self.current_chapter < n {
                    let toc = d.toc_entries();
                    if self.current_chapter < toc.len() && !toc[self.current_chapter].label.as_str().is_empty() {
                        assert(toc@[self.current_chapter as int]@ == d.toc_v()[self.current_chapter as int]);
                        return toc[self.current_chapter].label.clone();
                    }
                    proof {
                        if self.current_chapter < toc@.len() {
                            assert(toc@[self.current_chapter as int]@ == d.toc_v()[self.current_chapter as int]);
                        }
                    }
                }
                d.title()
            },
            None => String::new(),
        }
    }

    /// Shows chapter `idx` when the document has it.
    pub fn go_to_chapter(&mut self, idx: usize)
        ensures
            final(self).doc() == old(self).doc(),
            final(self).wf() == old(self).wf(),
            final(self).chapter() == match old(self).doc() {
                Some(d) => if idx < d.count_v() {
                    idx as nat
                } else {
                    old(self).chapter()
                },
                None => old(self).chapter(),
            },
    {
        let n = self.chapter_count();
        if self.document.is_some() && idx < n {
            self.current_chapter = idx;
        }
    }

    /// Shows the chapter before, if any.
    pub fn prev_chapter(&mut self)
        ensures
            final(self).doc() == old(self).doc(),
            final(self).wf() == old(self).wf(),
            final(self).chapter() == if old(self).chapter() > 0 && old(self).doc() is Some
                && old(self).chapter() - 1 < old(self).doc()->0.count_v() {
                (old(self).chapter() - 1) as nat
            } else {
                old(self).chapter()
            },
    {
        if self.current_chapter > 0 {
            self.go_to_chapter(self.current_chapter - 1);
        }
    }

    /// Shows the chapter after, if any.
    pub fn next_chapter(&mut self)
        ensures
            final(self).doc() == old(self).doc(),
            final(self).wf() == old(self).wf(),
            final(self).chapter() == match old(self).doc() {
                Some(d) => if old(self).chapter() + 1 < d.count_v() {
                    (old(self).chapter() + 1) as nat
                } else {
                    old(self).chapter()
                },
                None => old(self).chapter(),
            },
    {
        let max = self.chapter_count();
        if self.current_chapter < max && max - self.current_chapter > 1 {
            self.go_to_chapter(self.current_chapter + 1);
        }
    }
}

/// Pages a tab can show: none without a document, the page count of a
/// document of fixed pages, one for a reflowable document (shown as one
/// stream).
pub fn page_count_for(has_document: bool, fixed_pages: Option<usize>) -> (n: usize)
    ensures
        n == if !has_document {
            0
        } else {
            match fixed_pages {
                Some(p) => p as int,
                None => 1,
            }
        },
{
    if !has_document {
        0
    } else {
        match fixed_pages {
            Some(p) => p,
            None => 1,
        }
    }
}

/// The page a jump to `target` lands on: the target, at most the last page
/// (page 0 of a document without pages).
pub fn jump_target(target: usize, page_count: usize) -> (p: usize)
    ensures
        p == if page_count == 0 {
            0
        } else if target < page_count {
            target as int
        } else {
            page_count - 1
        },
{
    let max = if page_count > 0 {
        page_count - 1
    } else {
        0
    };
    if target < max {
        target
    } else {
        max
    }
}

/// The position saved as reading progress: none while a jump is still
/// pending; else the page of a document of fixed pages, the line at the
/// top of a reflowable one.
pub fn progress_position(jump_pending: bool, is_fixed: bool, page: usize, current_line: usize) -> (p: Option<
    usize,
>)
    ensures
        jump_pending ==> p is None,
        !jump_pending && is_fixed ==> p == Some(page),
        !jump_pending && !is_fixed ==> p == Some(current_line),
{
    if jump_pending {
        None
    } else if is_fixed {
        Some(page)
    } else {
        Some(current_line)
    }
}

/// The active tab of a tab strip after tab `idx` of `len` closes while
/// `active` was active: it moves back one when at or after the closed tab
/// (but not before the first), and stays on the last tab; 0 once no tab is
/// left.
pub open spec fn strip_active_after_close(len: int, active: int, idx: int) -> int {
    if len - 1 == 0 {
        0
    } else {
        let a = if active >= idx && active > 0 {
            active - 1
        } else {
            active
        };
        if a >= len - 1 {
            len - 2
        } else {
            a
        }
    }
}

/// The active index after closing tab `idx` of a strip of `len` tabs.
pub fn strip_close_index(len: usize, active: usize, idx: usize) -> (a: usize)
    requires
        idx < len,
    ensures
        a == strip_active_after_close(len as int, active as int, idx as int),
        len > 1 ==> a < len - 1,
{
    let n = len - 1;
    if n == 0 {
        return 0;
    }
    let mut a = active;
    if a >= idx && a > 0 {
        a = a - 1;
    }
    if a >= n {
        a = n - 1;
    }
    a
}

/// The bytes the first `n` lines take in the text, each with the newline
/// after it.
pub open spec fn line_bytes(ls: Seq<Seq<char>>, n: int) -> int
    decreases n,
{
    if n <= 0 {
        0
    } else {
        line_bytes(ls, n - 1) + encode_utf8(ls[n - 1]).len() + 1
    }
}

/// The byte offset in `text` of byte `index` of line `line`; past the last
/// line, the bytes of all lines.
pub open spec fn full_offset_v(text: Seq<char>, line: int, index: int) -> int {
    let ls = lines(text);
    if line < ls.len() {
        line_bytes(ls, line) + index
    } else {
        line_bytes(ls, ls.len() as int)
    }
}

proof fn lemma_line_bytes_mono(ls: Seq<Seq<char>>, a: int, b: int)
    requires
        0 <= a <= b,
    ensures
        line_bytes(ls, a) <= line_bytes(ls, b),
    decreases b - a,
{
    if a < b {
        lemma_line_bytes_mono(ls, a, b - 1);
    }
}

/// The offset in a text's bytes of a position given as line and byte index
/// within the line (lines end at newlines).
pub fn full_offset(text: &str, line: usize, index: usize) -> (off: usize)
    requires
        full_offset_v(text@, line as int, index as int) <= usize::MAX,
    ensures
        off == full_offset_v(text@, line as int, index as int),
{
    let ls = split_lines(chars_of(text).as_slice());
    let ghost lv = lines(text@);
    assert(ls@.map_values(|l: Vec<char>| l@) == lv);
    let ghost goal = full_offset_v(text@, line as int, index as int);
    let mut off: usize = 0;
    let mut i: usize = 0;
    while i < ls.len()
        invariant
            i <= ls@.len(),
            ls@.len() == lv.len(),
            forall|k: int| 0 <= k < ls@.len() ==> (#[trigger] ls@[k])@ == lv[k],
            off == line_bytes(lv, i as int),
            goal == full_offset_v(text@, line as int, index as int),
            lv == lines(text@),
            goal <= usize::MAX,
            i <= line,
        decreases ls@.len() - i,
    {
        if i == line {
            return off + index;
        }
        proof {
            lemma_line_bytes_mono(lv, i + 1, if (line as int) < lv.len() { line as int } else { lv.len() as int });
        }
        let l = string_from_chars(ls[i].as_slice());
        let b = l.as_str().len();
        assert(l@ == lv[i as int]);
        off = off + b + 1;
        i += 1;
    }
    off
}

/// The lines to show of a chapter: those of its text, or a single
/// `(empty)` where it has none.
pub open spec fn shown_lines(text: Seq<char>) -> Seq<Seq<char>> {
    if lines(text).len() == 0 {
        seq!["(empty)"@]
    } else {
        lines(text)
    }
}

/// The lines of chapter `idx` of `doc`, as a line-by-line view shows them.
pub fn load_chapter_texts(doc: &ReflowDocument, idx: usize) -> (out: Vec<String>)
    requires
        doc.wf(),
    ensures
        out@.map_values(|s: String| s@) == shown_lines(chapter_text_v(*doc, idx as int)),
{
    let text = doc.chapter_text(idx);
    let cs = chars_of(text.as_str());
    let ls = split_lines(cs.as_slice());
    let ghost want = lines(cs@);
    let mut out: Vec<String> = Vec::new();
    let mut i: usize = 0;
    while i < ls.len()
        invariant
            i <= ls@.len(),
            ls@.map_values(|l: Vec<char>| l@) == want,
            out@.len() == i,
            forall|k: int| 0 <= k < i ==> (#[trigger] out@[k])@ == want[k],
        decreases ls@.len() - i,
    {
        out.push(string_from_chars(ls[i].as_slice()));
        proof {
            assert(want[i as int] == ls@[i as int]@);
        }
        i += 1;
    }
    if out.len() == 0 {
        let e = String::from_str("(empty)");
        proof {
            reveal_strlit("(empty)");
        }
        out.push(e);
        assert(out@.map_values(|s: String| s@) =~= shown_lines(chapter_text_v(*doc, idx as int)));
    } else {
        assert(out@.map_values(|s: String| s@) =~= shown_lines(chapter_text_v(*doc, idx as int)));
    }
    out
}

/// The page shown of a document of fixed pages, and the words selected on
/// it (as indices into the page's words).
pub struct PageView {
    current_page: usize,
    selection_start: Option<usize>,
    selection_end: Option<usize>,
}

/// The selected run of words, first to last, when both ends are set.
pub open spec fn selection_of(start: Option<usize>, end: Option<usize>) -> Option<(usize, usize)> {
    match (start, end) {
        (Some(s), Some(e)) => Some(if s <= e {
            (s, e)
        } else {
            (e, s)
        }),
        _ => None,
    }
}

/// Words `start..=end` joined by single spaces.
pub open spec fn joined_words(words: Seq<Seq<char>>, start: int, end: int) -> Seq<char>
    decreases end - start,
{
    if end < start {
        Seq::empty()
    } else if end == start {
        words[start]
    } else {
        joined_words(words, start, end - 1) + seq![' '] + words[end]
    }
}

impl PageView {
    /// The page shown.
    pub closed spec fn page(&self) -> nat {
        self.current_page as nat
    }

    /// The selected run of words, if any.
    pub closed spec fn selection(&self) -> Option<(usize, usize)> {
        selection_of(self.selection_start, self.selection_end)
    }

    /// The first page, nothing selected.
    pub fn new() -> (v: Self)
        ensures
            v.page() == 0,
            v.selection() is None,
    {
        PageView { current_page: 0, selection_start: None, selection_end: None }
    }

    /// The page shown.
    pub fn current_page_index(&self) -> (p: usize)
        ensures
            p == self.page(),
    {
        self.current_page
    }

    /// Shows page `idx` of a document of `page_count` pages when it has
    /// that page, clearing the selection.
    pub fn go_to_page(&mut self, idx: usize, page_count: usize)
        ensures
            idx < page_count ==> final(self).page() == idx && final(self).selection() is None,
            idx >= page_count ==> *final(self) == *old(self),
    {
        if idx < page_count {
            self.current_page = idx;
            self.selection_start = None;
            self.selection_end = None;
        }
    }

    /// Shows the page before, if any.
    pub fn prev_page(&mut self, page_count: usize)
        ensures
            old(self).page() > 0 && old(self).page() - 1 < page_count ==> final(self).page() == old(self).page()
                - 1 && final(self).selection() is None,
            !(old(self).page() > 0 && old(self).page() - 1 < page_count) ==> *final(self) == *old(self),
    {
        if self.current_page > 0 {
            self.go_to_page(self.current_page - 1, page_count);
        }
    }

    /// Shows the page after, if any.
    pub fn next_page(&mut self, page_count: usize)
        ensures
            old(self).page() + 1 < page_count ==> final(self).page() == old(self).page() + 1
                && final(self).selection() is None,
            old(self).page() + 1 >= page_count ==> *final(self) == *old(self),
    {
        if self.current_page < page_count && page_count - self.current_page > 1 {
            self.go_to_page(self.current_page + 1, page_count);
        }
    }

    /// A click selects the word it hit, or clears the selection.
    pub fn select_hit(&mut self, hit: Option<usize>)
        ensures
            final(self).page() == old(self).page(),
            final(self).selection() == match hit {
                Some(i) => Some((i, i)),
                None => None,
            },
    {
        self.selection_start = hit;
        self.selection_end = hit;
    }

    /// The selected run of words, first to last.
    pub fn selection_range(&self) -> (r: Option<(usize, usize)>)
        ensures
            r == self.selection(),
    {
        match (self.selection_start, self.selection_end) {
            (Some(s), Some(e)) => {
                if s <= e {
                    Some((s, e))
                } else {
                    Some((e, s))
                }
            },
            _ => None,
        }
    }

    /// Whether words are selected.
    pub fn has_selection(&self) -> (b: bool)
        ensures
            b == self.selection() is Some,
    {
        self.selection_range().is_some()
    }

    /// The selected words of the page, joined by spaces; empty without a
    /// selection.
    pub fn selected_text(&self, words: &Vec<String>) -> (t: String)
        requires
            self.selection() matches Some(r) ==> r.1 < words@.len(),
        ensures
            t@ == match self.selection() {
                Some(r) => joined_words(words@.map_values(|w: String| w@), r.0 as int, r.1 as int),
                None => Seq::empty(),
            },
    {
        match self.selection_range() {
            None => String::new(),
            Some((start, end)) => {
                let ghost wv = words@.map_values(|w: String| w@);
                let mut v: Vec<char> = chars_of(words[start].as_str());
                let mut k: usize = start;
                while k < end
                    invariant
                        start <= k <= end,
                        end < words@.len(),
                        wv == words@.map_values(|w: String| w@),
                        v@ == joined_words(wv, start as int, k as int),
                    decreases end - k,
                {
                    k += 1;
                    v.push(' ');
                    let w = chars_of(words[k].as_str());
                    let mut j: usize = 0;
                    let ghost base = v@;
                    while j < w.len()
                        invariant
                            j <= w@.len(),
                            v@ == base + w@.take(j as int),
                        decreases w@.len() - j,
                    {
                        v.push(w[j]);
                        assert(w@.take(j + 1) =~= w@.take(j as int).push(w@[j as int]));
                        j += 1;
                    }
                    assert(w@.take(w@.len() as int) =~= w@);
                    assert(v@ =~= joined_words(wv, start as int, k as int));
                }
                string_from_chars(v.as_slice())
            },
        }
    }
}

/// Byte `i` of an RGBA buffer `len` bytes long, rows `width` pixels wide,
/// belongs to a whole pixel inside columns `x0..x1` and rows `y0..y1`.
pub open spec fn in_region(len: int, width: int, x0: int, y0: int, x1: int, y1: int, i: int) -> bool {
    let p = i / 4;
    &&& width > 0
    &&& 0 <= i < len
    &&& 4 * p + 3 < len
    &&& x0 <= p % width < x1
    &&& y0 <= p / width < y1
}

/// A highlighted channel: red up by 60, green and blue down by 80, each
/// held within a byte; alpha as it was.
pub open spec fn tint_byte(b: u8, channel: int) -> u8 {
    if channel == 0 {
        if b + 60 <= 255 {
            (b + 60) as u8
        } else {
            255
        }
    } else if channel < 3 {
        if b >= 80 {
            (b - 80) as u8
        } else {
            0
        }
    } else {
        b
    }
}

/// The buffer with the region's pixels highlighted.
pub open spec fn tinted(old: Seq<u8>, width: int, x0: int, y0: int, x1: int, y1: int) -> Seq<u8> {
    Seq::new(
        old.len(),
        |i: int|
            if in_region(old.len() as int, width, x0, y0, x1, y1, i) {
                tint_byte(old[i], i % 4)
            } else {
                old[i]
            },
    )
}

proof fn lemma_pixel_bytes(p: int, c: int)
    requires
        p >= 0,
        0 <= c < 4,
    ensures
        (4 * p + c) / 4 == p,
        (4 * p + c) % 4 == c,
{
    lemma_fundamental_div_mod_converse(4 * p + c, 4, p, c);
}

proof fn lemma_pixel_of(p: int, w: int, y: int, x: int)
    requires
        w > 0,
        p >= 0,
        p / w == y,
        p % w == x,
    ensures
        p == y * w + x,
{
    lemma_fundamental_div_mod(p, w);
    assert(w * (p / w) == y * w) by (nonlinear_arith)
        requires
            p / w == y,
    ;
}

/// Highlights the pixels of columns `x0..x1` and rows `y0..y1` of an RGBA
/// buffer with rows `width` pixels wide; pixels past the buffer's end are
/// left out.
pub fn tint_region(rgba: &mut Vec<u8>, width: u32, x0: u32, y0: u32, x1: u32, y1: u32)
    requires
        x1 <= width,
        x0 < x1 && y0 < y1 ==> ((y1 - 1) * width + (x1 - 1)) * 4 <= u32::MAX,
    ensures
        final(rgba)@ == tinted(old(rgba)@, width as int, x0 as int, y0 as int, x1 as int, y1 as int),
{
    let ghost orig = rgba@;
    let ghost len = orig.len() as int;
    let ghost w = width as int;
    if !(x0 < x1 && y0 < y1) {
        assert(rgba@ =~= tinted(orig, w, x0 as int, y0 as int, x1 as int, y1 as int));
        return;
    }
    let mut y: u32 = y0;
    while y < y1
        invariant
            y0 <= y <= y1,
            x0 < x1 <= width,
            ((y1 - 1) * width + (x1 - 1)) * 4 <= u32::MAX,
            rgba@.len() == len,
            orig.len() == len,
            w == width,
            forall|i: int|
                0 <= i < len ==> #[trigger] rgba@[i] == if in_region(len, w, x0 as int, y0 as int, x1 as int, y1 as int, i)
                    && (i / 4) / w < y {
                    tint_byte(orig[i], i % 4)
                } else {
                    orig[i]
                },
        decreases y1 - y,
    {
        let mut x: u32 = x0;
        while x < x1
            invariant
                y0 <= y < y1,
                x0 <= x <= x1,
                x1 <= width,
                ((y1 - 1) * width + (x1 - 1)) * 4 <= u32::MAX,
                rgba@.len() == len,
                orig.len() == len,
                w == width,
                forall|i: int|
                    0 <= i < len ==> #[trigger] rgba@[i] == if in_region(len, w, x0 as int, y0 as int, x1 as int, y1 as int, i)
                        && ((i / 4) / w < y || ((i / 4) / w == y && (i / 4) % w < x)) {
                        tint_byte(orig[i], i % 4)
                    } else {
                        orig[i]
                    },
            decreases x1 - x,
        {
            assert((y as int) * w + x <= (y1 - 1) * w + (x1 - 1)) by (nonlinear_arith)
                requires
                    y < y1,
                    x < x1,
                    w >= 0,
            ;
            let p = y * width + x;
            let idx = (p * 4) as usize;
            let ghost pi = p as int;
            proof {
                lemma_fundamental_div_mod_converse(pi, w, y as int, x as int);
            }
            if idx < rgba.len() && rgba.len() - idx > 3 {
                let ghost before = rgba@;
                let r = rgba[idx];
                let g = rgba[idx + 1];
                let b = rgba[idx + 2];
                rgba.set(idx, r.saturating_add(60));
                rgba.set(idx + 1, g.saturating_sub(80));
                rgba.set(idx + 2, b.saturating_sub(80));
                proof {
                    lemma_pixel_bytes(pi, 0);
                    lemma_pixel_bytes(pi, 1);
                    lemma_pixel_bytes(pi, 2);
                    lemma_pixel_bytes(pi, 3);
                    assert forall|i: int|
                        0 <= i < len implies #[trigger] rgba@[i] == if in_region(len, w, x0 as int, y0 as int, x1 as int, y1 as int, i)
                            && ((i / 4) / w < y || ((i / 4) / w == y && (i / 4) % w < x + 1)) {
                            tint_byte(orig[i], i % 4)
                        } else {
                            orig[i]
                        } by {
                        if 4 * pi <= i < 4 * pi + 4 {
                            lemma_pixel_bytes(pi, i - 4 * pi);
                            assert(i / 4 == pi);
                            assert(in_region(len, w, x0 as int, y0 as int, x1 as int, y1 as int, i));
                            assert(before[i] == orig[i]);
                        } else {
                            assert(rgba@[i] == before[i]);
                            lemma_fundamental_div_mod(i, 4);
                            assert(i / 4 != pi);
                            if (i / 4) / w == y && (i / 4) % w == x {
                                lemma_pixel_of(i / 4, w, y as int, x as int);
                            }
                        }
                    }
                }
            } else {
                proof {
                    lemma_pixel_bytes(pi, 0);
                    assert forall|i: int|
                        0 <= i < len implies #[trigger] rgba@[i] == if in_region(len, w, x0 as int, y0 as int, x1 as int, y1 as int, i)
                            && ((i / 4) / w < y || ((i / 4) / w == y && (i / 4) % w < x + 1)) {
                            tint_byte(orig[i], i % 4)
                        } else {
                            orig[i]
                        } by {
                        if i / 4 == pi {
                            assert(4 * pi + 3 >= len);
                        } else if (i / 4) / w == y && (i / 4) % w == x {
                            lemma_pixel_of(i / 4, w, y as int, x as int);
                        }
                    }
                }
            }
            x += 1;
        }
        proof {
            assert forall|i: int|
                0 <= i < len implies #[trigger] rgba@[i] == if in_region(len, w, x0 as int, y0 as int, x1 as int, y1 as int, i)
                    && (i / 4) / w < y + 1 {
                    tint_byte(orig[i], i % 4)
                } else {
                    orig[i]
                } by {
            }
        }
        y += 1;
    }
    assert(rgba@ =~= tinted(orig, w, x0 as int, y0 as int, x1 as int, y1 as int));
}

} // verus!
