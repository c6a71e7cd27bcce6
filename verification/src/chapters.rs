//! Splitting plain text into chapters: by heading lines, or, without any,
//! into parts at runs of blank lines; with a table of contents.
use vstd::prelude::*;
use crate::text::{
    chars_of, contains_char, copy_chars, is_whitespace, join_lines, join_range, lines, push_all,
    split_lines, string_from_chars, trim, trim_chars,
};
use crate::markdown::{first_from, lemma_first_from_is};

verus! {

/// A table-of-contents entry: a label and the chapter (or page) it leads to.
pub struct TocEntry {
    pub label: String,
    pub page_index: usize,
}

impl View for TocEntry {
    type V = (Seq<char>, int);

    open spec fn view(&self) -> (Seq<char>, int) {
        (self.label@, self.page_index as int)
    }
}

/// A chapter as (label, body) characters.
pub type ChapterV = (Seq<char>, Seq<char>);

pub open spec fn blank(l: Seq<char>) -> bool {
    trim(l).len() == 0
}

/// `t` without its leading `#` characters.
pub open spec fn strip_hashes(t: Seq<char>) -> Seq<char>
    decreases t.len(),
{
    if t.len() > 0 && t[0] == '#' {
        strip_hashes(t.drop_first())
    } else {
        t
    }
}

/// `t` begins with `p` up to ASCII case: `p` is lower-case ASCII, and a
/// character of `t` matches it or its upper-case letter.  (For the prefixes
/// used here this is what `to_lowercase().starts_with(p)` decides: no other
/// character lower-cases to one of their letters.)
pub open spec fn ci_prefix(t: Seq<char>, p: Seq<char>) -> bool {
    &&& p.len() <= t.len()
    &&& forall|k: int|
        0 <= k < p.len() ==> (t[k] as u32 == #[trigger] p[k] as u32 || ('a' <= p[k] && p[k] <= 'z'
            && (t[k] as u32) + 32 == p[k] as u32))
}

pub open spec fn chapter_space() -> Seq<char> {
    seq!['c', 'h', 'a', 'p', 't', 'e', 'r', ' ']
}

pub open spec fn chapter_colon() -> Seq<char> {
    seq!['c', 'h', 'a', 'p', 't', 'e', 'r', ':']
}

/// The chapter label of a line, if it is a heading: a Markdown `#` heading
/// (label: the text after the `#` run), a Chinese `第…章/回/节` line, or a
/// line that starts with `chapter ` or `chapter:` in any ASCII case.
pub open spec fn heading_label(l: Seq<char>) -> Option<Seq<char>> {
    let t = trim(l);
    if t.len() == 0 {
        None
    } else if t[0] == '#' && trim(strip_hashes(t)).len() > 0 {
        Some(trim(strip_hashes(t)))
    } else if t[0] == '第' && (t.contains('章') || t.contains('回') || t.contains('节')) {
        Some(t)
    } else if ci_prefix(t, chapter_space()) || ci_prefix(t, chapter_colon()) {
        Some(t)
    } else {
        None
    }
}

/// A line whose trimmed text starts with the word `chapter` in any ASCII
/// case, followed by a space or a colon (`Chapter 1`, `CHAPTER: One`), is a
/// heading labelled with that trimmed text.
pub proof fn lemma_chapter_lines_are_headings(l: Seq<char>)
    requires
        trim(l).len() >= 8,
        trim(l)[0] == 'c' || trim(l)[0] == 'C',
        trim(l)[1] == 'h' || trim(l)[1] == 'H',
        trim(l)[2] == 'a' || trim(l)[2] == 'A',
        trim(l)[3] == 'p' || trim(l)[3] == 'P',
        trim(l)[4] == 't' || trim(l)[4] == 'T',
        trim(l)[5] == 'e' || trim(l)[5] == 'E',
        trim(l)[6] == 'r' || trim(l)[6] == 'R',
        trim(l)[7] == ' ' || trim(l)[7] == ':',
    ensures
        heading_label(l) == Some(trim(l)),
{
    let t = trim(l);
    let p = if t[7] == ' ' {
        chapter_space()
    } else {
        chapter_colon()
    };
    assert forall|k: int| 0 <= k < p.len() implies (t[k] as u32 == #[trigger] p[k] as u32 || ('a' <= p[k] && p[k]
        <= 'z' && (t[k] as u32) + 32 == p[k] as u32)) by {
        if k == 0 {
            assert(p[0] == 'c');
        } else if k == 1 {
            assert(p[1] == 'h');
        } else if k == 2 {
            assert(p[2] == 'a');
        } else if k == 3 {
            assert(p[3] == 'p');
        } else if k == 4 {
            assert(p[4] == 't');
        } else if k == 5 {
            assert(p[5] == 'e');
        } else if k == 6 {
            assert(p[6] == 'r');
        } else {
            assert(p[7] == t[7]);
        }
    }
    assert(ci_prefix(t, p));
}

/// A line whose trimmed text starts with `第` and holds `章`, `回` or `节`
/// (`第一章 开始`) is a heading labelled with that trimmed text.
pub proof fn lemma_chinese_chapter_lines_are_headings(l: Seq<char>, k: int)
    requires
        trim(l).len() > 0,
        trim(l)[0] == '第',
        0 <= k < trim(l).len(),
        trim(l)[k] == '章' || trim(l)[k] == '回' || trim(l)[k] == '节',
    ensures
        heading_label(l) == Some(trim(l)),
{
    let t = trim(l);
    if t[k] == '章' {
        assert(t.contains('章'));
    } else if t[k] == '回' {
        assert(t.contains('回'));
    } else {
        assert(t.contains('节'));
    }
}

/// A Markdown heading line, `#` marks then the title, is a heading
/// labelled with the title: for a trimmed line made of one or more `#` and
/// then text `x` that does not start with `#` and is not blank, the label
/// is `x` trimmed.
pub proof fn lemma_hash_lines_are_headings(l: Seq<char>, n: int, x: Seq<char>)
    requires
        n >= 1,
        trim(l) == Seq::new(n as nat, |i: int| '#') + x,
        x.len() == 0 || x[0] != '#',
        trim(x).len() > 0,
    ensures
        heading_label(l) == Some(trim(x)),
{
    let t = trim(l);
    assert(t[0] == '#');
    lemma_strip_hashes(n, x);
}

proof fn lemma_strip_hashes(n: int, x: Seq<char>)
    requires
        n >= 0,
        x.len() == 0 || x[0] != '#',
    ensures
        strip_hashes(Seq::new(n as nat, |i: int| '#') + x) == x,
    decreases n,
{
    let t = Seq::new(n as nat, |i: int| '#') + x;
    if n > 0 {
        assert(t.drop_first() =~= Seq::new((n - 1) as nat, |i: int| '#') + x);
        lemma_strip_hashes(n - 1, x);
    } else {
        assert(t =~= x);
    }
}

/// The heading lines of `ls`, in order: (line index, label).
pub open spec fn headings(ls: Seq<Seq<char>>) -> Seq<(int, Seq<char>)>
    decreases ls.len(),
{
    if ls.len() == 0 {
        Seq::empty()
    } else {
        let r = headings(ls.drop_last());
        match heading_label(ls.last()) {
            Some(label) => r.push(((ls.len() - 1) as int, label)),
            None => r,
        }
    }
}

/// The trimmed text of lines `lo..hi`.
pub open spec fn block(ls: Seq<Seq<char>>, lo: int, hi: int) -> Seq<char> {
    trim(join_lines(ls.subrange(lo, hi)))
}

/// The sections of `ls` from line `prev` on, cut at headings `hs`: the
/// (non-empty) body before each heading, then the heading with an empty
/// body; finally the body after the last heading.
pub open spec fn sections(ls: Seq<Seq<char>>, hs: Seq<(int, Seq<char>)>, prev: int) -> Seq<
    ChapterV,
>
    decreases hs.len(),
{
    if hs.len() == 0 {
        if prev < ls.len() && block(ls, prev, ls.len() as int).len() > 0 {
            seq![(Seq::<char>::empty(), block(ls, prev, ls.len() as int))]
        } else {
            Seq::empty()
        }
    } else {
        let hi = hs[0].0;
        let pre = if hi > prev && block(ls, prev, hi).len() > 0 {
            seq![(Seq::<char>::empty(), block(ls, prev, hi))]
        } else {
            Seq::<ChapterV>::empty()
        };
        pre + seq![(hs[0].1, Seq::<char>::empty())] + sections(ls, hs.drop_first(), hi + 1)
    }
}

/// Cutting at `hs` reads only lines that exist (a heading index beyond the
/// text would be read past its end) and keeps indices below `usize::MAX`.
pub open spec fn sections_ok(len: int, hs: Seq<(int, Seq<char>)>, prev: int) -> bool
    decreases hs.len(),
{
    hs.len() == 0 || {
        &&& (hs[0].0 <= prev || hs[0].0 <= len)
        &&& 0 <= hs[0].0 < usize::MAX
        &&& sections_ok(len, hs.drop_first(), hs[0].0 + 1)
    }
}

/// Folds each body-only section into the heading-only section before it
/// (the body becomes `label \n body`); `docx` asks the earlier section to
/// have a label as well.
pub open spec fn merge(chs: Seq<ChapterV>, docx: bool) -> Seq<ChapterV>
    decreases chs.len(),
{
    if chs.len() == 0 {
        Seq::empty()
    } else {
        let m = merge(chs.drop_last(), docx);
        let (label, body) = chs.last();
        if label.len() > 0 {
            m.push((label, body))
        } else if m.len() > 0 && m.last().1.len() == 0 && (!docx || m.last().0.len() > 0) {
            m.update(m.len() - 1, (m.last().0, m.last().0 + seq!['\n'] + body))
        } else {
            m.push((Seq::<char>::empty(), body))
        }
    }
}

pub open spec fn has_body() -> spec_fn(ChapterV) -> bool {
    |c: ChapterV| c.1.len() > 0
}

/// Chapters of `ls` cut at headings `hs`, merged, without empty bodies.
pub open spec fn chapters_at(ls: Seq<Seq<char>>, hs: Seq<(int, Seq<char>)>) -> Seq<ChapterV> {
    merge(sections(ls, hs, 0), false).filter(has_body())
}

/// One entry per chapter: its label and its index.
pub open spec fn toc_all(chs: Seq<ChapterV>) -> Seq<(Seq<char>, int)> {
    Seq::new(chs.len(), |i: int| (chs[i].0, i))
}

/// The line indices `i` with lines `i` and `i + 1` blank and a line `i + 2`.
pub open spec fn breaks(ls: Seq<Seq<char>>) -> Seq<int> {
    let n = if ls.len() >= 2 {
        ls.len() - 2
    } else {
        0
    };
    Seq::new(n as nat, |i: int| i).filter(|i: int| blank(ls[i]) && blank(ls[i + 1]))
}

/// The first non-blank line at or after `from`.
pub open spec fn skip_blank(ls: Seq<Seq<char>>, from: int) -> int {
    first_from(ls.len() as int, from, non_blank(ls))
}

pub open spec fn non_blank(ls: Seq<Seq<char>>) -> spec_fn(int) -> bool {
    |k: int| !blank(ls[k])
}

/// The text between consecutive breaks (from line 0 to the first break,
/// then from one break to the next), and the text after the last break
/// from its first non-blank line on; each trimmed.
pub open spec fn break_chunks(ls: Seq<Seq<char>>, bs: Seq<int>) -> Seq<Seq<char>> {
    let tail_start = skip_blank(ls, bs.last());
    let tail = if tail_start < ls.len() {
        block(ls, tail_start, ls.len() as int)
    } else {
        Seq::<char>::empty()
    };
    Seq::new(
        bs.len(),
        |k: int|
            block(
                ls,
                if k == 0 {
                    0
                } else {
                    bs[k - 1]
                },
                bs[k],
            ),
    ).push(tail)
}

/// Decimal digits of `n`.
pub open spec fn decimal(n: nat) -> Seq<char>
    decreases n,
{
    if n < 10 {
        seq![digit(n)]
    } else {
        decimal(n / 10).push(digit(n % 10))
    }
}

pub open spec fn digit(d: nat) -> char {
    if d == 0 {
        '0'
    } else if d == 1 {
        '1'
    } else if d == 2 {
        '2'
    } else if d == 3 {
        '3'
    } else if d == 4 {
        '4'
    } else if d == 5 {
        '5'
    } else if d == 6 {
        '6'
    } else if d == 7 {
        '7'
    } else if d == 8 {
        '8'
    } else {
        '9'
    }
}

/// `Part n`.
pub open spec fn part_label(n: nat) -> Seq<char> {
    seq!['P', 'a', 'r', 't', ' '] + decimal(n)
}

pub open spec fn nonempty() -> spec_fn(Seq<char>) -> bool {
    |t: Seq<char>| t.len() > 0
}

/// Parts `Part 1`, `Part 2`, ... for the non-empty chunks.
pub open spec fn parts(ls: Seq<Seq<char>>, bs: Seq<int>) -> Seq<ChapterV> {
    let kept = break_chunks(ls, bs).filter(nonempty());
    Seq::new(kept.len(), |i: int| (part_label((i + 1) as nat), kept[i]))
}

/// The chapters of plain text `s`: cut at heading lines when there are
/// any; else into parts at pairs of blank lines; else the whole text.
pub open spec fn txt_chapters(s: Seq<char>) -> Seq<ChapterV> {
    let ls = lines(s);
    let hs = headings(ls);
    if hs.len() > 0 {
        chapters_at(ls, hs)
    } else if breaks(ls).len() > 0 {
        parts(ls, breaks(ls))
    } else {
        seq![(Seq::<char>::empty(), s)]
    }
}

/// The table of contents that goes with `txt_chapters(s)`.
pub open spec fn txt_toc(s: Seq<char>) -> Seq<(Seq<char>, int)> {
    let ls = lines(s);
    if headings(ls).len() == 0 && breaks(ls).len() == 0 {
        Seq::empty()
    } else {
        toc_all(txt_chapters(s))
    }
}

// ---------------------------------------------------------------- exec

pub fn decimal_chars(n: usize) -> (out: Vec<char>)
    ensures
        out@ == decimal(n as nat),
    decreases n,
{
    let d = n % 10;
    let c = if d == 0 {
        '0'
    } else if d == 1 {
        '1'
    } else if d == 2 {
        '2'
    } else if d == 3 {
        '3'
    } else if d == 4 {
        '4'
    } else if d == 5 {
        '5'
    } else if d == 6 {
        '6'
    } else if d == 7 {
        '7'
    } else if d == 8 {
        '8'
    } else {
        '9'
    };
    if n < 10 {
        let mut v: Vec<char> = Vec::new();
        v.push(c);
        v
    } else {
        let mut v = decimal_chars(n / 10);
        v.push(c);
        v
    }
}

fn strip_hashes_chars(t: &[char]) -> (out: Vec<char>)
    ensures
        out@ == strip_hashes(t@),
{
    let mut i: usize = 0;
    assert(t@.skip(0) =~= t@);
    while i < t.len() && t[i] == '#'
        invariant
            i <= t@.len(),
            strip_hashes(t@) == strip_hashes(t@.skip(i as int)),
        decreases t@.len() - i,
    {
        assert(t@.skip(i as int).drop_first() =~= t@.skip(i + 1));
        i += 1;
    }
    let mut out: Vec<char> = Vec::new();
    let mut k = i;
    while k < t.len()
        invariant
            i <= k <= t@.len(),
            out@ == t@.subrange(i as int, k as int),
        decreases t@.len() - k,
    {
        out.push(t[k]);
        assert(t@.subrange(i as int, k + 1) =~= t@.subrange(i as int, k as int).push(t@[k as int]));
        k += 1;
    }
    assert(t@.skip(i as int) =~= t@.subrange(i as int, t@.len() as int));
    out
}

/// Whether `t` begins with lower-case ASCII `p` up to ASCII case.
fn ci_starts_with(t: &[char], p: &[char]) -> (r: bool)
    ensures
        r == ci_prefix(t@, p@),
{
    if p.len() > t.len() {
        return false;
    }
    let mut k: usize = 0;
    while k < p.len()
        invariant
            k <= p@.len() <= t@.len(),
            forall|j: int|
                0 <= j < k ==> (t@[j] as u32 == #[trigger] p@[j] as u32 || ('a' <= p@[j] && p@[j]
                    <= 'z' && (t@[j] as u32) + 32 == p@[j] as u32)),
        decreases p@.len() - k,
    {
        let a = t[k] as u32;
        let b = p[k] as u32;
        if !(a == b || ('a' <= p[k] && p[k] <= 'z' && a == b - 32)) {
            return false;
        }
        k += 1;
    }
    true
}

/// The chapter label of line `l`, if it is a heading.
pub fn heading_label_of(l: &[char]) -> (out: Option<Vec<char>>)
    ensures
        match out {
            Some(v) => heading_label(l@) == Some(v@),
            None => heading_label(l@) is None,
        },
{
    let t = trim_chars(l);
    if t.len() == 0 {
        return None;
    }
    if t[0] == '#' {
        let h = strip_hashes_chars(t.as_slice());
        let label = trim_chars(h.as_slice());
        if label.len() > 0 {
            return Some(label);
        }
    }
    if t[0] == '第' && (contains_char(t.as_slice(), '章') || contains_char(t.as_slice(), '回')
        || contains_char(t.as_slice(), '节')) {
        return Some(t);
    }
    let cs: Vec<char> = vec!['c', 'h', 'a', 'p', 't', 'e', 'r', ' '];
    let cc: Vec<char> = vec!['c', 'h', 'a', 'p', 't', 'e', 'r', ':'];
    assert(cs@ =~= chapter_space());
    assert(cc@ =~= chapter_colon());
    if ci_starts_with(t.as_slice(), cs.as_slice()) || ci_starts_with(t.as_slice(), cc.as_slice()) {
        return Some(t);
    }
    None
}

pub open spec fn heads_view(v: Seq<(usize, Vec<char>)>) -> Seq<(int, Seq<char>)> {
    v.map_values(|h: (usize, Vec<char>)| (h.0 as int, h.1@))
}

pub open spec fn chs_view(v: Seq<(Vec<char>, Vec<char>)>) -> Seq<ChapterV> {
    v.map_values(|c: (Vec<char>, Vec<char>)| (c.0@, c.1@))
}

pub open spec fn lines_view(v: Seq<Vec<char>>) -> Seq<Seq<char>> {
    v.map_values(|l: Vec<char>| l@)
}

/// The heading lines of `ls`.
pub fn find_headings(ls: &Vec<Vec<char>>) -> (out: Vec<(usize, Vec<char>)>)
    ensures
        heads_view(out@) == headings(lines_view(ls@)),
        forall|k: int| 0 <= k < out@.len() ==> (#[trigger] out@[k]).0 < ls@.len(),
{
    let ghost lv = lines_view(ls@);
    let mut out: Vec<(usize, Vec<char>)> = Vec::new();
    let mut i: usize = 0;
    assert(lv.take(0) =~= Seq::<Seq<char>>::empty());
    while i < ls.len()
        invariant
            i <= ls@.len(),
            lv == lines_view(ls@),
            heads_view(out@) == headings(lv.take(i as int)),
            forall|k: int| 0 <= k < out@.len() ==> (#[trigger] out@[k]).0 < i,
        decreases ls@.len() - i,
    {
        let ghost pre = lv.take(i as int);
        assert(lv.take(i + 1).drop_last() =~= pre);
        assert(lv.take(i + 1).last() == ls@[i as int]@);
        let ghost before = out@;
        match heading_label_of(ls[i].as_slice()) {
            Some(label) => {
                out.push((i, label));
                assert(heads_view(out@) =~= heads_view(before).push((i as int, label@)));
            },
            None => {},
        }
        i += 1;
    }
    assert(lv.take(ls@.len() as int) =~= lv);
    out
}

/// Merges `chs` as `merge` says and drops chapters with empty bodies.
pub fn merge_chapters(chs: Vec<(Vec<char>, Vec<char>)>, docx: bool) -> (out: Vec<
    (Vec<char>, Vec<char>),
>)
    ensures
        chs_view(out@) == merge(chs_view(chs@), docx).filter(has_body()),
{
    let ghost cv = chs_view(chs@);
    let mut m: Vec<(Vec<char>, Vec<char>)> = Vec::new();
    let n = chs.len();
    let mut i: usize = 0;
    assert(cv.take(0) =~= Seq::<ChapterV>::empty());
    while i < n
        invariant
            i <= n,
            n == chs@.len(),
            cv == chs_view(chs@),
            chs_view(m@) == merge(cv.take(i as int), docx),
        decreases n - i,
    {
        let ghost pre = cv.take(i as int);
        assert(cv.take(i + 1).drop_last() =~= pre);
        assert(cv.take(i + 1).last() == cv[i as int]);
        let ghost before = m@;
        let label = copy_chars(chs[i].0.as_slice());
        let body = copy_chars(chs[i].1.as_slice());
        let ml = m.len();
        if label.len() > 0 {
            m.push((label, body));
            assert(chs_view(m@) =~= chs_view(before).push((label@, body@)));
        } else if ml > 0 && m[ml - 1].1.len() == 0 && (!docx || m[ml - 1].0.len() > 0) {
            let mut nb = copy_chars(m[ml - 1].0.as_slice());
            nb.push('\n');
            push_all(&mut nb, body.as_slice());
            let nl = copy_chars(m[ml - 1].0.as_slice());
            let ghost nlv = nl@;
            let ghost nbv = nb@;
            assert(nbv =~= before[ml - 1].0@ + seq!['\n'] + body@);
            m.set(ml - 1, (nl, nb));
            assert(m@[ml - 1].0@ == nlv);
            assert(m@[ml - 1].1@ == nbv);
            assert(chs_view(m@) =~= chs_view(before).update(
                ml - 1,
                (before[ml - 1].0@, before[ml - 1].0@ + seq!['\n'] + body@),
            ));
        } else {
            m.push((Vec::new(), body));
            assert(chs_view(m@) =~= chs_view(before).push((Seq::<char>::empty(), body@)));
        }
        i += 1;
    }
    assert(cv.take(n as int) =~= cv);
    let ghost mv = chs_view(m@);
    let mut out: Vec<(Vec<char>, Vec<char>)> = Vec::new();
    let mut k: usize = 0;
    assert(mv.take(0) =~= Seq::<ChapterV>::empty());
    while k < m.len()
        invariant
            k <= m@.len(),
            mv == chs_view(m@),
            chs_view(out@) == mv.take(k as int).filter(has_body()),
        decreases m@.len() - k,
    {
        proof {
            reveal(Seq::filter);
            assert(mv.take(k + 1).drop_last() =~= mv.take(k as int));
            assert(mv.take(k + 1).last() == mv[k as int]);
        }
        let ghost before = out@;
        if m[k].1.len() > 0 {
            let l = copy_chars(m[k].0.as_slice());
            let b = copy_chars(m[k].1.as_slice());
            out.push((l, b));
            assert(chs_view(out@) =~= chs_view(before).push(mv[k as int]));
        }
        k += 1;
    }
    assert(mv.take(m@.len() as int) =~= mv);
    out
}

proof fn lemma_sections_step(ls: Seq<Seq<char>>, hs: Seq<(int, Seq<char>)>, k: int, prev: int)
    requires
        0 <= k < hs.len(),
    ensures
        sections(ls, hs.skip(k), prev) == ({
            let hi = hs[k].0;
            let pre = if hi > prev && block(ls, prev, hi).len() > 0 {
                seq![(Seq::<char>::empty(), block(ls, prev, hi))]
            } else {
                Seq::<ChapterV>::empty()
            };
            pre + seq![(hs[k].1, Seq::<char>::empty())] + sections(ls, hs.skip(k + 1), hi + 1)
        }),
{
    assert(hs.skip(k).drop_first() =~= hs.skip(k + 1));
    assert(hs.skip(k)[0] == hs[k]);
}

proof fn lemma_sections_ok_step(len: int, hs: Seq<(int, Seq<char>)>, k: int, prev: int)
    requires
        0 <= k < hs.len(),
        sections_ok(len, hs.skip(k), prev),
    ensures
        hs[k].0 <= prev || hs[k].0 <= len,
        0 <= hs[k].0 < usize::MAX,
        sections_ok(len, hs.skip(k + 1), hs[k].0 + 1),
{
    assert(hs.skip(k).drop_first() =~= hs.skip(k + 1));
    assert(hs.skip(k)[0] == hs[k]);
}

/// Cuts lines `ls` at headings `hs` into sections (see `sections`).
pub fn cut_sections(ls: &Vec<Vec<char>>, hs: &Vec<(usize, Vec<char>)>) -> (out: Vec<
    (Vec<char>, Vec<char>),
>)
    requires
        sections_ok(ls@.len() as int, heads_view(hs@), 0),
    ensures
        chs_view(out@) == sections(lines_view(ls@), heads_view(hs@), 0),
{
    let ghost lv = lines_view(ls@);
    let ghost hv = heads_view(hs@);
    let mut out: Vec<(Vec<char>, Vec<char>)> = Vec::new();
    let mut prev: usize = 0;
    let mut k: usize = 0;
    assert(hv.skip(0) =~= hv);
    while k < hs.len()
        invariant
            k <= hs@.len(),
            lv == lines_view(ls@),
            hv == heads_view(hs@),
            hv.len() == hs@.len(),
            sections_ok(ls@.len() as int, hv.skip(k as int), prev as int),
            chs_view(out@) + sections(lv, hv.skip(k as int), prev as int) == sections(lv, hv, 0),
        decreases hs@.len() - k,
    {
        let hi = hs[k].0;
        proof {
            lemma_sections_step(lv, hv, k as int, prev as int);
            lemma_sections_ok_step(ls@.len() as int, hv, k as int, prev as int);
            assert(hv[k as int] == (hi as int, hs@[k as int].1@));
        }
        let ghost before = out@;
        let ghost pre = if hi > prev && block(lv, prev as int, hi as int).len() > 0 {
            seq![(Seq::<char>::empty(), block(lv, prev as int, hi as int))]
        } else {
            Seq::<ChapterV>::empty()
        };
        if hi > prev {
            let joined = join_range(ls, prev, hi);
            let body = trim_chars(joined.as_slice());
            if body.len() > 0 {
                out.push((Vec::new(), body));
                assert(chs_view(out@) =~= chs_view(before) + pre);
            } else {
                assert(chs_view(out@) =~= chs_view(before) + pre);
            }
        } else {
            assert(chs_view(out@) =~= chs_view(before) + pre);
        }
        let ghost mid = out@;
        let label = copy_chars(hs[k].1.as_slice());
        out.push((label, Vec::new()));
        assert(chs_view(out@) =~= chs_view(mid) + seq![(hv[k as int].1, Seq::<char>::empty())]);
        let ghost rest = sections(lv, hv.skip(k + 1), hi + 1);
        assert(chs_view(out@) + rest =~= chs_view(before) + (pre + seq![
            (hv[k as int].1, Seq::<char>::empty()),
        ] + rest));
        prev = hi + 1;
        k += 1;
    }
    let ghost before = out@;
    if prev < ls.len() {
        let joined = join_range(ls, prev, ls.len());
        let body = trim_chars(joined.as_slice());
        if body.len() > 0 {
            out.push((Vec::new(), body));
        }
    }
    assert(hv.skip(hs@.len() as int) =~= Seq::<(int, Seq<char>)>::empty());
    assert(chs_view(out@) =~= chs_view(before) + sections(lv, hv.skip(k as int), prev as int));
    out
}


fn is_blank(l: &[char]) -> (r: bool)
    ensures
        r == blank(l@),
{
    let t = trim_chars(l);
    t.len() == 0
}

pub open spec fn break_pred(ls: Seq<Seq<char>>) -> spec_fn(int) -> bool {
    |i: int| blank(ls[i]) && blank(ls[i + 1])
}

/// The indices of `breaks(ls)`.
pub fn find_breaks(ls: &Vec<Vec<char>>) -> (out: Vec<usize>)
    ensures
        out@.map_values(|b: usize| b as int) == breaks(lines_view(ls@)),
        forall|k: int| 0 <= k < out@.len() ==> #[trigger] out@[k] + 2 < ls@.len(),
        forall|a: int, b: int| 0 <= a < b < out@.len() ==> out@[a] < out@[b],
{
    let ghost lv = lines_view(ls@);
    let n: usize = if ls.len() >= 2 {
        ls.len() - 2
    } else {
        0
    };
    let ghost idx = Seq::new(n as nat, |i: int| i);
    assert(breaks(lv) == idx.filter(break_pred(lv)));
    let mut out: Vec<usize> = Vec::new();
    let mut i: usize = 0;
    assert(idx.take(0) =~= Seq::<int>::empty());
    while i < n
        invariant
            i <= n,
            n as int == if ls@.len() >= 2 {
                ls@.len() - 2
            } else {
                0
            },
            lv == lines_view(ls@),
            idx == Seq::new(n as nat, |i: int| i),
            out@.map_values(|b: usize| b as int) == idx.take(i as int).filter(break_pred(lv)),
            forall|k: int| 0 <= k < out@.len() ==> #[trigger] out@[k] < i,
            forall|a: int, b: int| 0 <= a < b < out@.len() ==> out@[a] < out@[b],
        decreases n - i,
    {
        proof {
            reveal(Seq::filter);
            assert(idx.take(i + 1).drop_last() =~= idx.take(i as int));
            assert(idx.take(i + 1).last() == i as int);
        }
        let ghost before = out@;
        if is_blank(ls[i].as_slice()) && is_blank(ls[i + 1].as_slice()) {
            out.push(i);
            assert(out@.map_values(|b: usize| b as int) =~= before.map_values(|b: usize| b as int).push(
                i as int,
            ));
        }
        i += 1;
    }
    assert(idx.take(n as int) =~= idx);
    out
}

/// The chunk texts of `break_chunks`.
fn chunks_at_breaks(ls: &Vec<Vec<char>>, bs: &Vec<usize>) -> (out: Vec<Vec<char>>)
    requires
        bs@.len() > 0,
        forall|k: int| 0 <= k < bs@.len() ==> #[trigger] bs@[k] + 2 < ls@.len(),
        forall|a: int, b: int| 0 <= a < b < bs@.len() ==> bs@[a] < bs@[b],
    ensures
        lines_view(out@) == break_chunks(lines_view(ls@), bs@.map_values(|b: usize| b as int)),
{
    let ghost lv = lines_view(ls@);
    let ghost bv = bs@.map_values(|b: usize| b as int);
    let ghost whole = break_chunks(lv, bv);
    let mut out: Vec<Vec<char>> = Vec::new();
    let mut prev: usize = 0;
    let mut k: usize = 0;
    while k < bs.len()
        invariant
            k <= bs@.len(),
            lv == lines_view(ls@),
            bv == bs@.map_values(|b: usize| b as int),
            whole == break_chunks(lv, bv),
            forall|j: int| 0 <= j < bs@.len() ==> #[trigger] bs@[j] + 2 < ls@.len(),
            forall|a: int, b: int| 0 <= a < b < bs@.len() ==> bs@[a] < bs@[b],
            out@.len() == k,
            prev as int == if k == 0 {
                0
            } else {
                bs@[k - 1] as int
            },
            prev <= ls@.len(),
            forall|j: int| 0 <= j < k ==> #[trigger] out@[j]@ == whole[j],
        decreases bs@.len() - k,
    {
        let b = bs[k];
        if k > 0 {
            assert(bs@[k - 1] < bs@[k as int]);
        }
        let joined = join_range(ls, prev, b);
        let chunk = trim_chars(joined.as_slice());
        assert(chunk@ == whole[k as int]);
        out.push(chunk);
        prev = b;
        k += 1;
    }
    let last = bs[bs.len() - 1];
    let mut p = last;
    while p < ls.len() && is_blank(ls[p].as_slice())
        invariant
            last <= p <= ls@.len(),
            lv == lines_view(ls@),
            forall|j: int| last <= j < p ==> !(#[trigger] non_blank(lv)(j)),
        decreases ls@.len() - p,
    {
        p += 1;
    }
    proof {
        lemma_first_from_is(lv.len() as int, last as int, p as int, non_blank(lv));
        assert(bv.last() == last as int);
    }
    if p < ls.len() {
        let joined = join_range(ls, p, ls.len());
        let chunk = trim_chars(joined.as_slice());
        out.push(chunk);
    } else {
        out.push(Vec::new());
    }
    assert(lines_view(out@) =~= whole);
    out
}

/// `Part n` as characters.
fn part_label_chars(n: usize) -> (out: Vec<char>)
    ensures
        out@ == part_label(n as nat),
{
    let mut v: Vec<char> = vec!['P', 'a', 'r', 't', ' '];
    let d = decimal_chars(n);
    push_all(&mut v, d.as_slice());
    assert(v@ =~= part_label(n as nat));
    v
}

/// Chapters `Part 1`, `Part 2`, ... for the non-empty chunks between breaks.
fn parts_of(ls: &Vec<Vec<char>>, bs: &Vec<usize>) -> (out: Vec<(Vec<char>, Vec<char>)>)
    requires
        bs@.len() > 0,
        forall|k: int| 0 <= k < bs@.len() ==> #[trigger] bs@[k] + 2 < ls@.len(),
        forall|a: int, b: int| 0 <= a < b < bs@.len() ==> bs@[a] < bs@[b],
    ensures
        chs_view(out@) == parts(lines_view(ls@), bs@.map_values(|b: usize| b as int)),
{
    let chunks = chunks_at_breaks(ls, bs);
    let ghost cv = lines_view(chunks@);
    let ghost kept = cv.filter(nonempty());
    let mut out: Vec<(Vec<char>, Vec<char>)> = Vec::new();
    let mut i: usize = 0;
    assert(cv.take(0) =~= Seq::<Seq<char>>::empty());
    while i < chunks.len()
        invariant
            i <= chunks@.len(),
            cv == lines_view(chunks@),
            out@.len() == cv.take(i as int).filter(nonempty()).len(),
            out@.len() <= i,
            forall|j: int|
                0 <= j < out@.len() ==> (#[trigger] out@[j]).0@ == part_label((j + 1) as nat)
                    && out@[j].1@ == cv.take(i as int).filter(nonempty())[j],
        decreases chunks@.len() - i,
    {
        proof {
            reveal(Seq::filter);
            assert(cv.take(i + 1).drop_last() =~= cv.take(i as int));
            assert(cv.take(i + 1).last() == cv[i as int]);
        }
        if chunks[i].len() > 0 {
            let n = out.len();
            let label = part_label_chars(n + 1);
            let body = copy_chars(chunks[i].as_slice());
            out.push((label, body));
        }
        i += 1;
    }
    assert(cv.take(chunks@.len() as int) =~= cv);
    assert(chs_view(out@) =~= parts(lines_view(ls@), bs@.map_values(|b: usize| b as int)));
    out
}

/// The chapters and contents of plain text `text` (see `txt_chapters`).
pub fn split_txt_chapters_chars(text: &[char]) -> (out: (Vec<(Vec<char>, Vec<char>)>, Vec<(Vec<char>, usize)>))
    ensures
        chs_view(out.0@) == txt_chapters(text@),
        out.1@.map_values(|t: (Vec<char>, usize)| (t.0@, t.1 as int)) == txt_toc(text@),
{
    let ls = split_lines(text);
    let hs = find_headings(&ls);
    let ghost lv = lines_view(ls@);
    assert(lv == lines(text@));
    let nls = ls.len();
    if hs.len() > 0 {
        proof {
            assert forall|k: int| 0 <= k < heads_view(hs@).len() implies 0 <= (
            #[trigger] heads_view(hs@)[k]).0 < nls by {
                assert(hs@[k].0 < ls@.len());
            }
            lemma_headings_ok(ls@.len() as int, heads_view(hs@), 0);
        }
        let secs = cut_sections(&ls, &hs);
        let chs = merge_chapters(secs, false);
        let toc = toc_of(&chs);
        return (chs, toc);
    }
    let bs = find_breaks(&ls);
    if bs.len() > 0 {
        let chs = parts_of(&ls, &bs);
        let toc = toc_of(&chs);
        return (chs, toc);
    }
    let whole = copy_chars(text);
    let mut chs: Vec<(Vec<char>, Vec<char>)> = Vec::new();
    chs.push((Vec::new(), whole));
    assert(chs_view(chs@) =~= txt_chapters(text@));
    let toc: Vec<(Vec<char>, usize)> = Vec::new();
    assert(toc@.map_values(|t: (Vec<char>, usize)| (t.0@, t.1 as int)) =~= txt_toc(text@));
    (chs, toc)
}

/// One contents entry per chapter: its label and index.
pub fn toc_of(chs: &Vec<(Vec<char>, Vec<char>)>) -> (out: Vec<(Vec<char>, usize)>)
    ensures
        out@.map_values(|t: (Vec<char>, usize)| (t.0@, t.1 as int)) == toc_all(chs_view(chs@)),
{
    let mut out: Vec<(Vec<char>, usize)> = Vec::new();
    let mut i: usize = 0;
    while i < chs.len()
        invariant
            i <= chs@.len(),
            out@.len() == i,
            forall|j: int| 0 <= j < i ==> (#[trigger] out@[j]).0@ == chs@[j].0@ && out@[j].1 == j,
        decreases chs@.len() - i,
    {
        let l = copy_chars(chs[i].0.as_slice());
        out.push((l, i));
        i += 1;
    }
    assert(out@.map_values(|t: (Vec<char>, usize)| (t.0@, t.1 as int)) =~= toc_all(chs_view(chs@)));
    out
}

/// Headings found in the text itself are in order and name existing lines.
proof fn lemma_headings_ok(len: int, hs: Seq<(int, Seq<char>)>, prev: int)
    requires
        forall|k: int| 0 <= k < hs.len() ==> 0 <= (#[trigger] hs[k]).0 < len,
        len <= usize::MAX,
    ensures
        sections_ok(len, hs, prev),
    decreases hs.len(),
{
    if hs.len() > 0 {
        assert(hs[0].0 < len);
        assert forall|k: int| 0 <= k < hs.drop_first().len() implies 0 <= (
        #[trigger] hs.drop_first()[k]).0 < len by {
            assert(hs.drop_first()[k] == hs[k + 1]);
        }
        lemma_headings_ok(len, hs.drop_first(), hs[0].0 + 1);
    }
}
} // verus!
