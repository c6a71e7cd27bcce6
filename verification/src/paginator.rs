//! Pages of a reflowable document: the chapters' blocks cut into pages of
//! a given number of characters.
use vstd::prelude::*;
use crate::reflow::{BlockV, ContentBlock};
use crate::text::chars_of;
use std::ops::Range;

verus! {

/// Which part of a block of its chapter a page shows: characters
/// `char_range` of block `block_idx` (`0..1` for an image).
pub struct PageEntry {
    pub block_idx: usize,
    pub char_range: Range<usize>,
}

/// An entry as plain values: block, first character, end.
pub open spec fn entry_v(e: PageEntry) -> (int, int, int) {
    (e.block_idx as int, e.char_range.start as int, e.char_range.end as int)
}

/// A page: its chapter, the run `start..end` of the document's characters
/// (counted over all chapters, an image as one) and its entries.
pub struct PageV {
    pub chapter: int,
    pub start: int,
    pub end: int,
    pub entries: Seq<(int, int, int)>,
}

/// The paginator's state while it walks the blocks: the pages so far, the
/// entries of the open page, its character count and first character, the
/// current chapter and the number of characters walked.
pub struct PState {
    pub pages: Seq<PageV>,
    pub entries: Seq<(int, int, int)>,
    pub count: int,
    pub start: int,
    pub chapter: int,
    pub global: int,
}

/// What pagination needs of a block: whether it is an image, and its
/// length in characters.
pub open spec fn shape(b: BlockV) -> (bool, int) {
    match b {
        BlockV::Text(t) => (false, t.len() as int),
        BlockV::Image(..) => (true, 1),
    }
}

/// Closes the open page.
pub open spec fn flush(st: PState) -> PState {
    PState {
        pages: st.pages.push(PageV { chapter: st.chapter, start: st.start, end: st.start + st.count, entries: st.entries }),
        entries: Seq::empty(),
        count: 0,
        ..st
    }
}

/// Adds characters `offset..offset + take` of block `bi` to the open page.
pub open spec fn take_chars(st: PState, bi: int, offset: int, take: int) -> PState {
    PState {
        start: if st.entries.len() == 0 {
            st.global
        } else {
            st.start
        },
        entries: st.entries.push((bi, offset, offset + take)),
        count: st.count + take,
        global: st.global + take,
        ..st
    }
}

/// Characters `offset..total` of text block `bi`: they fill the open page
/// up to `cpp` characters, then new pages.
pub open spec fn fill_text(st: PState, bi: int, offset: int, total: int, cpp: int) -> PState
    decreases total - offset, if st.count >= cpp {
        1int
    } else {
        0int
    },
{
    if offset >= total || cpp < 1 {
        st
    } else if st.count >= cpp {
        fill_text(flush(st), bi, offset, total, cpp)
    } else {
        let take = if cpp - st.count <= total - offset {
            cpp - st.count
        } else {
            total - offset
        };
        fill_text(take_chars(st, bi, offset, take), bi, offset + take, total, cpp)
    }
}

/// Block `bi`: an image gets a page of its own; a text fills pages.
pub open spec fn block_step(st: PState, bi: int, b: (bool, int), cpp: int) -> PState {
    if b.0 {
        let st1 = if st.entries.len() > 0 {
            flush(st)
        } else {
            st
        };
        flush(take_chars(st1, bi, 0, 1))
    } else {
        fill_text(st, bi, 0, b.1, cpp)
    }
}

/// The first `n` blocks of a chapter.
pub open spec fn blocks_fold(st: PState, blocks: Seq<(bool, int)>, cpp: int, n: int) -> PState
    decreases n,
{
    if n <= 0 {
        st
    } else {
        block_step(blocks_fold(st, blocks, cpp, n - 1), n - 1, blocks[n - 1], cpp)
    }
}

/// Chapter `ci`: it starts on a new page; a chapter without blocks is
/// passed over.
pub open spec fn chapter_step(st: PState, ci: int, blocks: Seq<(bool, int)>, cpp: int) -> PState {
    if blocks.len() == 0 {
        st
    } else {
        let st1 = if ci > 0 && st.entries.len() > 0 {
            flush(st)
        } else {
            st
        };
        blocks_fold(PState { chapter: ci, ..st1 }, blocks, cpp, blocks.len() as int)
    }
}

/// The first `n` chapters.
pub open spec fn chapters_fold(st: PState, chs: Seq<Seq<(bool, int)>>, cpp: int, n: int) -> PState
    decreases n,
{
    if n <= 0 {
        st
    } else {
        chapter_step(chapters_fold(st, chs, cpp, n - 1), n - 1, chs[n - 1], cpp)
    }
}

/// Nothing walked yet.
pub open spec fn initial() -> PState {
    PState { pages: Seq::empty(), entries: Seq::empty(), count: 0, start: 0, chapter: 0, global: 0 }
}

/// The pages of chapters of the given block shapes at `cpp` characters a
/// page; the last open page is closed.
pub open spec fn paginate(chs: Seq<Seq<(bool, int)>>, cpp: int) -> Seq<PageV> {
    let st = chapters_fold(initial(), chs, cpp, chs.len() as int);
    if st.entries.len() > 0 {
        flush(st).pages
    } else {
        st.pages
    }
}

/// The number of characters of a chapter (an image counts one).
pub open spec fn chapter_chars(blocks: Seq<(bool, int)>) -> int
    decreases blocks.len(),
{
    if blocks.len() == 0 {
        0
    } else {
        chapter_chars(blocks.drop_last()) + blocks.last().1
    }
}

/// The number of characters of the first `n` chapters.
pub open spec fn chars_before(chs: Seq<Seq<(bool, int)>>, n: int) -> int
    decreases n,
{
    if n <= 0 {
        0
    } else {
        chars_before(chs, n - 1) + chapter_chars(chs[n - 1])
    }
}

/// Shapes are lengths: none is negative.
pub open spec fn shapes_ok(s: Seq<(bool, int)>) -> bool {
    forall|i: int| 0 <= i < s.len() ==> #[trigger] s[i].1 >= 0
}

pub proof fn lemma_chapter_chars_nonneg(s: Seq<(bool, int)>)
    requires
        shapes_ok(s),
    ensures
        chapter_chars(s) >= 0,
    decreases s.len(),
{
    if s.len() > 0 {
        lemma_chapter_chars_nonneg(s.drop_last());
    }
}

pub proof fn lemma_chapter_chars_prefix(s: Seq<(bool, int)>, k: int)
    requires
        shapes_ok(s),
        0 <= k <= s.len(),
    ensures
        chapter_chars(s.take(k)) <= chapter_chars(s),
        chapter_chars(s.take(k)) >= 0,
    decreases s.len(),
{
    if k == s.len() {
        assert(s.take(k) =~= s);
        lemma_chapter_chars_nonneg(s);
    } else {
        lemma_chapter_chars_prefix(s.drop_last(), k);
        assert(s.drop_last().take(k) =~= s.take(k));
    }
}

pub proof fn lemma_chars_before_mono(chs: Seq<Seq<(bool, int)>>, n: int, m: int)
    requires
        forall|i: int| 0 <= i < chs.len() ==> shapes_ok(#[trigger] chs[i]),
        0 <= n <= m <= chs.len(),
    ensures
        0 <= chars_before(chs, n) <= chars_before(chs, m),
    decreases m - n,
{
    if n < m {
        lemma_chars_before_mono(chs, n, m - 1);
        lemma_chapter_chars_nonneg(chs[m - 1]);
    } else {
        lemma_chars_before_nonneg(chs, n);
    }
}

pub proof fn lemma_chars_before_nonneg(chs: Seq<Seq<(bool, int)>>, n: int)
    requires
        forall|i: int| 0 <= i < chs.len() ==> shapes_ok(#[trigger] chs[i]),
        n <= chs.len(),
    ensures
        chars_before(chs, n) >= 0,
    decreases n,
{
    if n > 0 {
        lemma_chars_before_nonneg(chs, n - 1);
        lemma_chapter_chars_nonneg(chs[n - 1]);
    }
}

/// Where the next page starts: where the last one ends, or at 0.
pub open spec fn next_start(pages: Seq<PageV>) -> int {
    if pages.len() > 0 {
        pages.last().end
    } else {
        0
    }
}

/// Pages hold between 1 and `cpp` characters each, follow each other
/// without gap or overlap from character 0, and their chapters never go
/// back.
pub open spec fn tiled(pages: Seq<PageV>, cpp: int) -> bool {
    &&& forall|k: int|
        0 <= k < pages.len() ==> 0 <= (#[trigger] pages[k]).start < pages[k].end <= pages[k].start + cpp
    &&& forall|j: int, k: int|
        0 <= j < k < pages.len() && k == j + 1 ==> (#[trigger] pages[j]).end == (#[trigger] pages[k]).start
            && pages[j].chapter <= pages[k].chapter
    &&& pages.len() > 0 ==> pages[0].start == 0
}

/// The walk keeps its pages tiled, and the open page continues them.
pub open spec fn walk_ok(st: PState, cpp: int) -> bool {
    &&& tiled(st.pages, cpp)
    &&& st.pages.len() > 0 ==> st.pages.last().chapter <= st.chapter
    &&& 0 <= st.count <= cpp
    &&& st.entries.len() == 0 ==> st.count == 0 && next_start(st.pages) == st.global
    &&& st.entries.len() > 0 ==> st.count >= 1 && st.start == next_start(st.pages) && st.start
        + st.count == st.global
}

proof fn lemma_flush(st: PState, cpp: int)
    requires
        walk_ok(st, cpp),
        st.entries.len() > 0,
    ensures
        walk_ok(flush(st), cpp),
        flush(st).global == st.global,
        flush(st).chapter == st.chapter,
{
    let f = flush(st);
    let n = st.pages.len();
    assert forall|j: int, k: int|
        0 <= j < k < f.pages.len() && k == j + 1 implies (#[trigger] f.pages[j]).end == (
        #[trigger] f.pages[k]).start && f.pages[j].chapter <= f.pages[k].chapter by {
        if k == n {
            assert(f.pages[j] == st.pages.last());
        } else {
            assert(f.pages[j] == st.pages[j] && f.pages[k] == st.pages[k]);
        }
    }
    assert forall|k: int| 0 <= k < f.pages.len() implies 0 <= (#[trigger] f.pages[k]).start
        < f.pages[k].end <= f.pages[k].start + cpp by {
        if k < n {
            assert(f.pages[k] == st.pages[k]);
        } else if n > 0 {
            assert(st.pages[n - 1] == st.pages.last());
        }
    }
}

proof fn lemma_take(st: PState, bi: int, offset: int, take: int, cpp: int)
    requires
        walk_ok(st, cpp),
        take >= 1,
        st.count + take <= cpp,
    ensures
        walk_ok(take_chars(st, bi, offset, take), cpp),
        take_chars(st, bi, offset, take).global == st.global + take,
        take_chars(st, bi, offset, take).chapter == st.chapter,
{
}

proof fn lemma_fill(st: PState, bi: int, offset: int, total: int, cpp: int)
    requires
        walk_ok(st, cpp),
        cpp >= 1,
        0 <= offset <= total,
    ensures
        walk_ok(fill_text(st, bi, offset, total, cpp), cpp),
        fill_text(st, bi, offset, total, cpp).global == st.global + total - offset,
        fill_text(st, bi, offset, total, cpp).chapter == st.chapter,
    decreases total - offset, if st.count >= cpp {
        1int
    } else {
        0int
    },
{
    if offset >= total {
    } else if st.count >= cpp {
        lemma_flush(st, cpp);
        lemma_fill(flush(st), bi, offset, total, cpp);
    } else {
        let take = if cpp - st.count <= total - offset {
            cpp - st.count
        } else {
            total - offset
        };
        lemma_take(st, bi, offset, take, cpp);
        lemma_fill(take_chars(st, bi, offset, take), bi, offset + take, total, cpp);
    }
}

proof fn lemma_block(st: PState, bi: int, b: (bool, int), cpp: int)
    requires
        walk_ok(st, cpp),
        cpp >= 1,
        b.1 >= 0,
        b.0 ==> b.1 == 1,
    ensures
        walk_ok(block_step(st, bi, b, cpp), cpp),
        block_step(st, bi, b, cpp).global == st.global + b.1,
        block_step(st, bi, b, cpp).chapter == st.chapter,
{
    if b.0 {
        let st1 = if st.entries.len() > 0 {
            lemma_flush(st, cpp);
            flush(st)
        } else {
            st
        };
        lemma_take(st1, bi, 0, 1, cpp);
        lemma_flush(take_chars(st1, bi, 0, 1), cpp);
    } else {
        lemma_fill(st, bi, 0, b.1, cpp);
    }
}

proof fn lemma_blocks(st: PState, blocks: Seq<(bool, int)>, cpp: int, n: int)
    requires
        walk_ok(st, cpp),
        cpp >= 1,
        0 <= n <= blocks.len(),
        forall|i: int| 0 <= i < blocks.len() ==> #[trigger] blocks[i].1 >= 0 && (blocks[i].0 ==> blocks[i].1 == 1),
    ensures
        walk_ok(blocks_fold(st, blocks, cpp, n), cpp),
        blocks_fold(st, blocks, cpp, n).global == st.global + chapter_chars(blocks.take(n)),
        blocks_fold(st, blocks, cpp, n).chapter == st.chapter,
    decreases n,
{
    if n > 0 {
        lemma_blocks(st, blocks, cpp, n - 1);
        lemma_block(blocks_fold(st, blocks, cpp, n - 1), n - 1, blocks[n - 1], cpp);
        assert(blocks.take(n).drop_last() =~= blocks.take(n - 1));
    } else {
        assert(blocks.take(0) =~= Seq::<(bool, int)>::empty());
    }
}

/// A shape is that of a block: an image counts one character.
pub open spec fn block_shapes_ok(s: Seq<(bool, int)>) -> bool {
    forall|i: int| 0 <= i < s.len() ==> #[trigger] s[i].1 >= 0 && (s[i].0 ==> s[i].1 == 1)
}

proof fn lemma_chapters(chs: Seq<Seq<(bool, int)>>, cpp: int, n: int)
    requires
        cpp >= 1,
        0 <= n <= chs.len(),
        forall|i: int| 0 <= i < chs.len() ==> block_shapes_ok(#[trigger] chs[i]),
    ensures
        walk_ok(chapters_fold(initial(), chs, cpp, n), cpp),
        chapters_fold(initial(), chs, cpp, n).global == chars_before(chs, n),
        chapters_fold(initial(), chs, cpp, n).chapter <= n,
        chapters_fold(initial(), chs, cpp, n).chapter >= 0,
    decreases n,
{
    if n > 0 {
        lemma_chapters(chs, cpp, n - 1);
        let st = chapters_fold(initial(), chs, cpp, n - 1);
        let bs = chs[n - 1];
        assert(block_shapes_ok(bs));
        if bs.len() > 0 {
            let st1 = if n - 1 > 0 && st.entries.len() > 0 {
                lemma_flush(st, cpp);
                flush(st)
            } else {
                st
            };
            lemma_blocks(PState { chapter: n - 1, ..st1 }, bs, cpp, bs.len() as int);
            assert(bs.take(bs.len() as int) =~= bs);
        } else {
            assert(chapter_chars(bs) == 0);
        }
    } else {
        assert(tiled(Seq::<PageV>::empty(), cpp));
    }
}

/// The pages of a document tile its characters: each holds between 1 and
/// `cpp` of them, the first starts at character 0, each starts where the
/// one before ends, the last ends at the document's end, and chapters
/// never go back.  A document without pages has no character.
pub proof fn lemma_paginate_tiles(chs: Seq<Seq<(bool, int)>>, cpp: int)
    requires
        cpp >= 1,
        forall|i: int| 0 <= i < chs.len() ==> block_shapes_ok(#[trigger] chs[i]),
    ensures
        tiled(paginate(chs, cpp), cpp),
        next_start(paginate(chs, cpp)) == chars_before(chs, chs.len() as int),
{
    lemma_chapters(chs, cpp, chs.len() as int);
    let st = chapters_fold(initial(), chs, cpp, chs.len() as int);
    if st.entries.len() > 0 {
        lemma_flush(st, cpp);
    }
}

/// Entries tagged with their chapter: (chapter, block, start, end).
pub open spec fn tag_entries(es: Seq<(int, int, int)>, c: int) -> Seq<(int, int, int, int)> {
    es.map_values(|e: (int, int, int)| (c, e.0, e.1, e.2))
}

/// The entries of the pages, in page order, each tagged with its page's
/// chapter.
pub open spec fn page_tags(pages: Seq<PageV>) -> Seq<(int, int, int, int)>
    decreases pages.len(),
{
    if pages.len() == 0 {
        Seq::empty()
    } else {
        page_tags(pages.drop_last()) + tag_entries(pages.last().entries, pages.last().chapter)
    }
}

/// The entries walked so far, tagged: those of the closed pages, then the
/// open page's.
pub open spec fn state_tags(st: PState) -> Seq<(int, int, int, int)> {
    page_tags(st.pages) + tag_entries(st.entries, st.chapter)
}

/// The character ranges, in order, of the tagged entries of block `b` of
/// chapter `c`.
pub open spec fn block_ranges(t: Seq<(int, int, int, int)>, c: int, b: int) -> Seq<(int, int)>
    decreases t.len(),
{
    if t.len() == 0 {
        Seq::empty()
    } else if t.last().0 == c && t.last().1 == b {
        block_ranges(t.drop_last(), c, b).push((t.last().2, t.last().3))
    } else {
        block_ranges(t.drop_last(), c, b)
    }
}

/// Ranges `r` cover `a..b` one after another, each non-empty, without gap
/// or overlap.
pub open spec fn tiles_range(r: Seq<(int, int)>, a: int, b: int) -> bool
    decreases r.len(),
{
    if r.len() == 0 {
        a == b
    } else {
        r[0].0 == a && r[0].0 < r[0].1 && tiles_range(r.drop_first(), r[0].1, b)
    }
}

proof fn lemma_ranges_concat(x: Seq<(int, int, int, int)>, y: Seq<(int, int, int, int)>, c: int, b: int)
    ensures
        block_ranges(x + y, c, b) == block_ranges(x, c, b) + block_ranges(y, c, b),
    decreases y.len(),
{
    if y.len() == 0 {
        assert(x + y =~= x);
        assert(block_ranges(y, c, b) =~= Seq::<(int, int)>::empty());
        assert(block_ranges(x, c, b) + block_ranges(y, c, b) =~= block_ranges(x, c, b));
    } else {
        lemma_ranges_concat(x, y.drop_last(), c, b);
        assert((x + y).drop_last() =~= x + y.drop_last());
        assert((x + y).last() == y.last());
        if y.last().0 == c && y.last().1 == b {
            assert(block_ranges(x + y, c, b) =~= block_ranges(x, c, b) + block_ranges(y, c, b));
        } else {
            assert(block_ranges(x + y, c, b) =~= block_ranges(x, c, b) + block_ranges(y, c, b));
        }
    }
}

proof fn lemma_ranges_single(x: (int, int, int, int), c: int, b: int)
    ensures
        block_ranges(seq![x], c, b) == if x.0 == c && x.1 == b {
            seq![(x.2, x.3)]
        } else {
            Seq::<(int, int)>::empty()
        },
{
    let t = seq![x];
    assert(t.drop_last() =~= Seq::<(int, int, int, int)>::empty());
    assert(block_ranges(t.drop_last(), c, b) == Seq::<(int, int)>::empty());
    assert(t.last() == x);
    if x.0 == c && x.1 == b {
        assert(Seq::<(int, int)>::empty().push((x.2, x.3)) =~= seq![(x.2, x.3)]);
    }
}

proof fn lemma_flush_tags(st: PState)
    ensures
        state_tags(flush(st)) == state_tags(st),
        flush(st).chapter == st.chapter,
{
    let f = flush(st);
    assert(f.pages.drop_last() =~= st.pages);
    assert(tag_entries(f.entries, f.chapter) =~= Seq::<(int, int, int, int)>::empty());
    assert(state_tags(f) =~= state_tags(st));
}

proof fn lemma_take_tags(st: PState, bi: int, offset: int, take: int)
    ensures
        state_tags(take_chars(st, bi, offset, take)) == state_tags(st).push((st.chapter, bi, offset, offset + take)),
        take_chars(st, bi, offset, take).chapter == st.chapter,
{
    let t = take_chars(st, bi, offset, take);
    assert(tag_entries(t.entries, t.chapter) =~= tag_entries(st.entries, st.chapter).push(
        (st.chapter, bi, offset, offset + take),
    ));
    assert(state_tags(t) =~= state_tags(st).push((st.chapter, bi, offset, offset + take)));
}

/// What a step leaves of the ranges walked: the ranges of `(c, b)` in `t2`
/// are those in `t1`, unless `(c, b)` is `(c0, b0)`, whose ranges in `t2`
/// continue those in `t1` with ranges that tile `a..e`.
pub open spec fn extends_block(
    t1: Seq<(int, int, int, int)>,
    t2: Seq<(int, int, int, int)>,
    c0: int,
    b0: int,
    a: int,
    e: int,
) -> bool {
    &&& forall|c: int, b: int| !(c == c0 && b == b0) ==> #[trigger] block_ranges(t2, c, b) == block_ranges(t1, c, b)
    &&& block_ranges(t2, c0, b0).len() >= block_ranges(t1, c0, b0).len()
    &&& block_ranges(t2, c0, b0).take(block_ranges(t1, c0, b0).len() as int) == block_ranges(t1, c0, b0)
    &&& tiles_range(block_ranges(t2, c0, b0).skip(block_ranges(t1, c0, b0).len() as int), a, e)
}

proof fn lemma_fill_tags(st: PState, bi: int, offset: int, total: int, cpp: int)
    requires
        cpp >= 1,
        0 <= offset <= total,
        0 <= st.count,
    ensures
        fill_text(st, bi, offset, total, cpp).chapter == st.chapter,
        extends_block(state_tags(st), state_tags(fill_text(st, bi, offset, total, cpp)), st.chapter, bi, offset, total),
    decreases total - offset, if st.count >= cpp {
        1int
    } else {
        0int
    },
{
    let t1 = state_tags(st);
    if offset >= total {
        assert(block_ranges(t1, st.chapter, bi).skip(block_ranges(t1, st.chapter, bi).len() as int) =~= Seq::<
            (int, int),
        >::empty());
        assert(block_ranges(t1, st.chapter, bi).take(block_ranges(t1, st.chapter, bi).len() as int)
            =~= block_ranges(t1, st.chapter, bi));
    } else if st.count >= cpp {
        lemma_flush_tags(st);
        lemma_fill_tags(flush(st), bi, offset, total, cpp);
    } else {
        let take = if cpp - st.count <= total - offset {
            cpp - st.count
        } else {
            total - offset
        };
        let st2 = take_chars(st, bi, offset, take);
        lemma_take_tags(st, bi, offset, take);
        lemma_fill_tags(st2, bi, offset + take, total, cpp);
        let t2 = state_tags(st2);
        let t3 = state_tags(fill_text(st2, bi, offset + take, total, cpp));
        let x = seq![(st.chapter, bi, offset, offset + take)];
        assert(t2 =~= t1 + x);
        assert forall|c: int, b: int| !(c == st.chapter && b == bi) implies #[trigger] block_ranges(t3, c, b)
            == block_ranges(t1, c, b) by {
            lemma_ranges_concat(t1, x, c, b);
            lemma_ranges_single((st.chapter, bi, offset, offset + take), c, b);
            assert(block_ranges(t1, c, b) + block_ranges(x, c, b) =~= block_ranges(t1, c, b));
        }
        lemma_ranges_concat(t1, x, st.chapter, bi);
        assert(x.drop_last() =~= Seq::<(int, int, int, int)>::empty());
        let r1 = block_ranges(t1, st.chapter, bi);
        lemma_ranges_single((st.chapter, bi, offset, offset + take), st.chapter, bi);
        let r2 = block_ranges(t2, st.chapter, bi);
        assert(r2 =~= r1.push((offset, offset + take)));
        let r3 = block_ranges(t3, st.chapter, bi);
        assert(r3.take(r1.len() as int) =~= r3.take(r2.len() as int).take(r1.len() as int));
        assert(r3.take(r1.len() as int) =~= r1);
        let rest = r3.skip(r1.len() as int);
        assert(rest[0] == r3[r1.len() as int]);
        assert(r3[r1.len() as int] == r3.take(r2.len() as int)[r1.len() as int]);
        assert(rest[0] == (offset, offset + take));
        assert(rest.drop_first() =~= r3.skip(r2.len() as int));
    }
}

/// The block step of block `bi` of shape `b` extends the ranges of that
/// block with ranges that tile it.
proof fn lemma_block_tags(st: PState, bi: int, b: (bool, int), cpp: int)
    requires
        cpp >= 1,
        0 <= st.count,
        b.1 >= 0,
        b.0 ==> b.1 == 1,
    ensures
        block_step(st, bi, b, cpp).chapter == st.chapter,
        extends_block(state_tags(st), state_tags(block_step(st, bi, b, cpp)), st.chapter, bi, 0, b.1),
{
    let t1 = state_tags(st);
    if b.0 {
        let st1 = if st.entries.len() > 0 {
            flush(st)
        } else {
            st
        };
        lemma_flush_tags(st);
        let st2 = take_chars(st1, bi, 0, 1);
        lemma_take_tags(st1, bi, 0, 1);
        lemma_flush_tags(st2);
        let x = seq![(st.chapter, bi, 0int, 1int)];
        assert(state_tags(st1) == t1);
        assert(block_step(st, bi, b, cpp) == flush(st2));
        let t3 = state_tags(block_step(st, bi, b, cpp));
        assert(t3 =~= t1 + x);
        assert(x.drop_last() =~= Seq::<(int, int, int, int)>::empty());
        assert forall|c: int, bb: int| !(c == st.chapter && bb == bi) implies #[trigger] block_ranges(t3, c, bb)
            == block_ranges(t1, c, bb) by {
            lemma_ranges_concat(t1, x, c, bb);
            lemma_ranges_single((st.chapter, bi, 0int, 1int), c, bb);
            assert(block_ranges(t1, c, bb) + block_ranges(x, c, bb) =~= block_ranges(t1, c, bb));
        }
        lemma_ranges_concat(t1, x, st.chapter, bi);
        let r1 = block_ranges(t1, st.chapter, bi);
        lemma_ranges_single((st.chapter, bi, 0int, 1int), st.chapter, bi);
        let r3 = block_ranges(t3, st.chapter, bi);
        assert(r3 =~= r1.push((0, 1)));
        assert(r3.take(r1.len() as int) =~= r1);
        let rest = r3.skip(r1.len() as int);
        assert(rest =~= seq![(0int, 1int)]);
        assert(rest.drop_first() =~= Seq::<(int, int)>::empty());
        assert(tiles_range(rest.drop_first(), 1, 1));
        assert(tiles_range(rest, 0, b.1));
        assert(r3.take(block_ranges(t1, st.chapter, bi).len() as int) == block_ranges(t1, st.chapter, bi));
    } else {
        lemma_fill_tags(st, bi, 0, b.1, cpp);
    }
}

/// Ranges that were none and were extended to tile `0..e` tile it.
proof fn lemma_extended_from_none(
    t1: Seq<(int, int, int, int)>,
    t2: Seq<(int, int, int, int)>,
    c0: int,
    b0: int,
    e: int,
)
    requires
        extends_block(t1, t2, c0, b0, 0, e),
        block_ranges(t1, c0, b0).len() == 0,
    ensures
        tiles_range(block_ranges(t2, c0, b0), 0, e),
{
    assert(block_ranges(t2, c0, b0).skip(0) =~= block_ranges(t2, c0, b0));
}

/// Walking the first `m` blocks of chapter `ci` from a state where that
/// chapter has no ranges yet: each of those blocks is tiled, the other
/// blocks and chapters keep their ranges.
proof fn lemma_blocks_tags(st: PState, blocks: Seq<(bool, int)>, cpp: int, m: int)
    requires
        cpp >= 1,
        0 <= m <= blocks.len(),
        block_shapes_ok(blocks),
        walk_ok(st, cpp),
        forall|b: int| #[trigger] block_ranges(state_tags(st), st.chapter, b).len() == 0,
    ensures
        blocks_fold(st, blocks, cpp, m).chapter == st.chapter,
        walk_ok(blocks_fold(st, blocks, cpp, m), cpp),
        forall|c: int, b: int|
            !(c == st.chapter && 0 <= b < m) ==> #[trigger] block_ranges(state_tags(blocks_fold(st, blocks, cpp, m)), c, b)
                == block_ranges(state_tags(st), c, b),
        forall|b: int|
            0 <= b < m ==> tiles_range(
                #[trigger] block_ranges(state_tags(blocks_fold(st, blocks, cpp, m)), st.chapter, b),
                0,
                blocks[b].1,
            ),
    decreases m,
{
    if m > 0 {
        lemma_blocks_tags(st, blocks, cpp, m - 1);
        let s1 = blocks_fold(st, blocks, cpp, m - 1);
        assert(blocks[m - 1].1 >= 0);
        lemma_block(s1, m - 1, blocks[m - 1], cpp);
        lemma_block_tags(s1, m - 1, blocks[m - 1], cpp);
        let s2 = blocks_fold(st, blocks, cpp, m);
        assert(block_ranges(state_tags(s1), st.chapter, m - 1) == block_ranges(state_tags(st), st.chapter, m - 1));
        lemma_extended_from_none(state_tags(s1), state_tags(s2), st.chapter, m - 1, blocks[m - 1].1);
        assert forall|c: int, b: int| !(c == st.chapter && 0 <= b < m) implies #[trigger] block_ranges(
            state_tags(s2),
            c,
            b,
        ) == block_ranges(state_tags(st), c, b) by {
            assert(block_ranges(state_tags(s2), c, b) == block_ranges(state_tags(s1), c, b));
        }
        assert forall|b: int| 0 <= b < m implies tiles_range(
            #[trigger] block_ranges(state_tags(s2), st.chapter, b),
            0,
            blocks[b].1,
        ) by {
            if b < m - 1 {
                assert(block_ranges(state_tags(s2), st.chapter, b) == block_ranges(state_tags(s1), st.chapter, b));
            }
        }
    }
}

/// The walk's pages so far extend those of `st`, and every page added
/// belongs to `st`'s chapter and starts at or after character `lo`.
pub open spec fn grows_from(st: PState, r: PState, lo: int) -> bool {
    &&& r.pages.len() >= st.pages.len()
    &&& r.pages.take(st.pages.len() as int) == st.pages
    &&& forall|k: int|
        st.pages.len() <= k < r.pages.len() ==> (#[trigger] r.pages[k]).chapter == st.chapter && r.pages[k].start
            >= lo
}

/// The walk is at or after character `lo`, and so is its open page.
pub open spec fn floor_ok(st: PState, lo: int) -> bool {
    &&& st.global >= lo
    &&& st.entries.len() > 0 ==> st.start >= lo
}

proof fn lemma_grows_trans(a: PState, b: PState, c: PState, lo: int)
    requires
        grows_from(a, b, lo),
        grows_from(b, c, lo),
        b.chapter == a.chapter,
    ensures
        grows_from(a, c, lo),
{
    assert(c.pages.take(a.pages.len() as int) =~= c.pages.take(b.pages.len() as int).take(a.pages.len() as int));
    assert forall|k: int| a.pages.len() <= k < c.pages.len() implies (#[trigger] c.pages[k]).chapter == a.chapter
        && c.pages[k].start >= lo by {
        if k < b.pages.len() {
            assert(c.pages[k] == c.pages.take(b.pages.len() as int)[k]);
        }
    }
}

proof fn lemma_flush_floor(st: PState, lo: int)
    requires
        floor_ok(st, lo),
        st.entries.len() > 0,
    ensures
        floor_ok(flush(st), lo),
        grows_from(st, flush(st), lo),
{
    assert(flush(st).pages.take(st.pages.len() as int) =~= st.pages);
}

proof fn lemma_fill_floor(st: PState, bi: int, offset: int, total: int, cpp: int, lo: int)
    requires
        walk_ok(st, cpp),
        floor_ok(st, lo),
        cpp >= 1,
        0 <= offset <= total,
    ensures
        floor_ok(fill_text(st, bi, offset, total, cpp), lo),
        grows_from(st, fill_text(st, bi, offset, total, cpp), lo),
    decreases total - offset, if st.count >= cpp {
        1int
    } else {
        0int
    },
{
    if offset >= total {
        assert(st.pages.take(st.pages.len() as int) =~= st.pages);
    } else if st.count >= cpp {
        lemma_flush(st, cpp);
        lemma_flush_floor(st, lo);
        lemma_fill_floor(flush(st), bi, offset, total, cpp, lo);
        lemma_grows_trans(st, flush(st), fill_text(st, bi, offset, total, cpp), lo);
    } else {
        let take = if cpp - st.count <= total - offset {
            cpp - st.count
        } else {
            total - offset
        };
        let st2 = take_chars(st, bi, offset, take);
        lemma_take(st, bi, offset, take, cpp);
        assert(st2.pages.take(st.pages.len() as int) =~= st.pages);
        lemma_fill_floor(st2, bi, offset + take, total, cpp, lo);
        lemma_grows_trans(st, st2, fill_text(st, bi, offset, total, cpp), lo);
    }
}

proof fn lemma_blocks_floor(st: PState, blocks: Seq<(bool, int)>, cpp: int, m: int, lo: int)
    requires
        walk_ok(st, cpp),
        floor_ok(st, lo),
        cpp >= 1,
        0 <= m <= blocks.len(),
        block_shapes_ok(blocks),
    ensures
        floor_ok(blocks_fold(st, blocks, cpp, m), lo),
        grows_from(st, blocks_fold(st, blocks, cpp, m), lo),
    decreases m,
{
    if m == 0 {
        assert(st.pages.take(st.pages.len() as int) =~= st.pages);
    } else {
        lemma_blocks_floor(st, blocks, cpp, m - 1, lo);
        lemma_blocks(st, blocks, cpp, m - 1);
        let s1 = blocks_fold(st, blocks, cpp, m - 1);
        let b = blocks[m - 1];
        assert(b.1 >= 0 && (b.0 ==> b.1 == 1));
        let s2 = blocks_fold(st, blocks, cpp, m);
        if b.0 {
            let st1 = if s1.entries.len() > 0 {
                lemma_flush(s1, cpp);
                lemma_flush_floor(s1, lo);
                flush(s1)
            } else {
                assert(s1.pages.take(s1.pages.len() as int) =~= s1.pages);
                s1
            };
            let st2 = take_chars(st1, m - 1, 0, 1);
            lemma_take(st1, m - 1, 0, 1, cpp);
            assert(st2.pages.take(st1.pages.len() as int) =~= st1.pages);
            lemma_flush_floor(st2, lo);
            lemma_grows_trans(s1, st1, st2, lo);
            lemma_grows_trans(s1, st2, s2, lo);
        } else {
            lemma_fill_floor(s1, m - 1, 0, b.1, cpp, lo);
        }
        lemma_grows_trans(st, s1, s2, lo);
    }
}

/// Every page so far starts at or after its chapter's first character,
/// within the chapters; so does the open page.
pub open spec fn pages_placed(chs: Seq<Seq<(bool, int)>>, st: PState) -> bool {
    &&& forall|k: int|
        0 <= k < st.pages.len() ==> 0 <= (#[trigger] st.pages[k]).chapter < chs.len() && st.pages[k].start
            >= chars_before(chs, st.pages[k].chapter)
    &&& st.entries.len() > 0 ==> 0 <= st.chapter < chs.len() && st.start >= chars_before(chs, st.chapter)
}

proof fn lemma_chapters_placed(chs: Seq<Seq<(bool, int)>>, cpp: int, n: int)
    requires
        cpp >= 1,
        0 <= n <= chs.len(),
        forall|i: int| 0 <= i < chs.len() ==> block_shapes_ok(#[trigger] chs[i]),
    ensures
        pages_placed(chs, chapters_fold(initial(), chs, cpp, n)),
    decreases n,
{
    if n > 0 {
        lemma_chapters_placed(chs, cpp, n - 1);
        lemma_chapters(chs, cpp, n - 1);
        let st = chapters_fold(initial(), chs, cpp, n - 1);
        let bs = chs[n - 1];
        assert(block_shapes_ok(bs));
        if bs.len() > 0 {
            let lo = chars_before(chs, n - 1);
            let st1 = if n - 1 > 0 && st.entries.len() > 0 {
                lemma_flush(st, cpp);
                flush(st)
            } else {
                st
            };
            assert(pages_placed(chs, st1)) by {
                if n - 1 > 0 && st.entries.len() > 0 {
                    assert forall|k: int| 0 <= k < st1.pages.len() implies 0 <= (#[trigger] st1.pages[k]).chapter
                        < chs.len() && st1.pages[k].start >= chars_before(chs, st1.pages[k].chapter) by {
                        if k < st.pages.len() {
                            assert(st1.pages[k] == st.pages[k]);
                        }
                    }
                }
            }
            if n - 1 == 0 {
                assert(st == initial());
            }
            let st2 = PState { chapter: n - 1, ..st1 };
            assert(st1.entries.len() == 0);
            assert(floor_ok(st2, lo));
            lemma_blocks_floor(st2, bs, cpp, bs.len() as int, lo);
            let st3 = chapters_fold(initial(), chs, cpp, n);
            assert(st3 == blocks_fold(st2, bs, cpp, bs.len() as int));
            assert forall|k: int| 0 <= k < st3.pages.len() implies 0 <= (#[trigger] st3.pages[k]).chapter < chs.len()
                && st3.pages[k].start >= chars_before(chs, st3.pages[k].chapter) by {
                if k < st2.pages.len() {
                    assert(st3.pages[k] == st3.pages.take(st2.pages.len() as int)[k]);
                    assert(st3.pages[k] == st1.pages[k]);
                }
            }
            lemma_blocks(st2, bs, cpp, bs.len() as int);
        }
    }
}

/// Pages that tile follow each other: a page ends at or before any later
/// page starts.
proof fn lemma_tiled_order(pages: Seq<PageV>, cpp: int, j: int, i: int)
    requires
        tiled(pages, cpp),
        0 <= j < i < pages.len(),
    ensures
        pages[j].end <= pages[i].start,
    decreases i - j,
{
    assert(pages[i - 1].end == pages[i].start);
    if j < i - 1 {
        lemma_tiled_order(pages, cpp, j, i - 1);
    }
}

/// Entry `e` of a page of chapter `c` shows an image.
pub open spec fn image_entry(chs: Seq<Seq<(bool, int)>>, c: int, e: (int, int, int)) -> bool {
    0 <= c < chs.len() && 0 <= e.0 < chs[c].len() && chs[c][e.0].0
}

/// A page that shows an image shows nothing else.
pub open spec fn image_alone(chs: Seq<Seq<(bool, int)>>, pg: PageV) -> bool {
    forall|i: int| 0 <= i < pg.entries.len() && #[trigger] image_entry(chs, pg.chapter, pg.entries[i]) ==> pg.entries.len() == 1
}

/// Closed pages show an image alone, and the open page shows none.
pub open spec fn images_ok(chs: Seq<Seq<(bool, int)>>, st: PState) -> bool {
    &&& forall|k: int| 0 <= k < st.pages.len() ==> image_alone(chs, #[trigger] st.pages[k])
    &&& forall|i: int| 0 <= i < st.entries.len() ==> !#[trigger] image_entry(chs, st.chapter, st.entries[i])
}

proof fn lemma_flush_images(chs: Seq<Seq<(bool, int)>>, st: PState)
    requires
        images_ok(chs, st),
    ensures
        images_ok(chs, flush(st)),
{
    let f = flush(st);
    assert forall|k: int| 0 <= k < f.pages.len() implies image_alone(chs, #[trigger] f.pages[k]) by {
        if k < st.pages.len() {
            assert(f.pages[k] == st.pages[k]);
        }
    }
}

proof fn lemma_fill_images(chs: Seq<Seq<(bool, int)>>, st: PState, bi: int, offset: int, total: int, cpp: int)
    requires
        images_ok(chs, st),
        !image_entry(chs, st.chapter, (bi, 0, 0)),
    ensures
        images_ok(chs, fill_text(st, bi, offset, total, cpp)),
        fill_text(st, bi, offset, total, cpp).chapter == st.chapter,
    decreases total - offset, if st.count >= cpp {
        1int
    } else {
        0int
    },
{
    if offset >= total || cpp < 1 {
    } else if st.count >= cpp {
        lemma_flush_images(chs, st);
        lemma_fill_images(chs, flush(st), bi, offset, total, cpp);
    } else {
        let take = if cpp - st.count <= total - offset {
            cpp - st.count
        } else {
            total - offset
        };
        let st2 = take_chars(st, bi, offset, take);
        assert forall|i: int| 0 <= i < st2.entries.len() implies !#[trigger] image_entry(chs, st2.chapter, st2.entries[i]) by {
            if i < st.entries.len() {
                assert(st2.entries[i] == st.entries[i]);
            }
        }
        lemma_fill_images(chs, st2, bi, offset + take, total, cpp);
    }
}

proof fn lemma_blocks_images(chs: Seq<Seq<(bool, int)>>, st: PState, cpp: int, m: int)
    requires
        images_ok(chs, st),
        0 <= st.chapter < chs.len(),
        0 <= m <= chs[st.chapter].len(),
        block_shapes_ok(chs[st.chapter]),
    ensures
        images_ok(chs, blocks_fold(st, chs[st.chapter], cpp, m)),
        blocks_fold(st, chs[st.chapter], cpp, m).chapter == st.chapter,
    decreases m,
{
    if m > 0 {
        let bs = chs[st.chapter];
        lemma_blocks_images(chs, st, cpp, m - 1);
        let s1 = blocks_fold(st, bs, cpp, m - 1);
        let b = bs[m - 1];
        if b.0 {
            let st1 = if s1.entries.len() > 0 {
                lemma_flush_images(chs, s1);
                flush(s1)
            } else {
                s1
            };
            let st2 = take_chars(st1, m - 1, 0, 1);
            assert(st1.entries.len() == 0);
            assert(st2.entries =~= seq![(m - 1, 0int, 1int)]);
            let f = flush(st2);
            assert forall|k: int| 0 <= k < f.pages.len() implies image_alone(chs, #[trigger] f.pages[k]) by {
                if k < st1.pages.len() {
                    assert(f.pages[k] == st1.pages[k]);
                }
            }
        } else {
            lemma_fill_images(chs, s1, m - 1, 0, b.1, cpp);
        }
    }
}

proof fn lemma_chapters_images(chs: Seq<Seq<(bool, int)>>, cpp: int, n: int)
    requires
        0 <= n <= chs.len(),
        forall|i: int| 0 <= i < chs.len() ==> block_shapes_ok(#[trigger] chs[i]),
    ensures
        images_ok(chs, chapters_fold(initial(), chs, cpp, n)),
        0 <= chapters_fold(initial(), chs, cpp, n).chapter,
        chapters_fold(initial(), chs, cpp, n).chapter <= n,
    decreases n,
{
    if n > 0 {
        lemma_chapters_images(chs, cpp, n - 1);
        let st = chapters_fold(initial(), chs, cpp, n - 1);
        let bs = chs[n - 1];
        if bs.len() > 0 {
            let st1 = if n - 1 > 0 && st.entries.len() > 0 {
                lemma_flush_images(chs, st);
                flush(st)
            } else {
                st
            };
            let st2 = PState { chapter: n - 1, ..st1 };
            if n - 1 == 0 {
                assert(st == initial());
            }
            assert(st1.entries.len() == 0);
            assert(images_ok(chs, st2));
            assert(block_shapes_ok(chs[n - 1]));
            lemma_blocks_images(chs, st2, cpp, bs.len() as int);
        }
    }
}

/// A page that shows an image shows nothing else: an image has a page of
/// its own.
pub proof fn lemma_image_pages_alone(chs: Seq<Seq<(bool, int)>>, cpp: int)
    requires
        forall|i: int| 0 <= i < chs.len() ==> block_shapes_ok(#[trigger] chs[i]),
    ensures
        forall|k: int| 0 <= k < paginate(chs, cpp).len() ==> image_alone(chs, #[trigger] paginate(chs, cpp)[k]),
{
    lemma_chapters_images(chs, cpp, chs.len() as int);
    let st = chapters_fold(initial(), chs, cpp, chs.len() as int);
    if st.entries.len() > 0 {
        lemma_flush_images(chs, st);
    }
}

/// Block `b` is a block of chapter `c`.
pub open spec fn is_block(chs: Seq<Seq<(bool, int)>>, c: int, b: int) -> bool {
    0 <= c < chs.len() && 0 <= b < chs[c].len()
}

proof fn lemma_chapters_tags(chs: Seq<Seq<(bool, int)>>, cpp: int, n: int)
    requires
        cpp >= 1,
        0 <= n <= chs.len(),
        forall|i: int| 0 <= i < chs.len() ==> block_shapes_ok(#[trigger] chs[i]),
    ensures
        forall|c: int, b: int|
            is_block(chs, c, b) && c < n ==> tiles_range(
                #[trigger] block_ranges(state_tags(chapters_fold(initial(), chs, cpp, n)), c, b),
                0,
                chs[c][b].1,
            ),
        forall|c: int, b: int|
            !(is_block(chs, c, b) && c < n) ==> (#[trigger] block_ranges(
                state_tags(chapters_fold(initial(), chs, cpp, n)),
                c,
                b,
            )).len() == 0,
    decreases n,
{
    if n == 0 {
        let st = initial();
        assert(page_tags(st.pages) =~= Seq::<(int, int, int, int)>::empty());
        assert(state_tags(st) =~= Seq::<(int, int, int, int)>::empty());
    } else {
        lemma_chapters_tags(chs, cpp, n - 1);
        lemma_chapters(chs, cpp, n - 1);
        let st = chapters_fold(initial(), chs, cpp, n - 1);
        let bs = chs[n - 1];
        assert(block_shapes_ok(bs));
        if bs.len() > 0 {
            let st1 = if n - 1 > 0 && st.entries.len() > 0 {
                lemma_flush(st, cpp);
                lemma_flush_tags(st);
                flush(st)
            } else {
                st
            };
            if n - 1 == 0 {
                assert(st == initial());
            }
            assert(st1.entries.len() == 0);
            let st2 = PState { chapter: n - 1, ..st1 };
            assert(tag_entries(st2.entries, st2.chapter) =~= Seq::<(int, int, int, int)>::empty());
            assert(tag_entries(st1.entries, st1.chapter) =~= Seq::<(int, int, int, int)>::empty());
            assert(state_tags(st2) == state_tags(st));
            assert forall|b: int| #[trigger] block_ranges(state_tags(st2), st2.chapter, b).len() == 0 by {
                assert(!(is_block(chs, n - 1, b) && n - 1 < n - 1));
            }
            lemma_blocks_tags(st2, bs, cpp, bs.len() as int);
            let st3 = chapters_fold(initial(), chs, cpp, n);
            assert(st3 == blocks_fold(st2, bs, cpp, bs.len() as int));
            assert forall|c: int, b: int| is_block(chs, c, b) && c < n implies tiles_range(
                #[trigger] block_ranges(state_tags(st3), c, b),
                0,
                chs[c][b].1,
            ) by {
                if c < n - 1 {
                    assert(block_ranges(state_tags(st3), c, b) == block_ranges(state_tags(st2), c, b));
                }
            }
            assert forall|c: int, b: int| !(is_block(chs, c, b) && c < n) implies (#[trigger] block_ranges(
                state_tags(st3),
                c,
                b,
            )).len() == 0 by {
                assert(block_ranges(state_tags(st3), c, b) == block_ranges(state_tags(st2), c, b));
            }
        }
    }
}

/// Each block is cut into pieces that tile it: the entries of block `bi`
/// of chapter `ci`, taken in page order from the pages of that chapter,
/// cover its characters `0..n` one after another, none empty, without gap
/// or overlap (an empty block has none; an image has the one entry
/// `0..1`).  No page holds an entry of a block that its chapter does not
/// have, so a chapter's blocks never share a page with another chapter's.
pub proof fn lemma_blocks_tiled(chs: Seq<Seq<(bool, int)>>, cpp: int, ci: int, bi: int)
    requires
        cpp >= 1,
        forall|i: int| 0 <= i < chs.len() ==> block_shapes_ok(#[trigger] chs[i]),
    ensures
        is_block(chs, ci, bi) ==> tiles_range(block_ranges(page_tags(paginate(chs, cpp)), ci, bi), 0, chs[ci][bi].1),
        !is_block(chs, ci, bi) ==> block_ranges(page_tags(paginate(chs, cpp)), ci, bi).len() == 0,
{
    let n = chs.len() as int;
    lemma_chapters_tags(chs, cpp, n);
    let st = chapters_fold(initial(), chs, cpp, n);
    if st.entries.len() > 0 {
        lemma_flush_tags(st);
        let f = flush(st);
        assert(tag_entries(f.entries, f.chapter) =~= Seq::<(int, int, int, int)>::empty());
        assert(page_tags(paginate(chs, cpp)) =~= state_tags(st));
    } else {
        assert(tag_entries(st.entries, st.chapter) =~= Seq::<(int, int, int, int)>::empty());
        assert(page_tags(paginate(chs, cpp)) =~= state_tags(st));
    }
    assert(block_ranges(page_tags(paginate(chs, cpp)), ci, bi) == block_ranges(state_tags(st), ci, bi));
}

/// The characters in a string.
fn char_count(s: &str) -> (n: usize)
    ensures
        n == s@.len(),
{
    chars_of(s).len()
}

/// The shape of a block.
fn block_shape(b: &ContentBlock) -> (out: (bool, usize))
    ensures
        (out.0, out.1 as int) == shape(b@),
{
    match b {
        ContentBlock::Text(t) => (false, char_count(t.as_str())),
        ContentBlock::Image(_) => (true, 1),
    }
}

/// A chapter's title and blocks, and its number of characters.
struct ChapterContent {
    title: String,
    blocks: Vec<ContentBlock>,
    char_count: usize,
}

/// A page: its chapter, its run of characters and its entries.
struct PageLayout {
    chapter_idx: usize,
    char_start: usize,
    char_end: usize,
    entries: Vec<PageEntry>,
}

pub open spec fn entries_v(v: Seq<PageEntry>) -> Seq<(int, int, int)> {
    v.map_values(|e: PageEntry| entry_v(e))
}

spec fn page_v(p: PageLayout) -> PageV {
    PageV { chapter: p.chapter_idx as int, start: p.char_start as int, end: p.char_end as int, entries: entries_v(p.entries@) }
}

spec fn pages_v(v: Seq<PageLayout>) -> Seq<PageV> {
    v.map_values(|p: PageLayout| page_v(p))
}

spec fn blocks_shape(v: Seq<ContentBlock>) -> Seq<(bool, int)> {
    v.map_values(|b: ContentBlock| shape(b@))
}

/// The pagination state as the walk holds it.
struct Acc {
    pages: Vec<PageLayout>,
    entries: Vec<PageEntry>,
    count: usize,
    start: usize,
    chapter: usize,
    global: usize,
}

spec fn acc_v(a: Acc) -> PState {
    PState {
        pages: pages_v(a.pages@),
        entries: entries_v(a.entries@),
        count: a.count as int,
        start: a.start as int,
        chapter: a.chapter as int,
        global: a.global as int,
    }
}

/// The open page holds characters `start..global`, and at most `cpp`.
spec fn acc_ok(a: Acc, cpp: int) -> bool {
    &&& a.entries@.len() == 0 ==> a.count == 0
    &&& a.entries@.len() > 0 ==> a.start + a.count == a.global
    &&& a.count <= cpp
}

fn flush_acc(a: &mut Acc)
    requires
        old(a).entries@.len() > 0 ==> old(a).start + old(a).count == old(a).global,
        old(a).entries@.len() == 0 ==> old(a).count == 0,
    ensures
        acc_v(*final(a)) == flush(acc_v(*old(a))),
        final(a).global == old(a).global,
        final(a).chapter == old(a).chapter,
        final(a).count == 0,
        final(a).entries@.len() == 0,
{
    let mut entries: Vec<PageEntry> = Vec::new();
    std::mem::swap(&mut entries, &mut a.entries);
    let ghost before = pages_v(a.pages@);
    let end = a.start + a.count;
    a.pages.push(PageLayout { chapter_idx: a.chapter, char_start: a.start, char_end: end, entries });
    a.count = 0;
    assert(pages_v(a.pages@) =~= before.push(
        PageV { chapter: a.chapter as int, start: a.start as int, end: end as int, entries: entries_v(entries@) },
    ));
    assert(entries_v(a.entries@) =~= Seq::<(int, int, int)>::empty());
}

fn take_acc(a: &mut Acc, bi: usize, offset: usize, take: usize)
    requires
        old(a).global + take <= usize::MAX,
        offset + take <= usize::MAX,
        old(a).entries@.len() > 0 ==> old(a).start + old(a).count == old(a).global,
        old(a).entries@.len() == 0 ==> old(a).count == 0,
    ensures
        acc_v(*final(a)) == take_chars(acc_v(*old(a)), bi as int, offset as int, take as int),
        final(a).global == old(a).global + take,
        final(a).count == old(a).count + take,
        final(a).chapter == old(a).chapter,
        final(a).entries@.len() > 0,
        final(a).start + final(a).count == final(a).global,
{
    if a.entries.len() == 0 {
        a.start = a.global;
    }
    let ghost before = entries_v(a.entries@);
    a.entries.push(PageEntry { block_idx: bi, char_range: offset..offset + take });
    a.count = a.count + take;
    a.global = a.global + take;
    assert(entries_v(a.entries@) =~= before.push((bi as int, offset as int, offset + take)));
}

fn fill_text_acc(a: &mut Acc, bi: usize, total: usize, cpp: usize)
    requires
        cpp >= 1,
        acc_ok(*old(a), cpp as int),
        old(a).global + total <= usize::MAX,
    ensures
        acc_v(*final(a)) == fill_text(acc_v(*old(a)), bi as int, 0, total as int, cpp as int),
        acc_ok(*final(a), cpp as int),
        final(a).global == old(a).global + total,
        final(a).chapter == old(a).chapter,
{
    let ghost goal = fill_text(acc_v(*a), bi as int, 0, total as int, cpp as int);
    let ghost g0 = a.global;
    let mut offset: usize = 0;
    while offset < total
        invariant
            cpp >= 1,
            offset <= total,
            acc_ok(*a, cpp as int),
            a.global == g0 + offset,
            g0 + total <= usize::MAX,
            a.chapter == old(a).chapter,
            fill_text(acc_v(*a), bi as int, offset as int, total as int, cpp as int) == goal,
        decreases total - offset, if a.count >= cpp {
            1int
        } else {
            0int
        },
    {
        let remain = if a.count < cpp {
            cpp - a.count
        } else {
            0
        };
        if remain == 0 {
            flush_acc(a);
        } else {
            let take = if remain <= total - offset {
                remain
            } else {
                total - offset
            };
            take_acc(a, bi, offset, take);
            offset = offset + take;
        }
    }
    assert(fill_text(acc_v(*a), bi as int, offset as int, total as int, cpp as int) == acc_v(*a));
}

fn block_acc(a: &mut Acc, bi: usize, b: (bool, usize), cpp: usize)
    requires
        cpp >= 1,
        acc_ok(*old(a), cpp as int),
        old(a).global + b.1 <= usize::MAX,
        b.0 ==> b.1 == 1,
    ensures
        acc_v(*final(a)) == block_step(acc_v(*old(a)), bi as int, (b.0, b.1 as int), cpp as int),
        acc_ok(*final(a), cpp as int),
        final(a).global == old(a).global + b.1,
        final(a).chapter == old(a).chapter,
{
    if b.0 {
        if a.entries.len() > 0 {
            flush_acc(a);
        }
        take_acc(a, bi, 0, 1);
        flush_acc(a);
    } else {
        fill_text_acc(a, bi, b.1, cpp);
    }
}

/// Block shapes of the chapters handed to the paginator.
pub open spec fn input_shapes(v: Seq<(String, Vec<ContentBlock>)>) -> Seq<Seq<(bool, int)>> {
    v.map_values(|c: (String, Vec<ContentBlock>)| c.1@.map_values(|b: ContentBlock| shape(b@)))
}

/// Chapters handed to the paginator as plain values.
pub open spec fn input_view(v: Seq<(String, Vec<ContentBlock>)>) -> Seq<(Seq<char>, Seq<BlockV>)> {
    v.map_values(|c: (String, Vec<ContentBlock>)| (c.0@, c.1@.map_values(|b: ContentBlock| b@)))
}

/// The first page at or after chapter `ci`, else the last page (0 when
/// there is none).
pub open spec fn page_for_chapter(pages: Seq<PageV>, ci: int, r: int) -> bool {
    if exists|i: int| 0 <= i < pages.len() && #[trigger] pages[i].chapter >= ci {
        &&& 0 <= r < pages.len()
        &&& pages[r].chapter >= ci
        &&& forall|j: int| 0 <= j < r ==> #[trigger] pages[j].chapter < ci
    } else {
        r == if pages.len() > 0 {
            pages.len() - 1
        } else {
            0
        }
    }
}

/// The first page that ends after character `g` of the document, else the
/// last page (0 when there is none).
pub open spec fn page_for_char(pages: Seq<PageV>, g: int, r: int) -> bool {
    if exists|i: int| 0 <= i < pages.len() && #[trigger] pages[i].end > g {
        &&& 0 <= r < pages.len()
        &&& pages[r].end > g
        &&& forall|j: int| 0 <= j < r ==> #[trigger] pages[j].end <= g
    } else {
        r == if pages.len() > 0 {
            pages.len() - 1
        } else {
            0
        }
    }
}

/// `a - b`, or 0.
pub open spec fn sat_sub(a: int, b: int) -> int {
    if a >= b {
        a - b
    } else {
        0
    }
}

/// Breaks chapter content into pages of `chars_per_page` characters: every
/// chapter starts a page, an image has a page of its own.
pub struct Paginator {
    chapters: Vec<ChapterContent>,
    chars_per_page: usize,
    pages: Vec<PageLayout>,
}

impl Paginator {
    /// The block shapes of the chapters.
    pub closed spec fn shapes(&self) -> Seq<Seq<(bool, int)>> {
        self.chapters@.map_values(|c: ChapterContent| blocks_shape(c.blocks@))
    }

    /// The chapters: title and blocks.
    pub closed spec fn content(&self) -> Seq<(Seq<char>, Seq<BlockV>)> {
        self.chapters@.map_values(|c: ChapterContent| (c.title@, c.blocks@.map_values(|b: ContentBlock| b@)))
    }

    /// The pages.
    pub closed spec fn pages(&self) -> Seq<PageV> {
        pages_v(self.pages@)
    }

    /// The number of characters a page holds.
    pub closed spec fn cpp(&self) -> int {
        self.chars_per_page as int
    }

    /// The pages are those of `paginate`, and each chapter knows its size.
    pub closed spec fn wf(&self) -> bool {
        &&& self.chars_per_page >= 1
        &&& forall|i: int|
            0 <= i < self.chapters@.len() ==> (#[trigger] self.chapters@[i]).char_count == chapter_chars(
                blocks_shape(self.chapters@[i].blocks@),
            )
        &&& chars_before(self.shapes(), self.shapes().len() as int) <= usize::MAX
        &&& self.pages() == paginate(self.shapes(), self.cpp())
    }

    /// A well-formed paginator holds the pages that `paginate` gives for its
    /// chapters at its number of characters a page, which is at least 1;
    /// its blocks are text or single-character images, and its characters
    /// can be counted in a `usize`.
    pub proof fn lemma_pages(&self)
        requires
            self.wf(),
        ensures
            self.cpp() >= 1,
            self.pages() == paginate(self.shapes(), self.cpp()),
            forall|i: int| 0 <= i < self.shapes().len() ==> block_shapes_ok(#[trigger] self.shapes()[i]),
            chars_before(self.shapes(), self.shapes().len() as int) <= usize::MAX,
    {
        assert forall|i: int| 0 <= i < self.shapes().len() implies block_shapes_ok(#[trigger] self.shapes()[i]) by {
            let bs = self.shapes()[i];
            assert(bs == blocks_shape(self.chapters@[i].blocks@));
            assert forall|k: int| 0 <= k < bs.len() implies #[trigger] bs[k].1 >= 0 && (bs[k].0 ==> bs[k].1 == 1) by {
                assert(bs[k] == shape(self.chapters@[i].blocks@[k]@));
            }
        }
    }

    /// Each page is found again from its first character: page `i`
    /// belongs to a chapter of the document, starts at or after that
    /// chapter's first character, and the lookup of its first character
    /// (`find_page_for_char` on the chapter and offset that
    /// `chapter_range_for_page` gives) can only land on page `i`.
    pub proof fn lemma_page_found_by_its_start(&self, i: int, r: int)
        requires
            self.wf(),
            0 <= i < self.pages().len(),
        ensures
            0 <= self.pages()[i].chapter < self.shapes().len(),
            self.pages()[i].start >= chars_before(self.shapes(), self.pages()[i].chapter),
            page_for_char(
                self.pages(),
                chars_before(self.shapes(), self.pages()[i].chapter) + sat_sub(
                    self.pages()[i].start,
                    chars_before(self.shapes(), self.pages()[i].chapter),
                ),
                r,
            ) ==> r == i,
    {
        self.lemma_pages();
        let chs = self.shapes();
        let cpp = self.cpp();
        let pages = self.pages();
        let n = chs.len() as int;
        lemma_chapters_placed(chs, cpp, n);
        lemma_paginate_tiles(chs, cpp);
        let st = chapters_fold(initial(), chs, cpp, n);
        if st.entries.len() > 0 {
            assert(pages == flush(st).pages);
            if i < st.pages.len() {
                assert(pages[i] == st.pages[i]);
            }
        } else {
            assert(pages == st.pages);
        }
        let pg = pages[i];
        let g = pg.start;
        assert(chars_before(chs, pg.chapter) + sat_sub(pg.start, chars_before(chs, pg.chapter)) == g);
        assert(pages[i].end > g);
        assert forall|j: int| 0 <= j < i implies #[trigger] pages[j].end <= g by {
            lemma_tiled_order(pages, cpp, j, i);
        }
        if page_for_char(pages, g, r) {
            assert(exists|k: int| 0 <= k < pages.len() && #[trigger] pages[k].end > g) by {
                assert(pages[i].end > g);
            }
            if r < i {
                assert(pages[r].end <= g);
            } else if r > i {
                assert(pages[i].end <= g);
            }
        }
    }

    /// Pages depend on the chapters' blocks and the page size alone: a
    /// paginator re-paged at a new size holds the pages of one made at
    /// that size.
    pub proof fn lemma_same_pages(&self, other: &Paginator)
        requires
            self.wf(),
            other.wf(),
            self.shapes() == other.shapes(),
            self.cpp() == other.cpp(),
        ensures
            self.pages() == other.pages(),
    {
        self.lemma_pages();
        other.lemma_pages();
    }

    /// Pages the given chapters at `chars_per_page` characters a page.
    pub fn new(chapters: Vec<(String, Vec<ContentBlock>)>, chars_per_page: usize) -> (p: Self)
        requires
            chars_per_page >= 1,
            chars_before(input_shapes(chapters@), chapters@.len() as int) <= usize::MAX,
        ensures
            p.wf(),
            p.content() == input_view(chapters@),
            p.shapes() == input_shapes(chapters@),
            p.cpp() == chars_per_page,
    {
        let ghost shp = input_shapes(chapters@);
        let ghost iv = input_view(chapters@);
        let n = chapters.len();
        let mut rest = chapters;
        let mut contents: Vec<ChapterContent> = Vec::new();
        let mut i: usize = 0;
        proof {
            assert forall|k: int| 0 <= k < shp.len() implies shapes_ok(#[trigger] shp[k]) by {}
            lemma_chars_before_mono(shp, 0, n as int);
        }
        while i < n
            invariant
                i <= n,
                n == shp.len(),
                shp.len() == iv.len(),
                rest@.len() == n - i,
                forall|k: int| 0 <= k < shp.len() ==> shapes_ok(#[trigger] shp[k]),
                chars_before(shp, n as int) <= usize::MAX,
                forall|k: int| 0 <= k < rest@.len() ==> input_shapes(rest@)[k] == shp[k + i],
                forall|k: int| 0 <= k < rest@.len() ==> input_view(rest@)[k] == iv[k + i],
                contents@.len() == i,
                forall|k: int|
                    0 <= k < i ==> (#[trigger] contents@[k]).char_count == chapter_chars(
                        blocks_shape(contents@[k].blocks@),
                    ),
                forall|k: int| 0 <= k < i ==> blocks_shape((#[trigger] contents@[k]).blocks@) == shp[k],
                forall|k: int| 0 <= k < i ==> ((#[trigger] contents@[k]).title@, contents@[k].blocks@.map_values(|b: ContentBlock| b@)) == iv[k],
            decreases n - i,
        {
            assert(input_shapes(rest@)[0] == shp[i as int]);
            assert(input_view(rest@)[0] == iv[i as int]);
            let ghost old_rest = rest@;
            let (title, blocks) = rest.remove(0);
            assert forall|k: int| 0 <= k < rest@.len() implies input_shapes(rest@)[k] == shp[k + i + 1] by {
                assert(rest@[k] == old_rest[k + 1]);
                assert(input_shapes(old_rest)[k + 1] == shp[k + 1 + i]);
            }
            assert forall|k: int| 0 <= k < rest@.len() implies input_view(rest@)[k] == iv[k + i + 1] by {
                assert(rest@[k] == old_rest[k + 1]);
                assert(input_view(old_rest)[k + 1] == iv[k + 1 + i]);
            }
            let ghost bs = blocks_shape(blocks@);
            assert(bs == shp[i as int]);
            proof {
                lemma_chars_before_mono(shp, i + 1, n as int);
                lemma_chars_before_nonneg(shp, i as int);
                assert(chars_before(shp, i + 1) == chars_before(shp, i as int) + chapter_chars(shp[i as int]));
            }
            let mut total: usize = 0;
            let mut b: usize = 0;
            while b < blocks.len()
                invariant
                    b <= blocks@.len(),
                    bs == blocks_shape(blocks@),
                    shapes_ok(bs),
                    chapter_chars(bs) <= usize::MAX,
                    total == chapter_chars(bs.take(b as int)),
                decreases blocks@.len() - b,
            {
                let sh = block_shape(&blocks[b]);
                proof {
                    assert(bs.take(b + 1).drop_last() =~= bs.take(b as int));
                    lemma_chapter_chars_prefix(bs, b + 1);
                }
                total = total + sh.1;
                b += 1;
            }
            assert(bs.take(b as int) =~= bs);
            contents.push(ChapterContent { title, blocks, char_count: total });
            i += 1;
        }
        let mut p = Paginator { chapters: contents, chars_per_page, pages: Vec::new() };
        assert(p.shapes() =~= shp);
        assert(p.content() =~= iv);
        p.repaginate();
        p
    }

    /// Cuts the chapters into pages again.
    fn repaginate(&mut self)
        requires
            old(self).chars_per_page >= 1,
            chars_before(old(self).shapes(), old(self).shapes().len() as int) <= usize::MAX,
        ensures
            final(self).chapters == old(self).chapters,
            final(self).chars_per_page == old(self).chars_per_page,
            final(self).pages() == paginate(old(self).shapes(), old(self).cpp()),
    {
        let ghost shp = self.shapes();
        let cpp = self.chars_per_page;
        let mut acc = Acc { pages: Vec::new(), entries: Vec::new(), count: 0, start: 0, chapter: 0, global: 0 };
        assert(pages_v(acc.pages@) =~= Seq::<PageV>::empty());
        assert(entries_v(acc.entries@) =~= Seq::<(int, int, int)>::empty());
        assert(acc_v(acc) == initial());
        let n = self.chapters.len();
        proof {
            assert forall|k: int| 0 <= k < shp.len() implies shapes_ok(#[trigger] shp[k]) by {}
        }
        let mut ci: usize = 0;
        while ci < n
            invariant
                ci <= n,
                n == shp.len(),
                shp == self.shapes(),
                cpp == self.chars_per_page,
                cpp >= 1,
                forall|k: int| 0 <= k < shp.len() ==> shapes_ok(#[trigger] shp[k]),
                chars_before(shp, n as int) <= usize::MAX,
                acc_ok(acc, cpp as int),
                acc.global == chars_before(shp, ci as int),
                acc_v(acc) == chapters_fold(initial(), shp, cpp as int, ci as int),
            decreases n - ci,
        {
            let nb = self.chapters[ci].blocks.len();
            let ghost bs = shp[ci as int];
            assert(bs == blocks_shape(self.chapters@[ci as int].blocks@));
            proof {
                lemma_chars_before_mono(shp, ci + 1, n as int);
            }
            if nb > 0 {
                if ci > 0 && acc.entries.len() > 0 {
                    flush_acc(&mut acc);
                }
                acc.chapter = ci;
                let ghost st2 = acc_v(acc);
                let mut bi: usize = 0;
                while bi < nb
                    invariant
                        bi <= nb,
                        nb == bs.len(),
                        ci < n,
                        n == self.chapters@.len(),
                        bs == blocks_shape(self.chapters@[ci as int].blocks@),
                        shapes_ok(bs),
                        cpp >= 1,
                        acc_ok(acc, cpp as int),
                        acc.chapter == ci,
                        chars_before(shp, ci as int) + chapter_chars(bs) <= usize::MAX,
                        acc.global == chars_before(shp, ci as int) + chapter_chars(bs.take(bi as int)),
                        acc_v(acc) == blocks_fold(st2, bs, cpp as int, bi as int),
                    decreases nb - bi,
                {
                    let sh = block_shape(&self.chapters[ci].blocks[bi]);
                    assert((sh.0, sh.1 as int) == bs[bi as int]);
                    proof {
                        assert(bs.take(bi + 1).drop_last() =~= bs.take(bi as int));
                        lemma_chapter_chars_prefix(bs, bi + 1);
                    }
                    block_acc(&mut acc, bi, sh, cpp);
                    bi += 1;
                }
                assert(bs.take(nb as int) =~= bs);
            }
            ci += 1;
        }
        if acc.entries.len() > 0 {
            flush_acc(&mut acc);
        }
        self.pages = acc.pages;
    }

    /// Pages again at a new number of characters a page, when it changed.
    pub fn set_chars_per_page(&mut self, chars_per_page: usize)
        requires
            old(self).wf(),
            chars_per_page >= 1,
        ensures
            final(self).wf(),
            final(self).content() == old(self).content(),
            final(self).shapes() == old(self).shapes(),
            final(self).cpp() == chars_per_page,
    {
        if chars_per_page != self.chars_per_page {
            self.chars_per_page = chars_per_page;
            self.repaginate();
        }
    }

    /// The number of pages.
    pub fn page_count(&self) -> (n: usize)
        ensures
            n == self.pages().len(),
    {
        self.pages.len()
    }

    /// The entries of a page; none past the last page.
    pub fn page_entries(&self, page: usize) -> (out: &[PageEntry])
        ensures
            page < self.pages().len() ==> entries_v(out@) == self.pages()[page as int].entries,
            page >= self.pages().len() ==> out@.len() == 0,
    {
        if page >= self.pages.len() {
            return &[];
        }
        self.pages[page].entries.as_slice()
    }

    /// The chapter of a page.
    pub fn chapter_idx_for_page(&self, page: usize) -> (out: Option<usize>)
        ensures
            page < self.pages().len() ==> out == Some(self.pages()[page as int].chapter as usize),
            page >= self.pages().len() ==> out is None,
    {
        if page < self.pages.len() {
            Some(self.pages[page].chapter_idx)
        } else {
            None
        }
    }

    /// The first page of chapter `chapter_idx` (or of a later one), else
    /// the last page.
    pub fn find_page_for_chapter(&self, chapter_idx: usize) -> (r: usize)
        ensures
            page_for_chapter(self.pages(), chapter_idx as int, r as int),
    {
        let mut i: usize = 0;
        while i < self.pages.len()
            invariant
                i <= self.pages@.len(),
                forall|j: int| 0 <= j < i ==> #[trigger] self.pages()[j].chapter < chapter_idx,
            decreases self.pages@.len() - i,
        {
            if self.pages[i].chapter_idx >= chapter_idx {
                assert(self.pages()[i as int].chapter >= chapter_idx);
                return i;
            }
            i += 1;
        }
        if self.pages.len() > 0 {
            self.pages.len() - 1
        } else {
            0
        }
    }

    /// The characters of the chapters before `ci`.
    fn chars_before_chapter(&self, ci: usize) -> (r: usize)
        requires
            self.wf(),
        ensures
            r == chars_before(self.shapes(), if ci <= self.shapes().len() {
                ci as int
            } else {
                self.shapes().len() as int
            }),
    {
        let ghost shp = self.shapes();
        let n = self.chapters.len();
        let m = if ci <= n {
            ci
        } else {
            n
        };
        proof {
            assert forall|k: int| 0 <= k < shp.len() implies shapes_ok(#[trigger] shp[k]) by {}
        }
        let mut running: usize = 0;
        let mut k: usize = 0;
        while k < m
            invariant
                k <= m <= n,
                n == shp.len(),
                shp == self.shapes(),
                self.wf(),
                forall|j: int| 0 <= j < shp.len() ==> shapes_ok(#[trigger] shp[j]),
                running == chars_before(shp, k as int),
            decreases m - k,
        {
            proof {
                lemma_chars_before_mono(shp, k + 1, n as int);
            }
            assert(self.chapters@[k as int].char_count == chapter_chars(shp[k as int]));
            running = running + self.chapters[k].char_count;
            k += 1;
        }
        running
    }

    /// The page that holds character `char_offset` of chapter
    /// `chapter_idx`: the first page ending after it, else the last page.
    pub fn find_page_for_char(&self, chapter_idx: usize, char_offset: usize) -> (r: usize)
        requires
            self.wf(),
            chars_before(self.shapes(), if chapter_idx <= self.shapes().len() {
                chapter_idx as int
            } else {
                self.shapes().len() as int
            }) + char_offset <= usize::MAX,
        ensures
            page_for_char(
                self.pages(),
                chars_before(self.shapes(), if chapter_idx <= self.shapes().len() {
                    chapter_idx as int
                } else {
                    self.shapes().len() as int
                }) + char_offset,
                r as int,
            ),
    {
        let running = self.chars_before_chapter(chapter_idx);
        let g = running + char_offset;
        let ghost gg = chars_before(self.shapes(), if chapter_idx <= self.shapes().len() {
            chapter_idx as int
        } else {
            self.shapes().len() as int
        }) + char_offset;
        assert(g == gg);
        let mut i: usize = 0;
        while i < self.pages.len()
            invariant
                i <= self.pages@.len(),
                g == gg,
                gg == chars_before(self.shapes(), if chapter_idx <= self.shapes().len() {
                    chapter_idx as int
                } else {
                    self.shapes().len() as int
                }) + char_offset,
                forall|j: int| 0 <= j < i ==> #[trigger] self.pages()[j].end <= g,
            decreases self.pages@.len() - i,
        {
            if self.pages[i].char_end > g {
                assert(self.pages()[i as int].end > g);
                return i;
            }
            i += 1;
        }
        if self.pages.len() > 0 {
            self.pages.len() - 1
        } else {
            0
        }
    }

    /// A page's chapter and the run of that chapter's characters it holds
    /// (offsets within the chapter); `(0, 0, 0)` past the last page.
    pub fn chapter_range_for_page(&self, page: usize) -> (out: (usize, usize, usize))
        requires
            self.wf(),
        ensures
            page >= self.pages().len() ==> out == (0usize, 0usize, 0usize),
            page < self.pages().len() ==> {
                let pg = self.pages()[page as int];
                let before = chars_before(self.shapes(), if pg.chapter <= self.shapes().len() {
                    pg.chapter
                } else {
                    self.shapes().len() as int
                });
                &&& out.0 == pg.chapter
                &&& out.1 == sat_sub(pg.start, before)
                &&& out.2 == sat_sub(pg.end, before)
            },
    {
        if page >= self.pages.len() {
            return (0, 0, 0);
        }
        let p = &self.pages[page];
        let before = self.chars_before_chapter(p.chapter_idx);
        let s = if p.char_start >= before {
            p.char_start - before
        } else {
            0
        };
        let e = if p.char_end >= before {
            p.char_end - before
        } else {
            0
        };
        (p.chapter_idx, s, e)
    }
}

} // verus!
