//! Planning PDF operations: page ranges, chunks, chapter splits and the
//! output file names; `mupdf` carries them out.
use vstd::prelude::*;
use crate::chapters::{decimal, decimal_chars};
use crate::chapters::TocEntry;
use crate::text::{chars_of, copy_chars, push_all, string_from_chars};

verus! {

/// Decimal text of `n`.
pub fn decimal_string(n: usize) -> (s: String)
    ensures
        s@ == decimal(n as nat),
{
    let d = decimal_chars(n);
    string_from_chars(d.as_slice())
}

/// The 0-based half-open range of pages `start..=end` (1-based, as the
/// user gives them) in a document of `total` pages: the start is clamped
/// to the first and last page, the end to at least the start and at most
/// `total`.
pub open spec fn range_bounds(start: nat, end: nat, total: nat) -> (int, int) {
    let s0 = (if start >= 1 {
        start
    } else {
        1
    }) - 1;
    let last = if total >= 1 {
        total - 1
    } else {
        0
    };
    let s = if s0 <= last {
        s0
    } else {
        last
    };
    let e0 = if end >= start {
        end
    } else {
        start
    };
    let e = if e0 <= total {
        e0
    } else {
        total
    };
    (s as int, e as int)
}

/// `Invalid page range {start}..{end} (total pages: {total})`.
pub open spec fn range_error(start: nat, end: nat, total: nat) -> Seq<char> {
    "Invalid page range "@ + decimal(start) + ".."@ + decimal(end) + " (total pages: "@ + decimal(
        total,
    ) + ")"@
}

/// A range split fails only on a document without pages, or on the range
/// `0..0`; otherwise the pages it copies lie within the document, and it
/// copies at least one.
pub proof fn lemma_range_fails_only_when_empty(start: nat, end: nat, total: nat)
    ensures
        (range_bounds(start, end, total).0 >= range_bounds(start, end, total).1) <==> (total == 0 || (
        start == 0 && end == 0)),
        range_bounds(start, end, total).0 < range_bounds(start, end, total).1 ==> 0 <= range_bounds(
            start,
            end,
            total,
        ).0 < range_bounds(start, end, total).1 <= total,
{
}

/// The pages to copy for a range split, or the error when the range holds
/// no page.
pub fn split_range(start: usize, end: usize, total: usize) -> (out: Result<(usize, usize), String>)
    ensures
        range_bounds(start as nat, end as nat, total as nat).0 < range_bounds(start as nat, end as nat, total as nat).1
            ==> out == Ok::<(usize, usize), String>((
            range_bounds(start as nat, end as nat, total as nat).0 as usize,
            range_bounds(start as nat, end as nat, total as nat).1 as usize,
        )),
        range_bounds(start as nat, end as nat, total as nat).0 >= range_bounds(start as nat, end as nat, total as nat).1
            ==> (out matches Err(e) && e@ == range_error(start as nat, end as nat, total as nat)),
{
    let s0 = (if start >= 1 {
        start
    } else {
        1
    }) - 1;
    let last = if total >= 1 {
        total - 1
    } else {
        0
    };
    let s = if s0 <= last {
        s0
    } else {
        last
    };
    let e0 = if end >= start {
        end
    } else {
        start
    };
    let e = if e0 <= total {
        e0
    } else {
        total
    };
    if s >= e {
        proof {
            reveal_strlit("Invalid page range ");
            reveal_strlit("..");
            reveal_strlit(" (total pages: ");
            reveal_strlit(")");
        }
        let mut m = chars_of("Invalid page range ");
        push_all(&mut m, decimal_chars(start).as_slice());
        push_all(&mut m, chars_of("..").as_slice());
        push_all(&mut m, decimal_chars(end).as_slice());
        push_all(&mut m, chars_of(" (total pages: ").as_slice());
        push_all(&mut m, decimal_chars(total).as_slice());
        push_all(&mut m, chars_of(")").as_slice());
        assert(m@ =~= range_error(start as nat, end as nat, total as nat));
        return Err(string_from_chars(m.as_slice()));
    }
    Ok((s, e))
}

/// The chunks of `n` pages (at least one) that cover `total` pages: chunk
/// `k` is `k*n .. min(k*n + n, total)`.
pub open spec fn chunk_ranges(total: nat, n: nat) -> Seq<(int, int)> {
    let m = if n >= 1 {
        n
    } else {
        1
    };
    let count = (total + m - 1) / (m as int);
    Seq::new(
        count as nat,
        |k: int|
            (k * m, if k * m + m <= total {
                k * m + m
            } else {
                total as int
            }),
    )
}

/// The chunks of a split every `n` pages tile the document: the first
/// starts at page 0, each starts where the one before ends, the last ends
/// at the last page, and each holds at least one page and at most `n`
/// (at most one when `n` is 0).
pub proof fn lemma_chunks_tile(total: nat, n: nat)
    ensures
        ({
            let c = chunk_ranges(total, n);
            let m = if n >= 1 {
                n as int
            } else {
                1
            };
            &&& total == 0 <==> c.len() == 0
            &&& c.len() > 0 ==> c[0].0 == 0 && c.last().1 == total
            &&& forall|k: int| 0 <= k < c.len() ==> 0 < (#[trigger] c[k]).1 - c[k].0 <= m
            &&& forall|k: int| 0 <= k && k + 1 < c.len() ==> (#[trigger] c[k]).1 == c[k + 1].0
        }),
{
    let c = chunk_ranges(total, n);
    let m = if n >= 1 {
        n as int
    } else {
        1
    };
    let count = (total + m - 1) / m;
    assert(c.len() == count);
    assert(total == 0 <==> count == 0) by (nonlinear_arith)
        requires
            m >= 1,
            count == (total + m - 1) / m,
            total >= 0,
    ;
    assert forall|k: int| 0 <= k < c.len() implies 0 < (#[trigger] c[k]).1 - c[k].0 <= m by {
        assert(k * m < total) by (nonlinear_arith)
            requires
                m >= 1,
                0 <= k < count,
                count == (total + m - 1) / m,
        ;
    }
    assert forall|k: int| 0 <= k && k + 1 < c.len() implies (#[trigger] c[k]).1 == c[k + 1].0 by {
        assert((k + 1) * m < total) by (nonlinear_arith)
            requires
                m >= 1,
                0 <= k + 1 < count,
                count == (total + m - 1) / m,
        ;
        assert((k + 1) * m == k * m + m) by (nonlinear_arith);
    }
    if c.len() > 0 {
        let k = count - 1;
        assert(k * m < total && total <= k * m + m) by (nonlinear_arith)
            requires
                m >= 1,
                count >= 1,
                k == count - 1,
                count == (total + m - 1) / m,
        ;
        assert(c[0].0 == 0 * m);
    }
}

/// The page chunks of a split every `n` pages.
pub fn split_chunks(total: usize, n: usize) -> (out: Vec<(usize, usize)>)
    ensures
        out@.map_values(|c: (usize, usize)| (c.0 as int, c.1 as int)) == chunk_ranges(total as nat, n as nat),
{
    let m = if n >= 1 {
        n
    } else {
        1
    };
    let q = total / m;
    let r = total % m;
    let count: usize = if r == 0 {
        q
    } else {
        assert(q < total) by (nonlinear_arith)
            requires
                m >= 1,
                q == total / m,
                r == total % m,
                r != 0,
        ;
        q + 1
    };
    proof {
        assert(count == (total + m - 1) / (m as int)) by (nonlinear_arith)
            requires
                m >= 1,
                q == total / m,
                r == total % m,
                count == (if r == 0 { q as int } else { q + 1 }),
        ;
        assert(forall|k: int| 0 <= k < count ==> #[trigger] (k * m) < total) by (nonlinear_arith)
            requires
                m >= 1,
                q == total / m,
                r == total % m,
                count == (if r == 0 { q as int } else { q + 1 }),
        ;
    }
    let mut out: Vec<(usize, usize)> = Vec::new();
    let mut k: usize = 0;
    while k < count
        invariant
            m >= 1,
            k <= count,
            count == (total + m - 1) / (m as int),
            forall|i: int| 0 <= i < count ==> #[trigger] (i * m) < total,
            out@.len() == k,
            forall|j: int| 0 <= j < k ==> (#[trigger] out@[j]).0 == j * m && out@[j].1 == (if j * m + m <= total {
                j * m + m
            } else {
                total as int
            }),
        decreases count - k,
    {
        assert((k as int) * m < total);
        let start = k * m;
        let end = if total - start >= m {
            start + m
        } else {
            total
        };
        out.push((start, end));
        k += 1;
    }
    assert(out@.map_values(|c: (usize, usize)| (c.0 as int, c.1 as int)) =~= chunk_ranges(total as nat, n as nat));
    out
}

/// One entry of a PDF outline: its title, the page it points to (if it
/// points anywhere) and the entries under it.
pub struct OutlineNode {
    pub title: String,
    pub page: Option<usize>,
    pub down: Vec<OutlineNode>,
}

/// A (title, page) pair as plain values.
pub open spec fn entry_view() -> spec_fn((String, usize)) -> (Seq<char>, int) {
    |e: (String, usize)| (e.0@, e.1 as int)
}

/// The page an outline entry stands for: its target, or page 0.
pub open spec fn node_page(n: OutlineNode) -> int {
    match n.page {
        Some(p) => p as int,
        None => 0,
    }
}

/// The outline in reading order: each entry, then the entries under it.
pub open spec fn flat_outline(nodes: Seq<OutlineNode>) -> Seq<(Seq<char>, int)>
    decreases nodes,
{
    if nodes.len() == 0 {
        Seq::empty()
    } else {
        proof {
            assert(decreases_to!(nodes => nodes[0]));
            assert(decreases_to!(nodes[0] => nodes[0].down));
            assert(decreases_to!(nodes[0].down => nodes[0].down@));
        }
        seq![(nodes[0].title@, node_page(nodes[0]))] + flat_outline(nodes[0].down@) + flat_outline(
            nodes.subrange(1, nodes.len() as int),
        )
    }
}

/// Appends the outline's entries to `result`, in reading order.
pub fn collect_outlines(outlines: &[OutlineNode], result: &mut Vec<(String, usize)>)
    ensures
        final(result)@.map_values(entry_view()) == old(result)@.map_values(entry_view())
            + flat_outline(outlines@),
    decreases outlines@,
{
    let ghost start = result@.map_values(entry_view());
    let ghost all = outlines@;
    assert(all.subrange(0, all.len() as int) =~= all);
    let mut i: usize = 0;
    while i < outlines.len()
        invariant
            i <= all.len(),
            all == outlines@,
            start == old(result)@.map_values(entry_view()),
            start + flat_outline(all) == result@.map_values(entry_view()) + flat_outline(
                all.subrange(i as int, all.len() as int),
            ),
        decreases all.len() - i,
    {
        let n = &outlines[i];
        let page = match n.page {
            Some(p) => p,
            None => 0,
        };
        let ghost before = result@.map_values(entry_view());
        let ghost rest = all.subrange(i as int, all.len() as int);
        assert(rest[0] == all[i as int]);
        assert(rest.subrange(1, rest.len() as int) =~= all.subrange(i + 1, all.len() as int));
        result.push((n.title.clone(), page));
        assert(result@.map_values(entry_view()) =~= before.push((all[i as int].title@, node_page(all[i as int]))));
        proof {
            assert(decreases_to!(all => all[i as int]));
            assert(decreases_to!(all[i as int] => all[i as int].down));
            assert(decreases_to!(all[i as int].down => all[i as int].down@));
        }
        collect_outlines(n.down.as_slice(), result);
        i += 1;
    }
}

/// Entry `k` is the first of `s` that points to its page.
pub open spec fn first_for_page(s: Seq<(Seq<char>, int)>, k: int) -> bool {
    &&& 0 <= k < s.len()
    &&& forall|j: int| 0 <= j < k ==> s[j].1 != s[k].1
}

/// Some entry of `r` points to page `p`.
pub open spec fn has_page(r: Seq<(Seq<char>, int)>, p: int) -> bool {
    exists|i: int| 0 <= i < r.len() && #[trigger] r[i].1 == p
}

/// `e` is the first entry of `s` for its page.
pub open spec fn first_entry(s: Seq<(Seq<char>, int)>, e: (Seq<char>, int)) -> bool {
    exists|k: int| #[trigger] first_for_page(s, k) && s[k] == e
}

/// `r` is `s` ordered by page with one entry per page: the one that came
/// first.
pub open spec fn by_page(s: Seq<(Seq<char>, int)>, r: Seq<(Seq<char>, int)>) -> bool {
    &&& forall|i: int, j: int| 0 <= i < j < r.len() ==> r[i].1 < r[j].1
    &&& forall|i: int| 0 <= i < r.len() ==> first_entry(s, #[trigger] r[i])
    &&& forall|k: int| 0 <= k < s.len() ==> has_page(r, #[trigger] s[k].1)
}

/// The entries sorted by page (a stable sort) with repeated pages dropped,
/// the first kept.
pub fn toc_pages(items: &Vec<(String, usize)>) -> (out: Vec<(String, usize)>)
    ensures
        by_page(items@.map_values(entry_view()), out@.map_values(entry_view())),
{
    let ghost sv = items@.map_values(entry_view());
    let mut out: Vec<(String, usize)> = Vec::new();
    let ghost mut idx: Seq<int> = Seq::empty();
    let mut k: usize = 0;
    while k < items.len()
        invariant
            k <= items@.len(),
            sv == items@.map_values(entry_view()),
            idx.len() == out@.len(),
            forall|i: int, j: int| 0 <= i < j < out@.len() ==> out@[i].1 < out@[j].1,
            forall|i: int|
                0 <= i < out@.len() ==> 0 <= #[trigger] idx[i] < k && first_for_page(sv, idx[i])
                    && sv[idx[i]] == (out@[i].0@, out@[i].1 as int),
            forall|j: int| 0 <= j < k ==> has_page(out@.map_values(entry_view()), #[trigger] sv[j].1),
        decreases items@.len() - k,
    {
        let p = items[k].1;
        let mut pos: usize = 0;
        while pos < out.len() && out[pos].1 < p
            invariant
                pos <= out@.len(),
                forall|i: int| 0 <= i < pos ==> out@[i].1 < p,
            decreases out@.len() - pos,
        {
            pos += 1;
        }
        let ghost ov = out@.map_values(entry_view());
        if pos < out.len() && out[pos].1 == p {
            assert(ov[pos as int].1 == sv[k as int].1);
        } else {
            assert(!has_page(ov, p as int)) by {
                if has_page(ov, p as int) {
                    let i = choose|i: int| 0 <= i < ov.len() && #[trigger] ov[i].1 == p as int;
                    if i < pos {
                        assert(out@[i].1 < p);
                    } else if i > pos {
                        assert(out@[pos as int].1 < out@[i].1);
                    }
                }
            }
            assert(first_for_page(sv, k as int)) by {
                assert forall|j: int| 0 <= j < k implies sv[j].1 != sv[k as int].1 by {
                    assert(has_page(ov, sv[j].1));
                }
            }
            let title = items[k].0.clone();
            out.insert(pos, (title, p));
            proof {
                idx = idx.insert(pos as int, k as int);
                let nv = out@.map_values(entry_view());
                assert forall|j: int| 0 <= j < k + 1 implies has_page(nv, #[trigger] sv[j].1) by {
                    if j == k {
                        assert(nv[pos as int].1 == sv[j].1);
                    } else {
                        assert(has_page(ov, sv[j].1));
                        let i = choose|i: int| 0 <= i < ov.len() && #[trigger] ov[i].1 == sv[j].1;
                        if i < pos {
                            assert(nv[i].1 == ov[i].1);
                        } else {
                            assert(nv[i + 1].1 == ov[i].1);
                        }
                    }
                }
            }
        }
        k += 1;
    }
    proof {
        let ov = out@.map_values(entry_view());
        assert forall|i: int| 0 <= i < ov.len() implies first_entry(sv, #[trigger] ov[i]) by {
            assert(ov[i] == (out@[i].0@, out@[i].1 as int));
            assert(first_for_page(sv, idx[i]) && sv[idx[i]] == ov[i]);
        }
        assert forall|i: int, j: int| 0 <= i < j < ov.len() implies ov[i].1 < ov[j].1 by {
            assert(out@[i].1 < out@[j].1);
        }
        assert forall|j: int| 0 <= j < sv.len() implies has_page(ov, #[trigger] sv[j].1) by {}
        assert(by_page(sv, ov));
    }
    out
}

/// Whether `char::is_alphanumeric` holds of `c`.
pub uninterp spec fn unicode_alnum(c: char) -> bool;

/// An ASCII letter or digit.
pub open spec fn ascii_alnum(c: char) -> bool {
    ('a' <= c && c <= 'z') || ('A' <= c && c <= 'Z') || ('0' <= c && c <= '9')
}

/// `char::is_alphanumeric`: the result is `unicode_alnum(c)`, and on an
/// ASCII character it holds exactly of the letters and digits (the
/// alphabetic and numeric characters of ASCII, as std documents them).
#[verifier::external_body]
fn is_alnum(c: char) -> (r: bool)
    ensures
        r == unicode_alnum(c),
        (c as u32) < 128 ==> (r == ascii_alnum(c)),
{
    c.is_alphanumeric()
}

/// A character of a file name made from a chapter title: letters, digits,
/// `-` and `_` stay, anything else becomes `_`.
pub open spec fn safe_char(c: char) -> char {
    if unicode_alnum(c) || c == '-' || c == '_' {
        c
    } else {
        '_'
    }
}

/// A chapter title made safe for a file name.
pub open spec fn safe_title(t: Seq<char>) -> Seq<char> {
    t.map_values(|c: char| safe_char(c))
}

/// The file name part for chapter `i` (0-based): its safe title, or
/// `chapter_{i+1}` when the title is empty.
pub open spec fn chapter_name(i: nat, title: Seq<char>) -> Seq<char> {
    if title.len() == 0 {
        "chapter_"@ + decimal(i + 1)
    } else {
        safe_title(title)
    }
}

/// `{dir}/{name}`.
pub open spec fn in_dir(dir: Seq<char>, name: Seq<char>) -> Seq<char> {
    dir + "/"@ + name
}

/// `{dir}/{stem}_{name}.pdf` for chapter `i`.
pub open spec fn chapter_path(dir: Seq<char>, stem: Seq<char>, i: nat, title: Seq<char>) -> Seq<char> {
    in_dir(dir, stem + "_"@ + chapter_name(i, title) + ".pdf"@)
}

/// A run of pages `start..end` (0-based, end excluded) to write to `path`.
pub struct PageCut {
    pub start: usize,
    pub end: usize,
    pub path: String,
}

/// A page run as plain values.
pub open spec fn cut_view() -> spec_fn(PageCut) -> (int, int, Seq<char>) {
    |c: PageCut| (c.start as int, c.end as int, c.path@)
}

/// Where chapter `i` of an ordered table of contents ends: at the next
/// entry's page, or at the end of the document.
pub open spec fn chapter_end(toc: Seq<(Seq<char>, int)>, i: int, total: int) -> int {
    if i + 1 < toc.len() {
        toc[i + 1].1
    } else {
        total
    }
}

/// The chapter files of the first `n` entries of an ordered table of
/// contents; an entry whose run holds no page is skipped.
pub open spec fn toc_cuts(
    toc: Seq<(Seq<char>, int)>,
    total: int,
    dir: Seq<char>,
    stem: Seq<char>,
    n: int,
) -> Seq<(int, int, Seq<char>)>
    decreases n,
{
    if n <= 0 {
        Seq::empty()
    } else {
        let i = n - 1;
        let prev = toc_cuts(toc, total, dir, stem, i);
        if toc[i].1 < chapter_end(toc, i, total) {
            prev.push((toc[i].1, chapter_end(toc, i, total), chapter_path(dir, stem, i as nat, toc[i].0)))
        } else {
            prev
        }
    }
}

fn safe_title_chars(t: &[char]) -> (out: Vec<char>)
    ensures
        out@ == safe_title(t@),
{
    let mut out: Vec<char> = Vec::new();
    let mut i: usize = 0;
    while i < t.len()
        invariant
            i <= t@.len(),
            out@ == safe_title(t@.take(i as int)),
        decreases t@.len() - i,
    {
        let c = t[i];
        let keep = is_alnum(c) || c == '-' || c == '_';
        out.push(if keep {
            c
        } else {
            '_'
        });
        assert(safe_title(t@.take(i + 1)) =~= safe_title(t@.take(i as int)).push(safe_char(c)));
        i += 1;
    }
    assert(t@.take(t@.len() as int) =~= t@);
    out
}

/// `{dir}/{name}` as characters.
fn path_in_dir(dir: &str, name: &[char]) -> (out: String)
    ensures
        out@ == in_dir(dir@, name@),
{
    let mut v = chars_of(dir);
    v.push('/');
    push_all(&mut v, name);
    proof {
        reveal_strlit("/");
    }
    assert(v@ =~= in_dir(dir@, name@));
    string_from_chars(v.as_slice())
}

/// The chapter files of a split by table of contents: `toc` ordered by
/// page with one entry per page, the document of `total` pages, the output
/// folder and the input's stem.
pub fn toc_split_plan(toc: &Vec<(String, usize)>, total: usize, dir: &str, stem: &str) -> (out: Vec<
    PageCut,
>)
    ensures
        out@.map_values(cut_view()) == toc_cuts(
            toc@.map_values(entry_view()),
            total as int,
            dir@,
            stem@,
            toc@.len() as int,
        ),
{
    let ghost tv = toc@.map_values(entry_view());
    let mut out: Vec<PageCut> = Vec::new();
    let mut i: usize = 0;
    while i < toc.len()
        invariant
            i <= toc@.len(),
            tv == toc@.map_values(entry_view()),
            out@.map_values(cut_view()) == toc_cuts(tv, total as int, dir@, stem@, i as int),
        decreases toc@.len() - i,
    {
        let start = toc[i].1;
        let end = if i + 1 < toc.len() {
            toc[i + 1].1
        } else {
            total
        };
        assert(end == chapter_end(tv, i as int, total as int));
        let ghost prev = out@.map_values(cut_view());
        if start < end {
            proof {
                reveal_strlit("_");
                reveal_strlit(".pdf");
                reveal_strlit("chapter_");
            }
            let title = chars_of(toc[i].0.as_str());
            assert(title@ == tv[i as int].0);
            let ghost cn = chapter_name(i as nat, tv[i as int].0);
            let mut name: Vec<char> = chars_of(stem);
            name.push('_');
            if title.len() == 0 {
                push_all(&mut name, chars_of("chapter_").as_slice());
                push_all(&mut name, decimal_chars(i + 1).as_slice());
                assert(name@ =~= stem@ + "_"@ + cn);
            } else {
                push_all(&mut name, safe_title_chars(title.as_slice()).as_slice());
                assert(name@ =~= stem@ + "_"@ + cn);
            }
            push_all(&mut name, chars_of(".pdf").as_slice());
            assert(name@ =~= stem@ + "_"@ + chapter_name(i as nat, tv[i as int].0) + ".pdf"@);
            let path = path_in_dir(dir, name.as_slice());
            out.push(PageCut { start, end, path });
            assert(out@.map_values(cut_view()) =~= prev.push(
                (tv[i as int].1, chapter_end(tv, i as int, total as int), chapter_path(dir@, stem@, i as nat, tv[i as int].0)),
            ));
        }
        i += 1;
    }
    out
}

/// `{dir}/{stem}_p{start+1}-p{end}.pdf`: the file of pages `start..end`.
pub open spec fn chunk_path(dir: Seq<char>, stem: Seq<char>, start: int, end: int) -> Seq<char> {
    in_dir(dir, stem + "_p"@ + decimal((start + 1) as nat) + "-p"@ + decimal(end as nat) + ".pdf"@)
}

/// The files of a split every `n` pages.
pub open spec fn chunk_cuts(total: nat, n: nat, dir: Seq<char>, stem: Seq<char>) -> Seq<(int, int, Seq<char>)> {
    chunk_ranges(total, n).map_values(|c: (int, int)| (c.0, c.1, chunk_path(dir, stem, c.0, c.1)))
}

/// The files of a split of `total` pages every `n` pages.
pub fn every_n_plan(total: usize, n: usize, dir: &str, stem: &str) -> (out: Vec<PageCut>)
    ensures
        out@.map_values(cut_view()) == chunk_cuts(total as nat, n as nat, dir@, stem@),
{
    let chunks = split_chunks(total, n);
    let ghost cr = chunk_ranges(total as nat, n as nat);
    assert(chunks@.len() == cr.len());
    let mut out: Vec<PageCut> = Vec::new();
    let mut i: usize = 0;
    while i < chunks.len()
        invariant
            i <= chunks@.len(),
            cr == chunk_ranges(total as nat, n as nat),
            chunks@.map_values(|c: (usize, usize)| (c.0 as int, c.1 as int)) == cr,
            out@.map_values(cut_view()) == chunk_cuts(total as nat, n as nat, dir@, stem@).take(i as int),
        decreases chunks@.len() - i,
    {
        proof {
            reveal_strlit("_p");
            reveal_strlit("-p");
            reveal_strlit(".pdf");
        }
        let (start, end) = chunks[i];
        assert((start as int, end as int) == cr[i as int]);
        assert(start < end) by {
            let m = if n >= 1 { n as int } else { 1 };
            assert(cr[i as int].0 == i * m);
            assert(i * m < total) by (nonlinear_arith)
                requires
                    m >= 1,
                    0 <= i < (total + m - 1) / m,
            ;
        }
        let mut name: Vec<char> = chars_of(stem);
        push_all(&mut name, chars_of("_p").as_slice());
        push_all(&mut name, decimal_chars(start + 1).as_slice());
        push_all(&mut name, chars_of("-p").as_slice());
        push_all(&mut name, decimal_chars(end).as_slice());
        push_all(&mut name, chars_of(".pdf").as_slice());
        assert(name@ =~= stem@ + "_p"@ + decimal((start + 1) as nat) + "-p"@ + decimal(end as nat) + ".pdf"@);
        let path = path_in_dir(dir, name.as_slice());
        assert(path@ == chunk_path(dir@, stem@, start as int, end as int));
        let ghost cc = chunk_cuts(total as nat, n as nat, dir@, stem@);
        assert(cc[i as int] == (start as int, end as int, path@));
        let ghost prev = out@.map_values(cut_view());
        out.push(PageCut { start, end, path });
        assert(out@.map_values(cut_view()) =~= prev.push(cc[i as int]));
        assert(cc.take(i + 1) =~= cc.take(i as int).push(cc[i as int]));
        i += 1;
    }
    assert(chunk_cuts(total as nat, n as nat, dir@, stem@).take(i as int) =~= chunk_cuts(total as nat, n as nat, dir@, stem@));
    out
}

/// `{dir}/{stem}_p{p+1}.png`: the image of page `p`.
pub open spec fn page_image_path(dir: Seq<char>, stem: Seq<char>, p: int) -> Seq<char> {
    in_dir(dir, stem + "_p"@ + decimal((p + 1) as nat) + ".png"@)
}

/// The image files of the given pages, in their order.
pub fn page_image_paths(dir: &str, stem: &str, pages: &[usize]) -> (out: Vec<String>)
    requires
        forall|i: int| 0 <= i < pages@.len() ==> pages@[i] < usize::MAX,
    ensures
        out@.len() == pages@.len(),
        forall|i: int| 0 <= i < pages@.len() ==> (#[trigger] out@[i])@ == page_image_path(dir@, stem@, pages@[i] as int),
{
    let mut out: Vec<String> = Vec::new();
    let mut i: usize = 0;
    while i < pages.len()
        invariant
            i <= pages@.len(),
            forall|j: int| 0 <= j < pages@.len() ==> pages@[j] < usize::MAX,
            out@.len() == i,
            forall|j: int| 0 <= j < i ==> (#[trigger] out@[j])@ == page_image_path(dir@, stem@, pages@[j] as int),
        decreases pages@.len() - i,
    {
        proof {
            reveal_strlit("_p");
            reveal_strlit(".png");
        }
        let p = pages[i];
        let mut name: Vec<char> = chars_of(stem);
        push_all(&mut name, chars_of("_p").as_slice());
        push_all(&mut name, decimal_chars(p + 1).as_slice());
        push_all(&mut name, chars_of(".png").as_slice());
        assert(name@ =~= stem@ + "_p"@ + decimal((p + 1) as nat) + ".png"@);
        out.push(path_in_dir(dir, name.as_slice()));
        i += 1;
    }
    out
}

/// The text of a whole document from the text of its pages: the pages in
/// order, each after the first preceded by a `--- Page {n} ---` line set
/// off by blank lines.  `n` counts the first `n` pages.
pub open spec fn joined_pages(pages: Seq<Seq<char>>, n: int) -> Seq<char>
    decreases n,
{
    if n <= 0 {
        Seq::empty()
    } else if n == 1 {
        pages[0]
    } else {
        joined_pages(pages, n - 1) + "\n\n--- Page "@ + decimal(n as nat) + " ---\n\n"@ + pages[n - 1]
    }
}

/// The text of the pages joined as a text file holds them.
pub fn join_page_texts(pages: &Vec<String>) -> (out: String)
    ensures
        out@ == joined_pages(pages@.map_values(|t: String| t@), pages@.len() as int),
{
    let ghost pv = pages@.map_values(|t: String| t@);
    let mut v: Vec<char> = Vec::new();
    let mut p: usize = 0;
    while p < pages.len()
        invariant
            p <= pages@.len(),
            pv == pages@.map_values(|t: String| t@),
            v@ == joined_pages(pv, p as int),
        decreases pages@.len() - p,
    {
        proof {
            reveal_strlit("\n\n--- Page ");
            reveal_strlit(" ---\n\n");
        }
        if p > 0 {
            push_all(&mut v, chars_of("\n\n--- Page ").as_slice());
            push_all(&mut v, decimal_chars(p + 1).as_slice());
            push_all(&mut v, chars_of(" ---\n\n").as_slice());
        }
        push_all(&mut v, chars_of(pages[p].as_str()).as_slice());
        assert(v@ =~= joined_pages(pv, p + 1));
        p += 1;
    }
    string_from_chars(v.as_slice())
}

proof fn lemma_by_page_pages(s: Seq<(Seq<char>, int)>, r1: Seq<(Seq<char>, int)>, r2: Seq<(Seq<char>, int)>, i: int)
    requires
        by_page(s, r1),
        by_page(s, r2),
        0 <= i < r1.len(),
    ensures
        i < r2.len(),
        r1[i].1 == r2[i].1,
    decreases i,
{
    if i > 0 {
        lemma_by_page_pages(s, r1, r2, i - 1);
    }
    assert(first_entry(s, r1[i]));
    let k = choose|k: int| #[trigger] first_for_page(s, k) && s[k] == r1[i];
    assert(has_page(r2, s[k].1));
    let j = choose|j: int| 0 <= j < r2.len() && #[trigger] r2[j].1 == s[k].1;
    if j < i {
        lemma_by_page_pages(s, r1, r2, j);
        assert(r1[j].1 < r1[i].1);
    } else if j > i {
        assert(r2[i].1 < r2[j].1);
        assert(first_entry(s, r2[i]));
        let k2 = choose|k: int| #[trigger] first_for_page(s, k) && s[k] == r2[i];
        assert(has_page(r1, s[k2].1));
        let m = choose|m: int| 0 <= m < r1.len() && #[trigger] r1[m].1 == s[k2].1;
        if m < i {
            lemma_by_page_pages(s, r1, r2, m);
            assert(r2[m].1 < r2[i].1);
        } else if m > i {
            assert(r1[i].1 < r1[m].1);
        }
    }
}

/// The table of contents ordered by page is determined by the outline:
/// two orderings that both keep one entry per page, the first, are equal.
pub proof fn lemma_by_page_unique(s: Seq<(Seq<char>, int)>, r1: Seq<(Seq<char>, int)>, r2: Seq<(Seq<char>, int)>)
    requires
        by_page(s, r1),
        by_page(s, r2),
    ensures
        r1 == r2,
{
    if r1.len() > 0 {
        lemma_by_page_pages(s, r1, r2, r1.len() - 1);
    }
    if r2.len() > 0 {
        lemma_by_page_pages(s, r2, r1, r2.len() - 1);
    }
    assert forall|i: int| 0 <= i < r1.len() implies r1[i] == r2[i] by {
        lemma_by_page_pages(s, r1, r2, i);
        assert(first_entry(s, r1[i]));
        assert(first_entry(s, r2[i]));
        let k1 = choose|k: int| #[trigger] first_for_page(s, k) && s[k] == r1[i];
        let k2 = choose|k: int| #[trigger] first_for_page(s, k) && s[k] == r2[i];
        if k1 < k2 {
            assert(s[k1].1 != s[k2].1);
        } else if k2 < k1 {
            assert(s[k2].1 != s[k1].1);
        }
    }
    assert(r1 =~= r2);
}

/// The table of contents of an outline: its entries in reading order,
/// ordered by page with one entry per page, the first.
pub fn toc_chapters(outlines: &[OutlineNode]) -> (out: Vec<(String, usize)>)
    ensures
        by_page(flat_outline(outlines@), out@.map_values(entry_view())),
{
    let mut flat: Vec<(String, usize)> = Vec::new();
    collect_outlines(outlines, &mut flat);
    assert(flat@.map_values(entry_view()) =~= flat_outline(outlines@));
    toc_pages(&flat)
}

/// A merge needs at least two input files; otherwise it fails with
/// `Need at least 2 PDF files`.
pub fn check_merge_inputs(count: usize) -> (r: Result<(), String>)
    ensures
        r is Ok <==> count >= 2,
        r matches Err(e) ==> e@ == "Need at least 2 PDF files"@,
{
    if count < 2 {
        return Err(String::from_str("Need at least 2 PDF files"));
    }
    Ok(())
}

/// The chapter files of a split by table of contents, or the error when the
/// outline is empty.
pub fn toc_split_files(outlines: &[OutlineNode], total: usize, dir: &str, stem: &str) -> (out: Result<
    Vec<PageCut>,
    String,
>)
    ensures
        outlines@.len() == 0 <==> out is Err,
        out matches Err(e) ==> e@ == "No TOC entries found in this PDF"@,
        out matches Ok(v) ==> exists|toc: Seq<(Seq<char>, int)>|
            by_page(flat_outline(outlines@), toc) && v@.map_values(cut_view()) == toc_cuts(
                toc,
                total as int,
                dir@,
                stem@,
                toc.len() as int,
            ),
{
    if outlines.len() == 0 {
        return Err(String::from_str("No TOC entries found in this PDF"));
    }
    let toc = toc_chapters(outlines);
    let v = toc_split_plan(&toc, total, dir, stem);
    assert(by_page(flat_outline(outlines@), toc@.map_values(entry_view())));
    Ok(v)
}

/// Two spaces for each level of nesting.
pub open spec fn indent(depth: nat) -> Seq<char>
    decreases depth,
{
    if depth == 0 {
        Seq::empty()
    } else {
        indent((depth - 1) as nat) + seq![' ', ' ']
    }
}

/// The outline as contents, in reading order, each label indented by its
/// depth below `depth`.
pub open spec fn indented_outline(nodes: Seq<OutlineNode>, depth: nat) -> Seq<(Seq<char>, int)>
    decreases nodes,
{
    if nodes.len() == 0 {
        Seq::empty()
    } else {
        proof {
            assert(decreases_to!(nodes => nodes[0]));
            assert(decreases_to!(nodes[0] => nodes[0].down));
            assert(decreases_to!(nodes[0].down => nodes[0].down@));
        }
        seq![(indent(depth) + nodes[0].title@, node_page(nodes[0]))] + indented_outline(
            nodes[0].down@,
            depth + 1,
        ) + indented_outline(nodes.subrange(1, nodes.len() as int), depth)
    }
}

fn indent_chars(depth: usize) -> (out: Vec<char>)
    ensures
        out@ == indent(depth as nat),
{
    let mut out: Vec<char> = Vec::new();
    let mut k: usize = 0;
    while k < depth
        invariant
            k <= depth,
            out@ == indent(k as nat),
        decreases depth - k,
    {
        out.push(' ');
        out.push(' ');
        assert(out@ =~= indent((k + 1) as nat));
        k += 1;
    }
    out
}

/// Appends the outline to `out` as contents entries: each label indented by
/// two spaces a level, the page its entry points to (page 0 for none).
pub fn flatten_outline(entries: &[OutlineNode], depth: usize, out: &mut Vec<TocEntry>)
    requires
        depth + outline_depth(entries@) <= usize::MAX,
    ensures
        final(out)@.map_values(|t: TocEntry| t@) == old(out)@.map_values(|t: TocEntry| t@)
            + indented_outline(entries@, depth as nat),
    decreases entries@,
{
    let ghost start = out@.map_values(|t: TocEntry| t@);
    let ghost all = entries@;
    assert(all.subrange(0, all.len() as int) =~= all);
    let mut i: usize = 0;
    while i < entries.len()
        invariant
            i <= all.len(),
            all == entries@,
            depth + outline_depth(all) <= usize::MAX,
            start == old(out)@.map_values(|t: TocEntry| t@),
            start + indented_outline(all, depth as nat) == out@.map_values(|t: TocEntry| t@)
                + indented_outline(all.subrange(i as int, all.len() as int), depth as nat),
        decreases all.len() - i,
    {
        let n = &entries[i];
        let page = match n.page {
            Some(p) => p,
            None => 0,
        };
        let ghost before = out@.map_values(|t: TocEntry| t@);
        let ghost rest = all.subrange(i as int, all.len() as int);
        assert(rest[0] == all[i as int]);
        assert(rest.subrange(1, rest.len() as int) =~= all.subrange(i + 1, all.len() as int));
        let mut label = indent_chars(depth);
        push_all(&mut label, chars_of(n.title.as_str()).as_slice());
        out.push(TocEntry { label: string_from_chars(label.as_slice()), page_index: page });
        assert(out@.map_values(|t: TocEntry| t@) =~= before.push(
            (indent(depth as nat) + all[i as int].title@, node_page(all[i as int])),
        ));
        proof {
            assert(decreases_to!(all => all[i as int]));
            assert(decreases_to!(all[i as int] => all[i as int].down));
            assert(decreases_to!(all[i as int].down => all[i as int].down@));
            lemma_depth_child(all, i as int);
        }
        flatten_outline(n.down.as_slice(), depth + 1, out);
        i += 1;
    }
}

/// How deep the outline nests: 0 for no entries.
pub open spec fn outline_depth(nodes: Seq<OutlineNode>) -> nat
    decreases nodes,
{
    if nodes.len() == 0 {
        0
    } else {
        proof {
            assert(decreases_to!(nodes => nodes[0]));
            assert(decreases_to!(nodes[0] => nodes[0].down));
            assert(decreases_to!(nodes[0].down => nodes[0].down@));
        }
        let here = 1 + outline_depth(nodes[0].down@);
        let rest = outline_depth(nodes.subrange(1, nodes.len() as int));
        if here >= rest {
            here
        } else {
            rest
        }
    }
}

proof fn lemma_depth_child(nodes: Seq<OutlineNode>, i: int)
    requires
        0 <= i < nodes.len(),
    ensures
        1 + outline_depth(nodes[i].down@) <= outline_depth(nodes),
    decreases i,
{
    if i > 0 {
        let rest = nodes.subrange(1, nodes.len() as int);
        assert(rest[i - 1] == nodes[i]);
        lemma_depth_child(rest, i - 1);
    }
}

} // verus!
