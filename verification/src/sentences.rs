//! Sentence and clause splitting for the reading views, and the CJK test.
use vstd::prelude::*;
use crate::text::{all_ws, chars_of, is_ws, string_from_chars, trim, trim_chars, trim_end, trim_start};

verus! {

/// Whether `c` ends a clause for `split_sentences`: `。！？，；.!?,;` and newline.
pub open spec fn is_clause_end(c: char) -> bool {
    c == '。' || c == '！' || c == '？' || c == '，' || c == '；' || c == '.' || c == '!' || c == '?'
        || c == ',' || c == ';' || c == '\n'
}

/// Whether `c` ends a sentence for `extract_sentences`: the clause ends and `：`.
pub open spec fn is_sentence_end(c: char) -> bool {
    is_clause_end(c) || c == '：'
}

/// Pieces of `s` between characters that satisfy `d`; the delimiters are dropped.
pub open spec fn split_by(s: Seq<char>, d: spec_fn(char) -> bool) -> Seq<Seq<char>>
    decreases s.len(),
{
    if s.len() == 0 {
        seq![Seq::<char>::empty()]
    } else {
        let p = split_by(s.drop_last(), d);
        if d(s.last()) {
            p.push(Seq::<char>::empty())
        } else {
            p.update(p.len() - 1, p.last().push(s.last()))
        }
    }
}

/// Pieces of `s`, each ending with a character that satisfies `d` (the
/// delimiter stays at the end of its piece), and the unterminated rest.
pub open spec fn split_after(s: Seq<char>, d: spec_fn(char) -> bool) -> Seq<Seq<char>>
    decreases s.len(),
{
    if s.len() == 0 {
        seq![Seq::<char>::empty()]
    } else {
        let p = split_after(s.drop_last(), d);
        let q = p.update(p.len() - 1, p.last().push(s.last()));
        if d(s.last()) {
            q.push(Seq::<char>::empty())
        } else {
            q
        }
    }
}

pub proof fn lemma_split_by_nonempty(s: Seq<char>, d: spec_fn(char) -> bool)
    ensures
        split_by(s, d).len() >= 1,
    decreases s.len(),
{
    if s.len() > 0 {
        lemma_split_by_nonempty(s.drop_last(), d);
    }
}

pub proof fn lemma_split_after_nonempty(s: Seq<char>, d: spec_fn(char) -> bool)
    ensures
        split_after(s, d).len() >= 1,
    decreases s.len(),
{
    if s.len() > 0 {
        lemma_split_after_nonempty(s.drop_last(), d);
    }
}

/// A trimmed piece is kept when its UTF-8 encoding is longer than one
/// byte: two or more characters, or one character outside ASCII.
pub open spec fn keep_piece(t: Seq<char>) -> bool {
    t.len() > 1 || (t.len() == 1 && (t[0] as u32) >= 0x80)
}

pub open spec fn clause_delims() -> spec_fn(char) -> bool {
    |c: char| is_clause_end(c)
}

pub open spec fn sentence_delims() -> spec_fn(char) -> bool {
    |c: char| is_sentence_end(c)
}

pub open spec fn trim_fn() -> spec_fn(Seq<char>) -> Seq<char> {
    |p: Seq<char>| trim(p)
}

pub open spec fn keep_fn() -> spec_fn(Seq<char>) -> bool {
    |t: Seq<char>| keep_piece(t)
}

/// The result of `split_sentences` on `s`.
pub open spec fn clauses(s: Seq<char>) -> Seq<Seq<char>> {
split_by(s, clause_delims()).map_values(trim_fn()).filter(keep_fn())
}

/// The result of `extract_sentences` on `s`.
pub open spec fn sentences(s: Seq<char>) -> Seq<Seq<char>> {
split_after(s, sentence_delims()).map_values(trim_fn()).filter(keep_fn())
}

fn clause_end(c: char) -> (r: bool)
    ensures
        r == is_clause_end(c),
{
    c == '。' || c == '！' || c == '？' || c == '，' || c == '；' || c == '.' || c == '!' || c == '?'
        || c == ',' || c == ';' || c == '\n'
}

fn keep(t: &[char]) -> (r: bool)
    ensures
        r == keep_piece(t@),
{
    t.len() > 1 || (t.len() == 1 && (t[0] as u32) >= 0x80)
}

proof fn lemma_filter_map_push(
    p: Seq<Seq<char>>,
    x: Seq<char>,
    f: spec_fn(Seq<char>) -> Seq<char>,
    k: spec_fn(Seq<char>) -> bool,
)
    ensures
        p.push(x).map_values(f).filter(k) == if k(f(x)) {
            p.map_values(f).filter(k).push(f(x))
        } else {
            p.map_values(f).filter(k)
        },
{
    reveal(Seq::filter);
    let q = p.push(x).map_values(f);
    assert(q.len() > 0);
    assert(q.drop_last() =~= p.map_values(f));
    assert(q.last() == f(x));
    assert(q.filter(k) == (if k(q.last()) {
        q.drop_last().filter(k).push(q.last())
    } else {
        q.drop_last().filter(k)
    }));
}

/// Splits `text` at clause ends (`。！？，；.!?,;` and newline), dropping the
/// delimiters; each piece is trimmed, and kept when longer than one byte.
pub fn split_sentences(text: &str) -> (out: Vec<String>)
    ensures
        out@.map_values(|s: String| s@) == clauses(text@),
{
    let s = chars_of(text);
    let ghost d = clause_delims();
    let ghost f = trim_fn();
    let ghost k = keep_fn();
    let mut out: Vec<String> = Vec::new();
    let mut cur: Vec<char> = Vec::new();
    let mut i: usize = 0;
    assert(s@.take(0) =~= Seq::<char>::empty());
    while i < s.len()
        invariant
            i <= s@.len(),
            d == clause_delims(),
            f == trim_fn(),
            k == keep_fn(),
            split_by(s@.take(i as int), d) == split_by(s@.take(i as int), d).drop_last().push(
                cur@,
            ),
            out@.map_values(|s: String| s@) == split_by(s@.take(i as int), d).drop_last().map_values(
                f,
            ).filter(k),
        decreases s@.len() - i,
    {
        let c = s[i];
        let ghost pre = s@.take(i as int);
        let ghost pp = split_by(pre, d);
        assert(s@.take(i + 1).drop_last() =~= pre);
        assert(s@.take(i + 1).last() == c);
        assert(d(c) == is_clause_end(c));
        proof {
            lemma_split_by_nonempty(pre, d);
        }
        if clause_end(c) {
            let t = trim_chars(cur.as_slice());
            let ghost before = out@;
            if keep(t.as_slice()) {
                out.push(string_from_chars(t.as_slice()));
                assert(out@.map_values(|s: String| s@) =~= before.map_values(|s: String| s@).push(
                    t@,
                ));
            }
            proof {
                lemma_filter_map_push(pp.drop_last(), cur@, f, k);
                assert(pp.drop_last().push(cur@) =~= pp);
                assert(split_by(s@.take(i + 1), d) == pp.push(Seq::<char>::empty()));
                assert(split_by(s@.take(i + 1), d).drop_last() =~= pp);
            }
            cur = Vec::new();
            assert(split_by(s@.take(i + 1), d) =~= split_by(s@.take(i + 1), d).drop_last().push(
                cur@,
            ));
        } else {
            cur.push(c);
            proof {
                let q = split_by(s@.take(i + 1), d);
                assert(q == pp.update(pp.len() - 1, pp.last().push(c)));
                assert(q.drop_last() =~= pp.drop_last());
                assert(q =~= q.drop_last().push(cur@));
            }
        }
        i += 1;
    }
    assert(s@.take(s@.len() as int) =~= s@);
    let t = trim_chars(cur.as_slice());
    let ghost before = out@;
    if keep(t.as_slice()) {
        out.push(string_from_chars(t.as_slice()));
        assert(out@.map_values(|s: String| s@) =~= before.map_values(|s: String| s@).push(t@));
    }
    proof {
        let pp = split_by(s@, d);
        lemma_filter_map_push(pp.drop_last(), cur@, f, k);
        assert(pp.drop_last().push(cur@) =~= pp);
    }
    out
}

/// Splits `text` after sentence ends (`。！？，；：.!?,;` and newline),
/// keeping each delimiter at the end of its piece; each piece is trimmed,
/// and kept when longer than one byte.
pub fn extract_sentences(text: &str) -> (out: Vec<String>)
    ensures
        out@.map_values(|s: String| s@) == sentences(text@),
{
    let s = chars_of(text);
    let ghost d = sentence_delims();
    let ghost f = trim_fn();
    let ghost k = keep_fn();
    let mut out: Vec<String> = Vec::new();
    let mut cur: Vec<char> = Vec::new();
    let mut i: usize = 0;
    assert(s@.take(0) =~= Seq::<char>::empty());
    while i < s.len()
        invariant
            i <= s@.len(),
            d == sentence_delims(),
            f == trim_fn(),
            k == keep_fn(),
            split_after(s@.take(i as int), d) == split_after(s@.take(i as int), d).drop_last().push(
                cur@,
            ),
            out@.map_values(|s: String| s@) == split_after(
                s@.take(i as int),
                d,
            ).drop_last().map_values(f).filter(k),
        decreases s@.len() - i,
    {
        let c = s[i];
        let ghost pre = s@.take(i as int);
        let ghost pp = split_after(pre, d);
        assert(s@.take(i + 1).drop_last() =~= pre);
        assert(s@.take(i + 1).last() == c);
        assert(d(c) == is_sentence_end(c));
        proof {
            lemma_split_after_nonempty(pre, d);
        }
        cur.push(c);
        let ghost q = pp.update(pp.len() - 1, pp.last().push(c));
        assert(q =~= pp.drop_last().push(cur@));
        if clause_end(c) || c == '：' {
            let t = trim_chars(cur.as_slice());
            let ghost before = out@;
            if keep(t.as_slice()) {
                out.push(string_from_chars(t.as_slice()));
                assert(out@.map_values(|s: String| s@) =~= before.map_values(|s: String| s@).push(
                    t@,
                ));
            }
            proof {
                lemma_filter_map_push(pp.drop_last(), cur@, f, k);
                assert(split_after(s@.take(i + 1), d) == q.push(Seq::<char>::empty()));
                assert(split_after(s@.take(i + 1), d).drop_last() =~= q);
            }
            cur = Vec::new();
            assert(split_after(s@.take(i + 1), d) =~= split_after(
                s@.take(i + 1),
                d,
            ).drop_last().push(cur@));
        } else {
            proof {
                assert(split_after(s@.take(i + 1), d) == q);
                assert(q.drop_last() =~= pp.drop_last());
            }
        }
        i += 1;
    }
    assert(s@.take(s@.len() as int) =~= s@);
    let t = trim_chars(cur.as_slice());
    let ghost before = out@;
    if keep(t.as_slice()) {
        out.push(string_from_chars(t.as_slice()));
        assert(out@.map_values(|s: String| s@) =~= before.map_values(|s: String| s@).push(t@));
    }
    proof {
        let pp = split_after(s@, d);
        lemma_filter_map_push(pp.drop_last(), cur@, f, k);
        assert(pp.drop_last().push(cur@) =~= pp);
    }
    out
}

/// CJK ideograph blocks: Extension A, Unified Ideographs, Compatibility
/// Ideographs, and the Compatibility Supplement.
pub open spec fn cjk(ch: char) -> bool {
    ||| ('\u{3400}' <= ch && ch <= '\u{4DBF}')
    ||| ('\u{4E00}' <= ch && ch <= '\u{9FFF}')
    ||| ('\u{F900}' <= ch && ch <= '\u{FAFF}')
    ||| ('\u{2F800}' <= ch && ch <= '\u{2FA1F}')
}

pub fn is_cjk(ch: char) -> (r: bool)
    ensures
        r == cjk(ch),
{
    ('\u{3400}' <= ch && ch <= '\u{4DBF}') || ('\u{4E00}' <= ch && ch <= '\u{9FFF}') || ('\u{F900}'
        <= ch && ch <= '\u{FAFF}') || ('\u{2F800}' <= ch && ch <= '\u{2FA1F}')
}

pub proof fn lemma_split_by_no_delim(s: Seq<char>, d: spec_fn(char) -> bool)
    ensures
        forall|i: int, j: int|
            0 <= i < split_by(s, d).len() && 0 <= j < split_by(s, d)[i].len() ==> !d(
                #[trigger] split_by(s, d)[i][j],
            ),
    decreases s.len(),
{
    if s.len() > 0 {
        lemma_split_by_no_delim(s.drop_last(), d);
        lemma_split_by_nonempty(s.drop_last(), d);
        let p = split_by(s.drop_last(), d);
        if !d(s.last()) {
            let q = p.update(p.len() - 1, p.last().push(s.last()));
            assert forall|i: int, j: int| 0 <= i < q.len() && 0 <= j < q[i].len() implies !d(#[trigger] q[i][j]) by {
                if i == p.len() - 1 && j == p.last().len() {
                } else if i == p.len() - 1 {
                    assert(q[i][j] == p[i][j]);
                }
            }
        } else {
            let q = p.push(Seq::<char>::empty());
            assert forall|i: int, j: int| 0 <= i < q.len() && 0 <= j < q[i].len() implies !d(#[trigger] q[i][j]) by {
                assert(i < p.len());
            }
        }
    }
}

proof fn lemma_trim_start_suffix(s: Seq<char>) -> (k: int)
    ensures
        0 <= k <= s.len(),
        trim_start(s) == s.skip(k),
    decreases s.len(),
{
    if s.len() > 0 && is_ws(s[0]) {
        let k = lemma_trim_start_suffix(s.drop_first());
        assert(s.drop_first().skip(k) =~= s.skip(k + 1));
        k + 1
    } else {
        assert(s.skip(0) =~= s);
        0
    }
}

proof fn lemma_trim_end_prefix(s: Seq<char>) -> (k: int)
    ensures
        0 <= k <= s.len(),
        trim_end(s) == s.take(k),
    decreases s.len(),
{
    if s.len() > 0 && is_ws(s.last()) {
        let k = lemma_trim_end_prefix(s.drop_last());
        assert(s.drop_last().take(k) =~= s.take(k));
        k
    } else {
        assert(s.take(s.len() as int) =~= s);
        s.len() as int
    }
}

proof fn lemma_trim_chars(s: Seq<char>, j: int)
    requires
        0 <= j < trim(s).len(),
    ensures
        exists|i: int| 0 <= i < s.len() && s[i] == trim(s)[j],
{
    let a = lemma_trim_start_suffix(s);
    let b = lemma_trim_end_prefix(trim_start(s));
    assert(trim(s)[j] == s[a + j]);
}

proof fn lemma_filter_subset(q: Seq<Seq<char>>, k: spec_fn(Seq<char>) -> bool, i: int)
    requires
        0 <= i < q.filter(k).len(),
    ensures
        exists|m: int| 0 <= m < q.len() && q[m] == q.filter(k)[i],
    decreases q.len(),
{
    reveal(Seq::filter);
    let r = q.drop_last().filter(k);
    if k(q.last()) && i == r.len() {
        assert(q.filter(k)[i] == q.last());
        assert(q[q.len() - 1] == q.last());
    } else {
        lemma_filter_subset(q.drop_last(), k, i);
        let m = choose|m: int| 0 <= m < q.drop_last().len() && q.drop_last()[m] == r[i];
        assert(q[m] == q.drop_last()[m]);
    }
}

/// What `split_sentences` returns holds no clause end, and each piece is
/// longer than one byte.
pub proof fn lemma_clauses_have_no_ends(s: Seq<char>)
    ensures
        forall|k: int| 0 <= k < clauses(s).len() ==> keep_piece(#[trigger] clauses(s)[k]),
        forall|k: int, j: int|
            0 <= k < clauses(s).len() && 0 <= j < clauses(s)[k].len() ==> !is_clause_end(
                #[trigger] clauses(s)[k][j],
            ),
{
    broadcast use vstd::seq_lib::group_filter_ensures;

    let d = clause_delims();
    let pieces = split_by(s, d);
    let q = pieces.map_values(trim_fn());
    lemma_split_by_no_delim(s, d);
    assert forall|k: int| 0 <= k < clauses(s).len() implies keep_piece(#[trigger] clauses(s)[k]) by {
        let kf = keep_fn();
        assert(kf(q.filter(kf)[k]));
    }
    assert forall|k: int, j: int|
        0 <= k < clauses(s).len() && 0 <= j < clauses(s)[k].len() implies !is_clause_end(
        #[trigger] clauses(s)[k][j],
    ) by {
        lemma_filter_subset(q, keep_fn(), k);
        let m = choose|m: int| 0 <= m < q.len() && q[m] == q.filter(keep_fn())[k];
        assert(q[m] == trim(pieces[m]));
        lemma_trim_chars(pieces[m], j);
        let i = choose|i: int| 0 <= i < pieces[m].len() && pieces[m][i] == trim(pieces[m])[j];
        assert(!d(pieces[m][i]));
    }
}

/// `split_sentences` cuts at every clause end: no piece it returns holds
/// `。`, `！`, `？`, `，`, `；`, `.`, `!`, `?`, `,`, `;` or a newline.
pub proof fn lemma_clauses_cut_at_every_end(s: Seq<char>)
    ensures
        forall|k: int, j: int|
            0 <= k < clauses(s).len() && 0 <= j < clauses(s)[k].len() ==> {
                let c = #[trigger] clauses(s)[k][j];
                &&& c != '。'
                &&& c != '！'
                &&& c != '？'
                &&& c != '，'
                &&& c != '；'
                &&& c != '.'
                &&& c != '!'
                &&& c != '?'
                &&& c != ','
                &&& c != ';'
                &&& c != '\n'
            },
{
    lemma_clauses_have_no_ends(s);
}

/// Splitting `a + y` continues the last piece of `a` with the first piece
/// of `y`.
proof fn lemma_split_by_concat(a: Seq<char>, y: Seq<char>, d: spec_fn(char) -> bool)
    ensures
        split_by(a + y, d) == split_by(a, d).drop_last().push(split_by(a, d).last() + split_by(y, d)[0])
            + split_by(y, d).skip(1),
    decreases y.len(),
{
    lemma_split_by_nonempty(a, d);
    if y.len() == 0 {
        assert(a + y =~= a);
        assert(split_by(y, d) == seq![Seq::<char>::empty()]);
        assert(split_by(a, d).last() + Seq::<char>::empty() =~= split_by(a, d).last());
        assert(split_by(a, d).drop_last().push(split_by(a, d).last()) =~= split_by(a, d));
        assert(split_by(y, d).skip(1) =~= Seq::<Seq<char>>::empty());
        assert(split_by(a, d).drop_last().push(split_by(a, d).last() + split_by(y, d)[0]) + split_by(y, d).skip(1)
            =~= split_by(a, d));
    } else {
        let y0 = y.drop_last();
        lemma_split_by_concat(a, y0, d);
        lemma_split_by_nonempty(y0, d);
        assert((a + y).drop_last() =~= a + y0);
        assert((a + y).last() == y.last());
        let pa = split_by(a, d);
        let py0 = split_by(y0, d);
        let head = pa.drop_last().push(pa.last() + py0[0]);
        let p = split_by(a + y0, d);
        assert(p == head + py0.skip(1));
        if d(y.last()) {
            let py = py0.push(Seq::<char>::empty());
            assert(split_by(y, d) == py);
            assert(py[0] == py0[0]);
            assert(py.skip(1) =~= py0.skip(1).push(Seq::<char>::empty()));
            assert(split_by(a + y, d) =~= head + py.skip(1));
        } else {
            let py = py0.update(py0.len() - 1, py0.last().push(y.last()));
            assert(split_by(y, d) == py);
            if py0.len() == 1 {
                assert(py[0] == py0[0].push(y.last()));
                assert(py.skip(1) =~= Seq::<Seq<char>>::empty());
                assert(py0.skip(1) =~= Seq::<Seq<char>>::empty());
                assert(p =~= head);
                assert(head.last() == pa.last() + py0[0]);
                assert(split_by(a + y, d) =~= pa.drop_last().push(pa.last() + py[0]) + py.skip(1));
            } else {
                assert(py[0] == py0[0]);
                assert(py.skip(1) =~= py0.skip(1).update(py0.len() - 2, py0.last().push(y.last())));
                assert(split_by(a + y, d) =~= head + py.skip(1));
            }
        }
    }
}

/// Two texts joined by a clause end split as the first, then the second:
/// a clause end (`。！？，；.!?,;` or newline) always separates clauses.
pub proof fn lemma_clause_end_separates(x: Seq<char>, c: char, y: Seq<char>)
    requires
        c == '。' || c == '！' || c == '？' || c == '，' || c == '；' || c == '.' || c == '!' || c == '?' || c
            == ',' || c == ';' || c == '\n',
    ensures
        clauses(x + seq![c] + y) == clauses(x) + clauses(y),
{
    broadcast use vstd::seq_lib::group_filter_ensures;

    let d = clause_delims();
    let a = x + seq![c];
    assert(a.drop_last() =~= x);
    assert(a.last() == c);
    lemma_split_by_nonempty(x, d);
    assert(split_by(a, d) == split_by(x, d).push(Seq::<char>::empty()));
    lemma_split_by_concat(a, y, d);
    lemma_split_by_nonempty(y, d);
    let px = split_by(x, d);
    let py = split_by(y, d);
    assert(Seq::<char>::empty() + py[0] =~= py[0]);
    assert(py =~= seq![py[0]] + py.skip(1));
    assert(split_by(x + seq![c] + y, d) =~= px + py);
    assert((px + py).map_values(trim_fn()) =~= px.map_values(trim_fn()) + py.map_values(trim_fn()));
    Seq::filter_distributes_over_add(px.map_values(trim_fn()), py.map_values(trim_fn()), keep_fn());
}

/// A piece of `split_after` holds delimiters only at its end.
proof fn lemma_split_after_inner(s: Seq<char>, d: spec_fn(char) -> bool)
    ensures
        forall|i: int, j: int|
            0 <= i < split_after(s, d).len() && 0 <= j < split_after(s, d)[i].len() - 1 ==> !d(
                #[trigger] split_after(s, d)[i][j],
            ),
        forall|j: int| 0 <= j < split_after(s, d).last().len() ==> !d(#[trigger] split_after(s, d).last()[j]),
    decreases s.len(),
{
    if s.len() > 0 {
        lemma_split_after_inner(s.drop_last(), d);
        lemma_split_after_nonempty(s.drop_last(), d);
        let p = split_after(s.drop_last(), d);
        let q = p.update(p.len() - 1, p.last().push(s.last()));
        assert forall|i: int, j: int| 0 <= i < q.len() && 0 <= j < q[i].len() - 1 implies !d(#[trigger] q[i][j]) by {
            if i == p.len() - 1 {
                assert(q[i][j] == p.last()[j]);
            } else {
                assert(q[i] == p[i]);
            }
        }
        if d(s.last()) {
            let r = q.push(Seq::<char>::empty());
            assert forall|i: int, j: int| 0 <= i < r.len() && 0 <= j < r[i].len() - 1 implies !d(#[trigger] r[i][j]) by {
                assert(i < q.len());
                assert(r[i] == q[i]);
            }
        } else {
            assert forall|j: int| 0 <= j < q.last().len() implies !d(#[trigger] q.last()[j]) by {
                if j < p.last().len() {
                    assert(q.last()[j] == p.last()[j]);
                }
            }
        }
    }
}

/// `extract_sentences` cuts after every sentence end: a piece it returns
/// holds `。`, `！`, `？`, `，`, `；`, `：`, `.`, `!`, `?`, `,`, `;` or a
/// newline only as its last character.
pub proof fn lemma_sentences_cut_after_every_end(s: Seq<char>)
    ensures
        forall|k: int, j: int|
            0 <= k < sentences(s).len() && 0 <= j < sentences(s)[k].len() - 1 ==> {
                let c = #[trigger] sentences(s)[k][j];
                &&& c != '。'
                &&& c != '！'
                &&& c != '？'
                &&& c != '，'
                &&& c != '；'
                &&& c != '：'
                &&& c != '.'
                &&& c != '!'
                &&& c != '?'
                &&& c != ','
                &&& c != ';'
                &&& c != '\n'
            },
{
    broadcast use vstd::seq_lib::group_filter_ensures;

    let d = sentence_delims();
    let pieces = split_after(s, d);
    let q = pieces.map_values(trim_fn());
    lemma_split_after_inner(s, d);
    assert forall|k: int, j: int| 0 <= k < sentences(s).len() && 0 <= j < sentences(s)[k].len() - 1 implies !d(
        #[trigger] sentences(s)[k][j],
    ) by {
        lemma_filter_subset(q, keep_fn(), k);
        let m = choose|m: int| 0 <= m < q.len() && q[m] == q.filter(keep_fn())[k];
        assert(q[m] == trim(pieces[m]));
        let a = lemma_trim_start_suffix(pieces[m]);
        let b = lemma_trim_end_prefix(trim_start(pieces[m]));
        assert(trim(pieces[m]) == pieces[m].skip(a).take(b));
        assert(trim(pieces[m])[j] == pieces[m][a + j]);
        assert(a + j < pieces[m].len() - 1);
    }
}

} // verus!
