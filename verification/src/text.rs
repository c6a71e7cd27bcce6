//! Character-level text primitives: whitespace, trimming, line splitting
//! and joining, as `str::trim`, `str::lines` and `join("\n")` define them.
use vstd::prelude::*;

verus! {

/// Unicode `White_Space`, the property that `char::is_whitespace` tests.
pub open spec fn is_ws(c: char) -> bool {
    ||| ('\u{9}' <= c && c <= '\u{d}')
    ||| c == ' '
    ||| c == '\u{85}'
    ||| c == '\u{a0}'
    ||| c == '\u{1680}'
    ||| ('\u{2000}' <= c && c <= '\u{200a}')
    ||| c == '\u{2028}'
    ||| c == '\u{2029}'
    ||| c == '\u{202f}'
    ||| c == '\u{205f}'
    ||| c == '\u{3000}'
}

pub fn is_whitespace(c: char) -> (r: bool)
    ensures
        r == is_ws(c),
{
    ('\u{9}' <= c && c <= '\u{d}') || c == ' ' || c == '\u{85}' || c == '\u{a0}' || c == '\u{1680}'
        || ('\u{2000}' <= c && c <= '\u{200a}') || c == '\u{2028}' || c == '\u{2029}' || c
        == '\u{202f}' || c == '\u{205f}' || c == '\u{3000}'
}

/// Leading whitespace removed.
pub open spec fn trim_start(s: Seq<char>) -> Seq<char>
    decreases s.len(),
{
    if s.len() > 0 && is_ws(s[0]) {
        trim_start(s.drop_first())
    } else {
        s
    }
}

/// Trailing whitespace removed.
pub open spec fn trim_end(s: Seq<char>) -> Seq<char>
    decreases s.len(),
{
    if s.len() > 0 && is_ws(s.last()) {
        trim_end(s.drop_last())
    } else {
        s
    }
}

/// Leading and trailing whitespace removed (`str::trim`).
pub open spec fn trim(s: Seq<char>) -> Seq<char> {
    trim_end(trim_start(s))
}

/// Whether every character is whitespace.
pub open spec fn all_ws(s: Seq<char>) -> bool {
    forall|k: int| 0 <= k < s.len() ==> is_ws(#[trigger] s[k])
}

pub proof fn lemma_trim_start_skip(s: Seq<char>, i: int)
    requires
        0 <= i <= s.len(),
        all_ws(s.take(i)),
    ensures
        trim_start(s) == trim_start(s.skip(i)),
    decreases i,
{
    if i > 0 {
        assert(is_ws(s.take(i)[0]));
        assert(s.drop_first().take(i - 1) =~= s.take(i).drop_first());
        lemma_trim_start_skip(s.drop_first(), i - 1);
        assert(s.drop_first().skip(i - 1) =~= s.skip(i));
    } else {
        assert(s.skip(0) =~= s);
    }
}

pub proof fn lemma_trim_end_take(s: Seq<char>, j: int)
    requires
        0 <= j <= s.len(),
        all_ws(s.skip(j)),
    ensures
        trim_end(s) == trim_end(s.take(j)),
    decreases s.len() - j,
{
    if j < s.len() {
        assert(is_ws(s.skip(j)[s.len() - j - 1]));
        assert(s.drop_last().skip(j) =~= s.skip(j).drop_last());
        lemma_trim_end_take(s.drop_last(), j);
        assert(s.drop_last().take(j) =~= s.take(j));
    } else {
        assert(s.take(j) =~= s);
    }
}

pub proof fn lemma_trim_start_len(s: Seq<char>)
    ensures
        trim_start(s).len() <= s.len(),
        trim_start(s).len() == 0 || !is_ws(trim_start(s)[0]),
        trim_start(s) == s.skip(s.len() - trim_start(s).len()),
        all_ws(s.take(s.len() - trim_start(s).len())),
    decreases s.len(),
{
    if s.len() > 0 && is_ws(s[0]) {
        lemma_trim_start_len(s.drop_first());
        let r = trim_start(s.drop_first());
        assert(s.drop_first().skip(s.drop_first().len() - r.len()) =~= s.skip(s.len() - r.len()));
        assert forall|k: int| 0 <= k < s.len() - r.len() implies is_ws(
            #[trigger] s.take(s.len() - r.len())[k],
        ) by {
            if k > 0 {
                assert(s.take(s.len() - r.len())[k] == s.drop_first().take(
                    s.drop_first().len() - r.len(),
                )[k - 1]);
            }
        }
    } else {
        assert(s.skip(0) =~= s);
    }
}

pub proof fn lemma_trim_end_len(s: Seq<char>)
    ensures
        trim_end(s).len() <= s.len(),
        trim_end(s).len() == 0 || !is_ws(trim_end(s).last()),
        trim_end(s) == s.take(trim_end(s).len() as int),
        all_ws(s.skip(trim_end(s).len() as int)),
    decreases s.len(),
{
    if s.len() > 0 && is_ws(s.last()) {
        lemma_trim_end_len(s.drop_last());
        let r = trim_end(s.drop_last());
        assert(s.drop_last().take(r.len() as int) =~= s.take(r.len() as int));
        assert forall|k: int| 0 <= k < s.len() - r.len() implies is_ws(
            #[trigger] s.skip(r.len() as int)[k],
        ) by {
            if k < s.len() - r.len() - 1 {
                assert(s.skip(r.len() as int)[k] == s.drop_last().skip(r.len() as int)[k]);
            }
        }
    } else {
        assert(s.take(s.len() as int) =~= s);
    }
}

/// `s` with leading and trailing whitespace removed.
pub fn trim_chars(s: &[char]) -> (out: Vec<char>)
    ensures
        out@ == trim(s@),
{
    let n = s.len();
    let mut i: usize = 0;
    while i < n && is_whitespace(s[i])
        invariant
            i <= n,
            n == s@.len(),
            all_ws(s@.take(i as int)),
        decreases n - i,
    {
        assert(s@.take(i + 1) =~= s@.take(i as int).push(s@[i as int]));
        i += 1;
    }
    proof {
        lemma_trim_start_skip(s@, i as int);
        if i < n {
            assert(!is_ws(s@.skip(i as int)[0]));
        } else {
            assert(s@.skip(i as int).len() == 0);
        }
    }
    let ghost t = s@.skip(i as int);
    assert(trim_start(s@) == t);
    let mut j: usize = n;
    while j > i && is_whitespace(s[j - 1])
        invariant
            i <= j <= n,
            n == s@.len(),
            all_ws(s@.skip(j as int)),
        decreases j,
    {
        assert(s@.skip(j - 1) =~= seq![s@[j - 1]] + s@.skip(j as int));
        j -= 1;
    }
    let ghost u = s@.subrange(i as int, j as int);
    proof {
        assert(t.skip(j - i) =~= s@.skip(j as int));
        lemma_trim_end_take(t, j - i);
        assert(t.take(j - i) =~= u);
        if j > i {
            assert(!is_ws(u.last()));
        }
    }
    let mut out: Vec<char> = Vec::new();
    let mut k: usize = i;
    while k < j
        invariant
            i <= k <= j <= n,
            n == s@.len(),
            out@ == s@.subrange(i as int, k as int),
        decreases j - k,
    {
        out.push(s[k]);
        assert(s@.subrange(i as int, k + 1) =~= s@.subrange(i as int, k as int).push(s@[k as int]));
        k += 1;
    }
    out
}

/// The pieces of `s` between newline characters; the last piece is what
/// follows the final newline (possibly empty).
pub open spec fn pieces(s: Seq<char>) -> Seq<Seq<char>>
    decreases s.len(),
{
    if s.len() == 0 {
        seq![Seq::<char>::empty()]
    } else {
        let p = pieces(s.drop_last());
        if s.last() == '\n' {
            p.push(Seq::<char>::empty())
        } else {
            p.update(p.len() - 1, p.last().push(s.last()))
        }
    }
}

pub proof fn lemma_pieces_nonempty(s: Seq<char>)
    ensures
        pieces(s).len() >= 1,
    decreases s.len(),
{
    if s.len() > 0 {
        lemma_pieces_nonempty(s.drop_last());
    }
}

/// A line-terminated piece loses one trailing carriage return.
pub open spec fn strip_cr(l: Seq<char>) -> Seq<char> {
    if l.len() > 0 && l.last() == '\r' {
        l.drop_last()
    } else {
        l
    }
}

/// The lines of `s`, as `str::lines` yields them.
pub open spec fn lines(s: Seq<char>) -> Seq<Seq<char>> {
    let p = pieces(s);
    let done = p.drop_last().map_values(|l: Seq<char>| strip_cr(l));
    if p.last().len() == 0 {
        done
    } else {
        done.push(p.last())
    }
}

/// The lines of `s` (split at `\n`; a `\r` before the `\n` is dropped;
/// a final newline starts no further line).
pub fn split_lines(s: &[char]) -> (out: Vec<Vec<char>>)
    ensures
        out@.map_values(|l: Vec<char>| l@) == lines(s@),
{
    let n = s.len();
    let mut done: Vec<Vec<char>> = Vec::new();
    let mut cur: Vec<char> = Vec::new();
    let mut i: usize = 0;
    proof {
        assert(s@.take(0) =~= Seq::<char>::empty());
    }
    while i < n
        invariant
            i <= n,
            n == s@.len(),
            pieces(s@.take(i as int)) == done@.map_values(|l: Vec<char>| l@).push(cur@),
        decreases n - i,
    {
        let c = s[i];
        let ghost pre = s@.take(i as int);
        assert(s@.take(i + 1).drop_last() =~= pre);
        assert(s@.take(i + 1).last() == c);
        if c == '\n' {
            let mut old_cur: Vec<char> = Vec::new();
            std::mem::swap(&mut old_cur, &mut cur);
            done.push(old_cur);
            assert(done@.map_values(|l: Vec<char>| l@) =~= pieces(pre));
            assert(pieces(s@.take(i + 1)) =~= done@.map_values(|l: Vec<char>| l@).push(cur@));
        } else {
            cur.push(c);
            assert(pieces(s@.take(i + 1)) =~= done@.map_values(|l: Vec<char>| l@).push(cur@));
        }
        i += 1;
    }
    assert(s@.take(n as int) =~= s@);
    let ghost p = pieces(s@);
    let mut out: Vec<Vec<char>> = Vec::new();
    let m = done.len();
    let mut k: usize = 0;
    while k < m
        invariant
            k <= m,
            m == done@.len(),
            out@.len() == k,
            p == done@.map_values(|l: Vec<char>| l@).push(cur@),
            out@.map_values(|l: Vec<char>| l@) == p.take(k as int).map_values(
                |l: Seq<char>| strip_cr(l),
            ),
        decreases m - k,
    {
        let l = &done[k];
        let len = l.len();
        let mut line: Vec<char> = Vec::new();
        let keep = if len > 0 && l[len - 1] == '\r' {
            len - 1
        } else {
            len
        };
        let mut t: usize = 0;
        while t < keep
            invariant
                t <= keep <= len,
                len == l@.len(),
                line@ == l@.take(t as int),
            decreases keep - t,
        {
            line.push(l[t]);
            assert(l@.take(t + 1) =~= l@.take(t as int).push(l@[t as int]));
            t += 1;
        }
        assert(p[k as int] == l@);
        assert(line@ =~= strip_cr(l@));
        let ghost lv = line@;
        let ghost prev = out@;
        out.push(line);
        assert(out@ == prev.push(line));
        assert(out@[k as int]@ == lv);
        assert(p.take(k + 1)[k as int] == p[k as int]);
        assert forall|i: int| 0 <= i < k implies out@[i]@ == strip_cr(p[i]) by {
            assert(out@[i] == prev[i]);
            assert(prev.map_values(|l: Vec<char>| l@)[i] == p.take(k as int).map_values(
                |l: Seq<char>| strip_cr(l),
            )[i]);
        }
        assert(out@.map_values(|l: Vec<char>| l@) =~= p.take(k + 1).map_values(
            |l: Seq<char>| strip_cr(l),
        ));
        k += 1;
    }
    assert(p.take(m as int) =~= p.drop_last());
    if cur.len() > 0 {
        out.push(cur);
        assert(out@.map_values(|l: Vec<char>| l@) =~= lines(s@));
    } else {
        assert(out@.map_values(|l: Vec<char>| l@) =~= lines(s@));
    }
    out
}

/// Lines joined with `\n` between them (`join("\n")`).
pub open spec fn join_lines(ls: Seq<Seq<char>>) -> Seq<char>
    decreases ls.len(),
{
    if ls.len() == 0 {
        Seq::<char>::empty()
    } else if ls.len() == 1 {
        ls[0]
    } else {
        join_lines(ls.drop_last()) + seq!['\n'] + ls.last()
    }
}

/// Lines `lo..hi` of `ls` joined with `\n`.
pub fn join_range(ls: &Vec<Vec<char>>, lo: usize, hi: usize) -> (out: Vec<char>)
    requires
        lo <= hi <= ls@.len(),
    ensures
        out@ == join_lines(ls@.map_values(|l: Vec<char>| l@).subrange(lo as int, hi as int)),
{
    let ghost v = ls@.map_values(|l: Vec<char>| l@);
    let mut out: Vec<char> = Vec::new();
    let mut k: usize = lo;
    assert(v.subrange(lo as int, lo as int) =~= Seq::<Seq<char>>::empty());
    while k < hi
        invariant
            lo <= k <= hi <= ls@.len(),
            v == ls@.map_values(|l: Vec<char>| l@),
            out@ == join_lines(v.subrange(lo as int, k as int)),
        decreases hi - k,
    {
        let ghost before = out@;
        if k > lo {
            out.push('\n');
        }
        let l = &ls[k];
        let mut t: usize = 0;
        let ghost mid = out@;
        while t < l.len()
            invariant
                t <= l@.len(),
                out@ == mid + l@.take(t as int),
            decreases l@.len() - t,
        {
            out.push(l[t]);
            assert(l@.take(t + 1) =~= l@.take(t as int).push(l@[t as int]));
            t += 1;
        }
        assert(l@.take(l@.len() as int) =~= l@);
        let ghost nxt = v.subrange(lo as int, k + 1);
        assert(nxt.drop_last() =~= v.subrange(lo as int, k as int));
        assert(nxt.last() == l@);
        if k > lo {
            assert(out@ =~= join_lines(nxt));
        } else {
            assert(out@ =~= join_lines(nxt));
        }
        k += 1;
    }
    out
}

/// The characters of a string slice, in order.
pub fn chars_of(s: &str) -> (out: Vec<char>)
    ensures
        out@ == s@,
{
    let mut out: Vec<char> = Vec::new();
    for c in it: s.chars()
        invariant
            out@ == it.seq().take(it.index() as int),
            it.seq() == s@,
    {
        out.push(c);
    }
    out
}

/// Builds a `String` from characters (`FromIterator<char> for String`):
/// the string holds exactly these characters, in this order.
#[verifier::external_body]
pub(crate) fn string_from_chars(v: &[char]) -> (s: String)
    ensures
        s@ == v@,
{
    v.iter().collect()
}

/// Whether two character sequences are equal.
pub fn chars_eq(a: &[char], b: &[char]) -> (r: bool)
    ensures
        r == (a@ == b@),
{
    if a.len() != b.len() {
        return false;
    }
    let mut i: usize = 0;
    while i < a.len()
        invariant
            i <= a@.len(),
            a@.len() == b@.len(),
            forall|k: int| 0 <= k < i ==> a@[k] == b@[k],
        decreases a@.len() - i,
    {
        if a[i] != b[i] {
            return false;
        }
        i += 1;
    }
    assert(a@ =~= b@);
    true
}

/// Whether two string slices hold the same characters.
pub fn str_eq(a: &str, b: &str) -> (r: bool)
    ensures
        r == (a@ == b@),
{
    let x = chars_of(a);
    let y = chars_of(b);
    chars_eq(x.as_slice(), y.as_slice())
}

/// Whether `p` is a prefix of `s`.
pub open spec fn has_prefix(s: Seq<char>, p: Seq<char>) -> bool {
    p.len() <= s.len() && s.take(p.len() as int) == p
}

pub fn starts_with(s: &[char], p: &[char]) -> (r: bool)
    ensures
        r == has_prefix(s@, p@),
{
    if p.len() > s.len() {
        return false;
    }
    let mut i: usize = 0;
    while i < p.len()
        invariant
            i <= p@.len() <= s@.len(),
            forall|k: int| 0 <= k < i ==> s@[k] == p@[k],
        decreases p@.len() - i,
    {
        if s[i] != p[i] {
            assert(s@.take(p@.len() as int)[i as int] != p@[i as int]);
            return false;
        }
        i += 1;
    }
    assert(s@.take(p@.len() as int) =~= p@);
    true
}

/// Whether `c` occurs in `s`.
pub fn contains_char(s: &[char], c: char) -> (r: bool)
    ensures
        r == s@.contains(c),
{
    let mut i: usize = 0;
    while i < s.len()
        invariant
            i <= s@.len(),
            forall|k: int| 0 <= k < i ==> s@[k] != c,
        decreases s@.len() - i,
    {
        if s[i] == c {
            assert(s@[i as int] == c);
            return true;
        }
        i += 1;
    }
    false
}

/// A copy of the characters of `s`.
pub fn copy_chars(s: &[char]) -> (out: Vec<char>)
    ensures
        out@ == s@,
{
    let mut out: Vec<char> = Vec::new();
    let mut i: usize = 0;
    while i < s.len()
        invariant
            i <= s@.len(),
            out@ == s@.take(i as int),
        decreases s@.len() - i,
    {
        out.push(s[i]);
        assert(s@.take(i + 1) =~= s@.take(i as int).push(s@[i as int]));
        i += 1;
    }
    assert(s@.take(s@.len() as int) =~= s@);
    out
}

/// Appends the characters of `src` to `dst`.
pub fn push_all(dst: &mut Vec<char>, src: &[char])
    ensures
        final(dst)@ == old(dst)@ + src@,
{
    let mut i: usize = 0;
    while i < src.len()
        invariant
            i <= src@.len(),
            dst@ == old(dst)@ + src@.take(i as int),
        decreases src@.len() - i,
    {
        dst.push(src[i]);
        assert(src@.take(i + 1) =~= src@.take(i as int).push(src@[i as int]));
        i += 1;
    }
    assert(src@.take(src@.len() as int) =~= src@);
}

} // verus!
