//! Resource paths inside an EPUB: normalising and resolving `src` links.
use vstd::prelude::*;
use crate::sentences::{lemma_split_by_no_delim, lemma_split_by_nonempty, split_by};
use crate::text::{chars_of, string_from_chars, has_prefix, starts_with};

verus! {

/// `p` without its leading `/` characters.
pub open spec fn trim_slashes(p: Seq<char>) -> Seq<char>
    decreases p.len(),
{
    if p.len() > 0 && p[0] == '/' {
        trim_slashes(p.drop_first())
    } else {
        p
    }
}

pub open spec fn backslash_to_slash(c: char) -> char {
    if c == '\\' {
        '/'
    } else {
        c
    }
}

/// Leading `/` removed and every `\` turned into `/`.
pub open spec fn normalized(p: Seq<char>) -> Seq<char> {
    trim_slashes(p).map_values(|c: char| backslash_to_slash(c))
}

pub open spec fn slash_delim() -> spec_fn(char) -> bool {
    |c: char| c == '/'
}

/// The segment stack after reading `segs`: `.` is skipped, `..` drops the
/// last kept segment (if any), anything else is kept.
pub open spec fn fold_segments(segs: Seq<Seq<char>>) -> Seq<Seq<char>>
    decreases segs.len(),
{
    if segs.len() == 0 {
        Seq::empty()
    } else {
        let r = fold_segments(segs.drop_last());
        let s = segs.last();
        if s == seq!['.'] {
            r
        } else if s == seq!['.', '.'] {
            if r.len() > 0 {
                r.drop_last()
            } else {
                r
            }
        } else {
            r.push(s)
        }
    }
}

/// Segments joined with `/`.
pub open spec fn join_slash(ls: Seq<Seq<char>>) -> Seq<char>
    decreases ls.len(),
{
    if ls.len() == 0 {
        Seq::<char>::empty()
    } else if ls.len() == 1 {
        ls[0]
    } else {
        join_slash(ls.drop_last()) + seq!['/'] + ls.last()
    }
}

/// `p` with `.` and `..` segments resolved.
pub open spec fn cleaned(p: Seq<char>) -> Seq<char> {
    join_slash(fold_segments(split_by(p, slash_delim())))
}

/// A segment that cleaning keeps: no `/` in it, and neither `.` nor `..`.
pub open spec fn plain_segment(x: Seq<char>) -> bool {
    &&& forall|j: int| 0 <= j < x.len() ==> #[trigger] x[j] != '/'
    &&& x != seq!['.']
    &&& x != seq!['.', '.']
}

proof fn lemma_fold_keeps_plain(segs: Seq<Seq<char>>)
    requires
        forall|i: int, j: int| 0 <= i < segs.len() && 0 <= j < segs[i].len() ==> #[trigger] segs[i][j] != '/',
    ensures
        forall|k: int| 0 <= k < fold_segments(segs).len() ==> plain_segment(#[trigger] fold_segments(segs)[k]),
    decreases segs.len(),
{
    if segs.len() > 0 {
        lemma_fold_keeps_plain(segs.drop_last());
        let r = fold_segments(segs.drop_last());
        let x = segs.last();
        if x != seq!['.'] && x != seq!['.', '.'] {
            assert forall|k: int| 0 <= k < r.push(x).len() implies plain_segment(#[trigger] r.push(x)[k]) by {
                if k == r.len() {
                    assert forall|j: int| 0 <= j < x.len() implies #[trigger] x[j] != '/' by {
                        assert(segs[segs.len() - 1][j] == x[j]);
                    }
                }
            }
        }
    }
}

proof fn lemma_fold_plain_identity(segs: Seq<Seq<char>>)
    requires
        forall|k: int| 0 <= k < segs.len() ==> plain_segment(#[trigger] segs[k]),
    ensures
        fold_segments(segs) == segs,
    decreases segs.len(),
{
    if segs.len() > 0 {
        assert(plain_segment(segs[segs.len() - 1]));
        lemma_fold_plain_identity(segs.drop_last());
        assert(segs.drop_last().push(segs.last()) =~= segs);
    }
}

proof fn lemma_split_append_plain(x: Seq<char>, y: Seq<char>)
    requires
        forall|j: int| 0 <= j < y.len() ==> #[trigger] y[j] != '/',
    ensures
        split_by(x + y, slash_delim()) == split_by(x, slash_delim()).update(
            split_by(x, slash_delim()).len() - 1,
            split_by(x, slash_delim()).last() + y,
        ),
    decreases y.len(),
{
    let d = slash_delim();
    lemma_split_by_nonempty(x, d);
    if y.len() == 0 {
        assert(x + y =~= x);
        let p = split_by(x, d);
        assert(p.update(p.len() - 1, p.last() + y) =~= p);
    } else {
        let y0 = y.drop_last();
        lemma_split_append_plain(x, y0);
        assert((x + y).drop_last() =~= x + y0);
        assert((x + y).last() == y.last());
        assert(!d(y.last()));
        let p = split_by(x, d);
        let z = x + y;
        assert(z.len() > 0);
        assert(z.drop_last() =~= x + y0);
        lemma_split_by_nonempty(x + y0, d);
        let q = split_by(x + y0, d);
        assert(split_by(z, d) == q.update(q.len() - 1, q.last().push(z.last())));
        assert(q =~= p.update(p.len() - 1, p.last() + y0));
        assert(q.last().push(y.last()) =~= p.last() + y);
        assert(split_by(x + y, d) =~= p.update(p.len() - 1, p.last() + y));
    }
}

proof fn lemma_split_join(ls: Seq<Seq<char>>)
    requires
        ls.len() > 0,
        forall|k: int| 0 <= k < ls.len() ==> plain_segment(#[trigger] ls[k]),
    ensures
        split_by(join_slash(ls), slash_delim()) == ls,
    decreases ls.len(),
{
    let d = slash_delim();
    if ls.len() == 1 {
        assert(plain_segment(ls[0]));
        lemma_split_append_plain(Seq::<char>::empty(), ls[0]);
        assert(Seq::<char>::empty() + ls[0] =~= ls[0]);
        assert(split_by(Seq::<char>::empty(), d) == seq![Seq::<char>::empty()]);
        assert(seq![Seq::<char>::empty()].update(0, Seq::<char>::empty() + ls[0]) =~= ls);
    } else {
        let a = join_slash(ls.drop_last());
        lemma_split_join(ls.drop_last());
        let x = a + seq!['/'];
        assert(x.drop_last() =~= a);
        assert(d(x.last()));
        assert(split_by(x, d) == split_by(a, d).push(Seq::<char>::empty()));
        assert(plain_segment(ls[ls.len() - 1]));
        lemma_split_append_plain(x, ls.last());
        assert(join_slash(ls) == x + ls.last());
        let p = split_by(x, d);
        assert(p.update(p.len() - 1, p.last() + ls.last()) =~= ls.drop_last().push(ls.last()));
        assert(ls.drop_last().push(ls.last()) =~= ls);
    }
}

/// Cleaning a path twice is cleaning it once.
pub proof fn lemma_cleaned_idempotent(p: Seq<char>)
    ensures
        cleaned(cleaned(p)) == cleaned(p),
{
    let d = slash_delim();
    let segs = split_by(p, d);
    lemma_split_by_no_delim(p, d);
    lemma_fold_keeps_plain(segs);
    let ls = fold_segments(segs);
    if ls.len() == 0 {
        assert(cleaned(p) == Seq::<char>::empty());
        assert(split_by(Seq::<char>::empty(), d) == seq![Seq::<char>::empty()]);
        assert(fold_segments(seq![Seq::<char>::empty()]) =~= seq![Seq::<char>::empty()]) by {
            let e = seq![Seq::<char>::empty()];
            assert(e.drop_last() =~= Seq::<Seq<char>>::empty());
            assert(e.last().len() == 0);
            assert(e.last() != seq!['.']);
            assert(e.last() != seq!['.', '.']);
            let r = fold_segments(e.drop_last());
            assert(fold_segments(Seq::<Seq<char>>::empty()) == Seq::<Seq<char>>::empty());
            assert(r == Seq::<Seq<char>>::empty());
            assert(fold_segments(e) == r.push(e.last()));
        }
    } else {
        lemma_split_join(ls);
        lemma_fold_plain_identity(ls);
    }
}

/// Leading `/` removed and `\` turned into `/`.
pub fn normalize_path(p: &str) -> (out: String)
    ensures
        out@ == normalized(p@),
{
    let s = chars_of(p);
    let mut i: usize = 0;
    assert(s@.skip(0) =~= s@);
    while i < s.len() && s[i] == '/'
        invariant
            i <= s@.len(),
            trim_slashes(s@) == trim_slashes(s@.skip(i as int)),
        decreases s@.len() - i,
    {
        assert(s@.skip(i as int).drop_first() =~= s@.skip(i + 1));
        i += 1;
    }
    assert(trim_slashes(s@.skip(i as int)) == s@.skip(i as int));
    let mut out: Vec<char> = Vec::new();
    let mut k = i;
    while k < s.len()
        invariant
            i <= k <= s@.len(),
            out@ == s@.subrange(i as int, k as int).map_values(|c: char| backslash_to_slash(c)),
        decreases s@.len() - k,
    {
        let c = s[k];
        out.push(if c == '\\' {
            '/'
        } else {
            c
        });
        assert(s@.subrange(i as int, k + 1).map_values(|c: char| backslash_to_slash(c))
            =~= s@.subrange(i as int, k as int).map_values(|c: char| backslash_to_slash(c)).push(
            backslash_to_slash(c),
        ));
        k += 1;
    }
    assert(s@.skip(i as int) =~= s@.subrange(i as int, s@.len() as int));
    string_from_chars(out.as_slice())
}

fn is_dot(seg: &[char]) -> (r: bool)
    ensures
        r == (seg@ == seq!['.']),
{
    if seg.len() == 1 && seg[0] == '.' {
        assert(seg@ =~= seq!['.']);
        true
    } else {
        false
    }
}

fn is_dot_dot(seg: &[char]) -> (r: bool)
    ensures
        r == (seg@ == seq!['.', '.']),
{
    if seg.len() == 2 && seg[0] == '.' && seg[1] == '.' {
        assert(seg@ =~= seq!['.', '.']);
        true
    } else {
        false
    }
}

/// Resolves `.` and `..` segments of a `/`-separated path.
pub fn clean_path(p: &str) -> (out: String)
    ensures
        out@ == cleaned(p@),
{
    let s = chars_of(p);
    let ghost d = slash_delim();
    // split at '/' and fold the segment stack as we go
    let mut stack: Vec<Vec<char>> = Vec::new();
    let mut cur: Vec<char> = Vec::new();
    let mut done: Ghost<Seq<Seq<char>>> = Ghost(Seq::empty());
    let mut i: usize = 0;
    assert(s@.take(0) =~= Seq::<char>::empty());
    while i < s.len()
        invariant
            i <= s@.len(),
            d == slash_delim(),
            split_by(s@.take(i as int), d) == done@.push(cur@),
            stack@.map_values(|v: Vec<char>| v@) == fold_segments(done@),
        decreases s@.len() - i,
    {
        let c = s[i];
        assert(s@.take(i + 1).drop_last() =~= s@.take(i as int));
        assert(s@.take(i + 1).last() == c);
        if c == '/' {
            let ghost before = stack@;
            let ghost seg = cur@;
            if is_dot(cur.as_slice()) {
            } else if is_dot_dot(cur.as_slice()) {
                if stack.len() > 0 {
                    stack.pop();
                    assert(stack@.map_values(|v: Vec<char>| v@) =~= before.map_values(
                        |v: Vec<char>| v@,
                    ).drop_last());
                }
            } else {
                let mut seg_v: Vec<char> = Vec::new();
                std::mem::swap(&mut seg_v, &mut cur);
                stack.push(seg_v);
                assert(stack@.map_values(|v: Vec<char>| v@) =~= before.map_values(
                    |v: Vec<char>| v@,
                ).push(seg));
            }
            proof {
                assert(done@.push(seg).drop_last() =~= done@);
                done@ = done@.push(seg);
            }
            cur = Vec::new();
        } else {
            cur.push(c);
            proof {
                crate::sentences::lemma_split_by_nonempty(s@.take(i as int), d);
                assert(split_by(s@.take(i + 1), d) =~= done@.push(cur@));
            }
        }
        i += 1;
    }
    assert(s@.take(s@.len() as int) =~= s@);
    // the last segment
    let ghost before = stack@;
    let ghost seg = cur@;
    if is_dot(cur.as_slice()) {
    } else if is_dot_dot(cur.as_slice()) {
        if stack.len() > 0 {
            stack.pop();
            assert(stack@.map_values(|v: Vec<char>| v@) =~= before.map_values(|v: Vec<char>| v@).drop_last());
        }
    } else {
        stack.push(cur);
        assert(stack@.map_values(|v: Vec<char>| v@) =~= before.map_values(|v: Vec<char>| v@).push(seg));
    }
    proof {
        assert(done@.push(seg).drop_last() =~= done@);
    }
    let ghost sv = stack@.map_values(|v: Vec<char>| v@);
    assert(sv == fold_segments(split_by(s@, d)));
    // join with '/'
    let mut out: Vec<char> = Vec::new();
    let mut k: usize = 0;
    assert(sv.take(0) =~= Seq::<Seq<char>>::empty());
    while k < stack.len()
        invariant
            k <= stack@.len(),
            sv == stack@.map_values(|v: Vec<char>| v@),
            out@ == join_slash(sv.take(k as int)),
        decreases stack@.len() - k,
    {
        if k > 0 {
            out.push('/');
        }
        let seg = &stack[k];
        let mut t: usize = 0;
        let ghost mid = out@;
        while t < seg.len()
            invariant
                t <= seg@.len(),
                out@ == mid + seg@.take(t as int),
            decreases seg@.len() - t,
        {
            out.push(seg[t]);
            assert(seg@.take(t + 1) =~= seg@.take(t as int).push(seg@[t as int]));
            t += 1;
        }
        assert(seg@.take(seg@.len() as int) =~= seg@);
        assert(sv.take(k + 1).drop_last() =~= sv.take(k as int));
        assert(sv.take(k + 1).last() == seg@);
        assert(out@ =~= join_slash(sv.take(k + 1)));
        k += 1;
    }
    assert(sv.take(stack@.len() as int) =~= sv);
    string_from_chars(out.as_slice())
}

/// A path that every platform reads alike: not empty, `/`-separated, with
/// no `\` or `:`, no empty component (no `//`, no trailing `/`), and no
/// `.` component.
pub open spec fn plain_path(p: Seq<char>) -> bool {
    &&& p.len() > 0
    &&& p.last() != '/'
    &&& forall|i: int| 0 <= i < p.len() ==> #[trigger] p[i] != '\\' && p[i] != ':'
    &&& forall|i: int| 0 <= i < p.len() - 1 && #[trigger] p[i] == '/' ==> p[i + 1] != '/'
    &&& forall|i: int|
        0 <= i < p.len() && #[trigger] p[i] == '.' && (i == 0 || p[i - 1] == '/') ==> i + 1 < p.len() && p[i + 1]
            != '/'
}

/// A plain path whose file name is not `..`: it has a stem.
pub open spec fn has_plain_stem(p: Seq<char>) -> bool {
    plain_path(p) && file_name_of(p) != seq!['.', '.']
}

/// A relative path that a join appends as it is: no `:`, and not starting
/// with a separator.
pub open spec fn plain_rel(p: Seq<char>) -> bool {
    &&& forall|i: int| 0 <= i < p.len() ==> #[trigger] p[i] != ':'
    &&& p.len() > 0 ==> p[0] != '/' && p[0] != '\\'
}

/// The index of the last `c` in `p`, or -1.
pub open spec fn last_index(p: Seq<char>, c: char) -> int
    decreases p.len(),
{
    if p.len() == 0 {
        -1
    } else if p.last() == c {
        p.len() - 1
    } else {
        last_index(p.drop_last(), c)
    }
}

/// The folder of a plain path: what comes before its last `/` (`/` itself
/// when that is the first character), or the empty path without one.
pub open spec fn folder_of(p: Seq<char>) -> Seq<char> {
    let j = last_index(p, '/');
    if j < 0 {
        Seq::empty()
    } else if j == 0 {
        seq!['/']
    } else {
        p.take(j)
    }
}

/// The file name of a path: what follows its last `/`.
pub open spec fn file_name_of(p: Seq<char>) -> Seq<char> {
    p.skip(last_index(p, '/') + 1)
}

/// The stem of a file name: what comes before its last `.`, unless that
/// dot is its first character or it has none; then the whole name.
pub open spec fn stem_of(name: Seq<char>) -> Seq<char> {
    let d = last_index(name, '.');
    if d > 0 {
        name.take(d)
    } else {
        name
    }
}

/// A string, if any, as characters.
pub open spec fn opt_chars(o: Option<String>) -> Option<Seq<char>> {
    match o {
        Some(s) => Some(s@),
        None => None,
    }
}

/// The extension of a file name: what follows its last `.`, when that dot
/// is not its first character.
pub open spec fn ext_of(name: Seq<char>) -> Option<Seq<char>> {
    let d = last_index(name, '.');
    if d > 0 {
        Some(name.skip(d + 1))
    } else {
        None
    }
}

/// `std::path::Path::extension` of `p`, as a string.  Of a path of
/// `/`-separated parts it is `std_extension` on every platform; of other
/// paths nothing is promised.
#[verifier::external_body]
pub(crate) fn path_extension(p: &str) -> (out: Option<String>)
    ensures
        slash_path(p@) ==> opt_chars(out) == std_extension(p@),
{
    std::path::Path::new(p).extension().and_then(|s| s.to_str()).map(|s| s.to_string())
}

/// A path of `/`-separated parts that every platform reads alike: no
/// `\` or `:`, and not starting with `//`.
pub open spec fn slash_path(p: Seq<char>) -> bool {
    &&& forall|i: int| 0 <= i < p.len() ==> #[trigger] p[i] != '\\' && p[i] != ':'
    &&& !(p.len() >= 2 && p[0] == '/' && p[1] == '/')
}

/// Where the components of `p` begin: after a leading `/` (the root), or,
/// without a root, after a leading `.` component.
pub open spec fn body_start(p: Seq<char>) -> int {
    if p.len() > 0 && p[0] == '/' {
        1
    } else if p.len() > 0 && p[0] == '.' && (p.len() == 1 || p[1] == '/') {
        1
    } else {
        0
    }
}

/// The last component of the first `n` characters of `p`, and how many
/// characters it takes with the separator before it.
pub open spec fn last_component(p: Seq<char>, n: int) -> (Seq<char>, int) {
    let bs = body_start(p);
    let body = p.subrange(bs, n);
    let j = last_index(body, '/');
    if j < 0 {
        (body, n - bs)
    } else {
        (body.skip(j + 1), n - (bs + j))
    }
}

/// How many of the first `n` characters of `p` are left once trailing
/// empty and `.` components are dropped.
pub open spec fn trimmed_len(p: Seq<char>, n: int) -> int
    decreases n,
{
    if n <= body_start(p) || n > p.len() {
        n
    } else {
        let (c, size) = last_component(p, n);
        if (c.len() == 0 || c == seq!['.']) && 0 < size <= n {
            trimmed_len(p, n - size)
        } else {
            n
        }
    }
}

/// The parent of a path as `std::path` finds it: the path without its
/// last component (trailing separators and `.` components aside), itself
/// without trailing separators and `.` components; the empty path for a
/// lone `.`; none for the root or the empty path.
pub open spec fn std_parent(p: Seq<char>) -> Option<Seq<char>> {
    let bs = body_start(p);
    let t = trimmed_len(p, p.len() as int);
    if t > bs {
        Some(p.take(trimmed_len(p, t - last_component(p, t).1)))
    } else if bs == 1 && p[0] == '.' {
        Some(Seq::empty())
    } else {
        None
    }
}

/// The file stem of a path as `std::path` finds it: the stem of its last
/// component (trailing separators and `.` components aside), none when
/// that is `..` or there is no component.
pub open spec fn std_file_stem(p: Seq<char>) -> Option<Seq<char>> {
    let t = trimmed_len(p, p.len() as int);
    let c = last_component(p, t).0;
    if t > body_start(p) && c != seq!['.', '.'] {
        Some(stem_of(c))
    } else {
        None
    }
}

/// The last `c` among the first `n` characters, seen from index `b`: its
/// index from `b` when it stands at or after `b`.
proof fn lemma_last_index_from(p: Seq<char>, c: char, b: int, n: int)
    requires
        0 <= b <= n <= p.len(),
    ensures
        last_index(p.subrange(b, n), c) == if last_index(p.take(n), c) >= b {
            last_index(p.take(n), c) - b
        } else {
            -1
        },
    decreases n - b,
{
    lemma_last_index(p.take(n), c);
    if n > b {
        assert(p.subrange(b, n).drop_last() =~= p.subrange(b, n - 1));
        assert(p.take(n).drop_last() =~= p.take(n - 1));
        assert(p.subrange(b, n).last() == p[n - 1]);
        assert(p.take(n).last() == p[n - 1]);
        lemma_last_index_from(p, c, b, n - 1);
    } else {
        assert(p.subrange(b, n) =~= Seq::<char>::empty());
    }
}

/// In a plain path, the part before a `/` (or the whole path) ends in a
/// component that is neither empty nor `.`: trimming leaves it whole.
proof fn lemma_plain_trimmed(p: Seq<char>, n: int)
    requires
        plain_path(p),
        body_start(p) < n <= p.len(),
        n == p.len() || p[n] == '/',
    ensures
        trimmed_len(p, n) == n,
        last_component(p, n).1 == n - (if last_index(p.take(n), '/') >= body_start(p) {
            last_index(p.take(n), '/')
        } else {
            body_start(p)
        }),
{
    let bs = body_start(p);
    lemma_last_index_from(p, '/', bs, n);
    lemma_last_index(p.take(n), '/');
    let k = last_index(p.take(n), '/');
    let (c, size) = last_component(p, n);
    assert(p[n - 1] != '/') by {
        if n == p.len() {
            assert(p.last() == p[n - 1]);
        } else {
            assert(p[n - 1] == '/' ==> p[n] != '/');
        }
    }
    if k >= bs {
        assert(k < n - 1) by {
            if k == n - 1 {
                assert(p.take(n)[k] == p[n - 1]);
            }
        }
        assert(c =~= p.subrange(k + 1, n));
        assert(c.len() > 0);
        if c == seq!['.'] {
            assert(p[k + 1] == c[0]);
            assert(p.take(n)[k] == p[k]);
            assert(p[k] == '/');
        }
    } else {
        assert(c =~= p.subrange(bs, n));
        if c == seq!['.'] {
            assert(p[bs] == c[0]);
            if bs == 1 {
                assert(p[0] == '/');
            }
        }
    }
}

/// For a plain path, `std_parent` is the folder.
proof fn lemma_plain_parent(p: Seq<char>)
    requires
        plain_path(p),
    ensures
        std_parent(p) == Some(folder_of(p)),
{
    let bs = body_start(p);
    let n = p.len() as int;
    assert(bs == if p[0] == '/' {
        1int
    } else {
        0int
    }) by {
        if p[0] == '.' {
            assert(!(p.len() == 1 || p[1] == '/'));
        }
    }
    assert(bs < n) by {
        if bs == 1 && n == 1 {
            assert(p.last() == p[0]);
        }
    }
    lemma_plain_trimmed(p, n);
    assert(p.take(n) =~= p);
    lemma_last_index(p, '/');
    let l = last_index(p, '/');
    let r = if l >= bs {
        l
    } else {
        bs
    };
    if l >= bs {
        assert(l > bs) by {
            if l == bs && bs == 1 {
                assert(p[0] == '/' && p[1] == '/');
            }
            if l == 0 && bs == 0 {
                assert(p[0] == '/');
            }
        }
        assert(p.take(r).take(r) =~= p.take(r));
        lemma_last_index(p.take(r), '/');
        lemma_plain_trimmed(p, r);
    } else {
        if bs == 0 {
            assert(l < 0) by {
                if l == 0 {
                    assert(p[0] == '/');
                }
            }
        }
    }
}

/// For a plain path whose file name is not `..`, `std_file_stem` is the
/// stem of that name.
pub proof fn lemma_plain_file_stem(p: Seq<char>)
    requires
        has_plain_stem(p),
    ensures
        std_file_stem(p) == Some(stem_of(file_name_of(p))),
        std_extension(p) == ext_of(file_name_of(p)),
{
    let bs = body_start(p);
    let n = p.len() as int;
    assert(bs == if p[0] == '/' {
        1int
    } else {
        0int
    }) by {
        if p[0] == '.' {
            assert(!(p.len() == 1 || p[1] == '/'));
        }
    }
    assert(bs < n) by {
        if bs == 1 && n == 1 {
            assert(p.last() == p[0]);
        }
    }
    lemma_plain_trimmed(p, n);
    assert(p.take(n) =~= p);
    lemma_last_index(p, '/');
    lemma_last_index_from(p, '/', bs, n);
    let l = last_index(p, '/');
    let c = last_component(p, n).0;
    if l >= bs {
        assert(c =~= file_name_of(p));
    } else {
        assert(l < 0 || (l == 0 && bs == 1)) by {
            if l == 0 && bs == 0 {
                assert(p[0] == '/');
            }
        }
        assert(c =~= file_name_of(p));
    }
}

/// The extension of a path as `std::path` finds it: that of its last
/// component (trailing separators and `.` components aside), none when
/// that is `..` or there is no component.
pub open spec fn std_extension(p: Seq<char>) -> Option<Seq<char>> {
    let t = trimmed_len(p, p.len() as int);
    let c = last_component(p, t).0;
    if t > body_start(p) && c != seq!['.', '.'] {
        ext_of(c)
    } else {
        None
    }
}

/// The extension of `p` (`std::path::Path::extension`): `std_extension`
/// for a path of `/`-separated parts, and for a plain path whose file name
/// is not `..` the extension of that name.
pub(crate) fn extension(p: &str) -> (out: Option<String>)
    ensures
        slash_path(p@) ==> opt_chars(out) == std_extension(p@),
        has_plain_stem(p@) ==> opt_chars(out) == ext_of(file_name_of(p@)),
{
    let out = path_extension(p);
    proof {
        if has_plain_stem(p@) {
            lemma_plain_is_slash(p@);
            lemma_plain_file_stem(p@);
        }
    }
    out
}

/// `std::path::Path::parent` of `p`, as a string (`None` for a path that
/// ends in a root or prefix, or is empty).  Of a path of `/`-separated
/// parts it is `std_parent` on every platform; of other paths nothing is
/// promised, as they follow the separators and prefixes of the platform.
#[verifier::external_body]
pub(crate) fn path_parent(p: &str) -> (out: Option<String>)
    ensures
        slash_path(p@) ==> opt_chars(out) == std_parent(p@),
{
    std::path::Path::new(p).parent().map(|d| d.to_string_lossy().into_owned())
}

/// A base path that a join separates from what follows: not empty, not
/// ending in `/`, and without `\` or `:` (so without a drive prefix).
pub open spec fn sep_needed(base: Seq<char>) -> bool {
    &&& base.len() > 0
    &&& base.last() != '/'
    &&& forall|i: int| 0 <= i < base.len() ==> #[trigger] base[i] != '\\' && base[i] != ':'
}

/// `out` is `base`, a separator (`/` or `\`) and `rel`.
pub open spec fn joined_by_sep(base: Seq<char>, rel: Seq<char>, out: Seq<char>) -> bool {
    exists|sep: char| (sep == '/' || sep == '\\') && out == base + seq![sep] + rel
}

/// A plain path is a path of `/`-separated parts.
pub proof fn lemma_plain_is_slash(p: Seq<char>)
    requires
        plain_path(p),
    ensures
        slash_path(p),
{
    if p.len() >= 2 && p[0] == '/' {
        assert(p[1] != '/');
    }
}

/// The parent folder of `p` (`std::path::Path::parent`): `std_parent` for a
/// path of `/`-separated parts, and for a plain path its folder.
pub(crate) fn parent_dir(p: &str) -> (out: Option<String>)
    ensures
        slash_path(p@) ==> opt_chars(out) == std_parent(p@),
        plain_path(p@) ==> opt_chars(out) == Some(folder_of(p@)),
{
    let out = path_parent(p);
    proof {
        if plain_path(p@) {
            lemma_plain_is_slash(p@);
            lemma_plain_parent(p@);
        }
    }
    out
}

/// `std::path::Path::join` of `base` and `rel`, as a string.  A plain
/// relative `rel` is appended to `base`: as it is to an empty `base` or to
/// `/`; after the platform's separator (`/`, or `\` on Windows) to a base
/// without `\` or `:` that does not end in `/`.  Of other inputs nothing is
/// promised.
#[verifier::external_body]
fn path_join(base: &str, rel: &str) -> (out: String)
    ensures
        plain_rel(rel@) && (base@.len() == 0 || base@ == seq!['/']) ==> out@ == base@ + rel@,
        plain_rel(rel@) && sep_needed(base@) ==> joined_by_sep(base@, rel@, out@),
{
    std::path::Path::new(base).join(rel).to_string_lossy().into_owned()
}

/// Whether `s` holds `://`.
pub fn has_scheme_chars(s: &[char]) -> (r: bool)
    ensures
        r == exists|k: int| #[trigger] scheme_at(s@, k),
{
    let n = s.len();
    let mut k: usize = 0;
    if n < 3 {
        return false;
    }
    while k < n - 2
        invariant
            n == s@.len(),
            n >= 3,
            k <= n - 2,
            forall|j: int| 0 <= j < k ==> !#[trigger] scheme_at(s@, j),
        decreases n - k,
    {
        assert(k < n);
        if s[k] == ':' && s[k + 1] == '/' && s[k + 2] == '/' {
            assert(scheme_at(s@, k as int));
            return true;
        }
        k += 1;
    }
    false
}

/// `://` stands at `k`.
pub open spec fn scheme_at(s: Seq<char>, k: int) -> bool {
    0 <= k && k + 2 < s.len() && s[k] == ':' && s[k + 1] == '/' && s[k + 2] == '/'
}

pub open spec fn is_absolute_or_url(src: Seq<char>) -> bool {
    has_prefix(src, seq!['/']) || exists|k: int| #[trigger] scheme_at(src, k)
}

/// The resolved form of an already joined relative path.
pub fn resolve_joined(joined: &str) -> (out: String)
    ensures
        out@ == cleaned(normalized(joined@)),
{
    let n = normalize_path(joined);
    clean_path(n.as_str())
}

/// Where a relative image source `src` of the chapter file `chapter_path`
/// leads: the chapter's folder, `/` and `src`, normalised and cleaned.
pub open spec fn resolved_rel(chapter_path: Seq<char>, src: Seq<char>) -> Seq<char> {
    cleaned(normalized(folder_of(chapter_path) + seq!['/'] + src))
}

/// `r` is what resolving image source `src` against the chapter file
/// `chapter_path` gives: an absolute path or a URL only normalised; a
/// relative one against a plain chapter path (and without `:`) joined to
/// the chapter's folder, normalised and cleaned; otherwise some joined
/// path, normalised and cleaned.
pub open spec fn path_resolution(chapter_path: Seq<char>, src: Seq<char>, r: Seq<char>) -> bool {
    if is_absolute_or_url(src) {
        r == normalized(src)
    } else if plain_path(chapter_path) && plain_rel(src) {
        r == resolved_rel(chapter_path, src)
    } else {
        exists|j: Seq<char>| r == cleaned(normalized(j))
    }
}

/// Resolves image source `src` against the chapter file `chapter_path`:
/// an absolute path or a URL is only normalised; a relative one is joined
/// to the chapter's folder (by `std::path`), normalised and cleaned.
pub fn resolve_path(chapter_path: &str, src: &str) -> (out: String)
    ensures
        path_resolution(chapter_path@, src@, out@),
{
    let s = chars_of(src);
    let slash: Vec<char> = vec!['/'];
    assert(slash@ =~= seq!['/']);
    if starts_with(s.as_slice(), slash.as_slice()) || has_scheme_chars(s.as_slice()) {
        return normalize_path(src);
    }
    let base = match parent_dir(chapter_path) {
        Some(b) => b,
        None => String::new(),
    };
    let joined = path_join(base.as_str(), src);
    let out = resolve_joined(joined.as_str());
    proof {
        let c = chapter_path@;
        let sv = src@;
        if plain_path(c) && plain_rel(sv) {
            assert(!has_prefix(sv, seq!['/']));
            if sv.len() > 0 {
                assert(sv.take(1) =~= seq![sv[0]]);
            }
            lemma_last_index(c, '/');
            let j = last_index(c, '/');
            let f = folder_of(c);
            assert(base@ == f);
            if j < 0 {
                assert(joined@ == sv);
                assert((f + seq!['/'] + sv).drop_first() =~= sv);
            } else if j == 0 {
                assert(joined@ == seq!['/'] + sv);
                assert((f + seq!['/'] + sv).drop_first() =~= seq!['/'] + sv);
                assert((seq!['/'] + sv).drop_first() =~= sv);
            } else {
                assert(c[j] == '/');
                assert(c[j - 1] != '/');
                assert(f.last() == c[j - 1]);
                assert forall|i: int| 0 <= i < f.len() implies #[trigger] f[i] != '\\' && f[i] != ':' by {
                    assert(f[i] == c[i]);
                }
                assert(sep_needed(f));
                let sep = choose|sep: char| (sep == '/' || sep == '\\') && joined@ == f + seq![sep] + sv;
                lemma_normalized_sep(f, sep, sv);
                lemma_normalized_sep(f, '/', sv);
            }
        }
    }
    out
}

/// `last_index` finds the last occurrence.
proof fn lemma_last_index(p: Seq<char>, c: char)
    ensures
        -1 <= last_index(p, c) < p.len(),
        last_index(p, c) >= 0 ==> p[last_index(p, c)] == c,
        forall|k: int| last_index(p, c) < k < p.len() ==> #[trigger] p[k] != c,
    decreases p.len(),
{
    if p.len() > 0 && p.last() != c {
        lemma_last_index(p.drop_last(), c);
        assert forall|k: int| last_index(p, c) < k < p.len() implies #[trigger] p[k] != c by {
            if k < p.len() - 1 {
                assert(p[k] == p.drop_last()[k]);
            }
        }
    }
}

/// Leading slashes of `x + y` are those of `x`, when `x` holds another
/// character.
proof fn lemma_trim_concat(x: Seq<char>, y: Seq<char>)
    requires
        x.len() > 0,
        x.last() != '/',
    ensures
        trim_slashes(x + y) == trim_slashes(x) + y,
    decreases x.len(),
{
    if x[0] == '/' {
        assert(x.len() > 1);
        assert((x + y).drop_first() =~= x.drop_first() + y);
        lemma_trim_concat(x.drop_first(), y);
    } else {
        assert((x + y)[0] == x[0]);
    }
}

/// Normalising turns either separator between a folder and a name into `/`.
proof fn lemma_normalized_sep(f: Seq<char>, sep: char, y: Seq<char>)
    requires
        f.len() > 0,
        f.last() != '/',
        sep == '/' || sep == '\\',
    ensures
        normalized(f + seq![sep] + y) == trim_slashes(f).map_values(|c: char| backslash_to_slash(c)) + seq!['/']
            + y.map_values(|c: char| backslash_to_slash(c)),
{
    lemma_trim_concat(f, seq![sep] + y);
    assert(f + seq![sep] + y =~= f + (seq![sep] + y));
    assert((trim_slashes(f) + (seq![sep] + y)).map_values(|c: char| backslash_to_slash(c)) =~= trim_slashes(
        f,
    ).map_values(|c: char| backslash_to_slash(c)) + seq!['/'] + y.map_values(|c: char| backslash_to_slash(c)));
}

} // verus!
