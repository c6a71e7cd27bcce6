//! Markdown to plain text: markup is removed, the text it marks is kept.
use vstd::prelude::*;

verus! {

/// The first index `k >= from` at which `p` holds, or `s.len()` when none
/// below `s.len()` does (then also when `from >= s.len()`).
pub open spec fn first_from(len: int, from: int, p: spec_fn(int) -> bool) -> int
    decreases len - from,
{
    if from >= len {
        len
    } else if p(from) {
        from
    } else {
        first_from(len, from + 1, p)
    }
}

pub proof fn lemma_first_from_bounds(len: int, from: int, p: spec_fn(int) -> bool)
    requires
        0 <= from,
        0 <= len,
    ensures
        from >= len ==> first_from(len, from, p) == len,
        from < len ==> from <= first_from(len, from, p) <= len,
    decreases len - from,
{
    if from < len && !p(from) {
        lemma_first_from_bounds(len, from + 1, p);
    }
}

/// Characterises `first_from` by the index a scanning loop stops at.
pub proof fn lemma_first_from_is(len: int, from: int, j: int, p: spec_fn(int) -> bool)
    requires
        0 <= from <= j <= len,
        forall|k: int| from <= k < j ==> !#[trigger] p(k),
        j == len || p(j),
    ensures
        first_from(len, from, p) == j,
    decreases j - from,
{
    if from < j {
        lemma_first_from_is(len, from + 1, j, p);
    }
}

pub open spec fn char_at(s: Seq<char>, c: char) -> spec_fn(int) -> bool {
    |k: int| s[k] == c
}

/// Three backticks start at `k`.
pub open spec fn fence_at(s: Seq<char>, k: int) -> bool {
    k + 2 < s.len() && s[k] == '`' && s[k + 1] == '`' && s[k + 2] == '`'
}

pub open spec fn fence_end(s: Seq<char>) -> spec_fn(int) -> bool {
    |k: int| fence_at(s, k)
}

/// The closing pair `c c` at `k`, or no room left for one.
pub open spec fn pair_end(s: Seq<char>, c: char) -> spec_fn(int) -> bool {
    |k: int| k + 1 >= s.len() || (s[k] == c && s[k + 1] == c)
}

/// Characters that continue a heading marker: `#` and space.
pub open spec fn heading_rest(s: Seq<char>) -> spec_fn(int) -> bool {
    |k: int| s[k] != '#' && s[k] != ' '
}

/// Scans from `j` with bracket nesting `depth`, stopping at the end or
/// when the nesting reaches zero; yields the stop index and the depth.
pub open spec fn bracket_scan(s: Seq<char>, j: int, depth: int) -> (int, int)
    decreases s.len() - j,
{
    if j >= s.len() || depth <= 0 {
        (j, depth)
    } else {
        let nd = if s[j] == '[' {
            depth + 1
        } else if s[j] == ']' {
            depth - 1
        } else {
            depth
        };
        bracket_scan(s, j + 1, nd)
    }
}

pub proof fn lemma_bracket_scan(s: Seq<char>, j: int, depth: int)
    requires
        0 <= j,
        depth >= 1,
    ensures
        ({
            let (e, d) = bracket_scan(s, j, depth);
            &&& j <= e
            &&& (e <= s.len() || e == j)
            &&& (d == 0 ==> e > j)
            &&& d >= 0
        }),
    decreases s.len() - j,
{
    if j < s.len() {
        let nd = if s[j] == '[' {
            depth + 1
        } else if s[j] == ']' {
            depth - 1
        } else {
            depth
        };
        if nd >= 1 {
            lemma_bracket_scan(s, j + 1, nd);
        } else {
            assert(bracket_scan(s, j + 1, nd) == (j + 1, nd));
        }
    }
}

/// Index just past a closing delimiter found at `j`, or `j` when the
/// text ended first.
pub open spec fn past(s: Seq<char>, j: int, width: int) -> int {
    if j < s.len() {
        j + width
    } else {
        j
    }
}

/// One markup step at `i` (with `i < s.len()`): what it emits and where the
/// next step starts.
pub open spec fn md_step(s: Seq<char>, i: int) -> (Seq<char>, int) {
    let len = s.len() as int;
    if fence_at(s, i) {
        // ``` code ``` : the code is kept
        let j = first_from(len, i + 3, fence_end(s));
        (s.subrange(i + 3, j), j + 3)
    } else if s[i] == '`' {
        // `code` : the code is kept
        let j = first_from(len, i + 1, char_at(s, '`'));
        (s.subrange(i + 1, j), past(s, j, 1))
    } else if i + 1 < len && s[i] == '!' && s[i + 1] == '[' {
        // ![alt](url) : dropped entirely
        let j = first_from(len, i + 2, char_at(s, ']'));
        let a = past(s, j, 1);
        if a < len && s[a] == '(' {
            (Seq::<char>::empty(), past(s, first_from(len, a + 1, char_at(s, ')')), 1))
        } else {
            (Seq::<char>::empty(), a)
        }
    } else if s[i] == '[' {
        // [text](url) : the text is kept; a lone `[` is kept
        let (j, depth) = bracket_scan(s, i + 1, 1);
        let text_end = if depth == 0 {
            j - 1
        } else {
            i + 1
        };
        if text_end + 1 < len && s[text_end + 1] == '(' {
            (
                s.subrange(i + 1, text_end),
                past(s, first_from(len, text_end + 1, char_at(s, ')')), 1),
            )
        } else {
            (seq!['['], i + 1)
        }
    } else if i + 1 < len && s[i] == '~' && s[i + 1] == '~' {
        // ~~text~~
        let j = first_from(len, i + 2, pair_end(s, '~'));
        (s.subrange(i + 2, j), if j + 1 < len {
            j + 2
        } else {
            j
        })
    } else if i + 1 < len && s[i] == '*' && s[i + 1] == '*' {
        // **text**
        let j = first_from(len, i + 2, pair_end(s, '*'));
        (s.subrange(i + 2, j), if j + 1 < len {
            j + 2
        } else {
            j
        })
    } else if s[i] == '*' {
        // *text*
        let j = first_from(len, i + 1, char_at(s, '*'));
        (s.subrange(i + 1, j), past(s, j, 1))
    } else if s[i] == '>' && (i == 0 || s[i - 1] == '\n') {
        // > quote marker, with one following space
        (Seq::<char>::empty(), if i + 1 < len && s[i + 1] == ' ' {
            i + 2
        } else {
            i + 1
        })
    } else if s[i] == '#' && (i == 0 || s[i - 1] == '\n') {
        // heading marker: the run of `#` and spaces
        (Seq::<char>::empty(), first_from(len, i + 1, heading_rest(s)))
    } else {
        (seq![s[i]], i + 1)
    }
}

pub proof fn lemma_md_step_advances(s: Seq<char>, i: int)
    requires
        0 <= i < s.len(),
    ensures
        md_step(s, i).1 > i,
        md_step(s, i).0.len() <= s.len(),
{
    let len = s.len() as int;
    lemma_first_from_bounds(len, i + 1, char_at(s, '`'));
    lemma_first_from_bounds(len, i + 2, char_at(s, ']'));
    lemma_first_from_bounds(len, i + 2, pair_end(s, '~'));
    lemma_first_from_bounds(len, i + 2, pair_end(s, '*'));
    lemma_first_from_bounds(len, i + 1, char_at(s, '*'));
    lemma_first_from_bounds(len, i + 1, heading_rest(s));
    if fence_at(s, i) {
        lemma_first_from_bounds(len, i + 3, fence_end(s));
    }
    if s[i] == '[' {
        lemma_bracket_scan(s, i + 1, 1);
        let (j, depth) = bracket_scan(s, i + 1, 1);
        let text_end = if depth == 0 {
            j - 1
        } else {
            i + 1
        };
        if text_end + 1 < len {
            lemma_first_from_bounds(len, text_end + 1, char_at(s, ')'));
        }
    }
    let j = first_from(len, i + 2, char_at(s, ']'));
    let a = past(s, j, 1);
    if a < len {
        lemma_first_from_bounds(len, a + 1, char_at(s, ')'));
    }
}

/// The plain text of `s` from index `i` on.
pub open spec fn md_plain_from(s: Seq<char>, i: int) -> Seq<char>
    decreases s.len() - i,
{
    if i < 0 || i >= s.len() {
        Seq::<char>::empty()
    } else {
        let st = md_step(s, i);
        proof {
            lemma_md_step_advances(s, i);
        }
        if st.1 < s.len() {
            st.0 + md_plain_from(s, st.1)
        } else {
            st.0
        }
    }
}

/// No character of `s` starts markup: no backtick, bracket, tilde,
/// asterisk, `>` or `#`.
pub open spec fn no_markup(s: Seq<char>) -> bool {
    forall|k: int|
        0 <= k < s.len() ==> #[trigger] s[k] != '`' && s[k] != '[' && s[k] != '~' && s[k] != '*' && s[k]
            != '>' && s[k] != '#'
}

proof fn lemma_plain_from_no_markup(s: Seq<char>, i: int)
    requires
        no_markup(s),
        0 <= i <= s.len(),
    ensures
        md_plain_from(s, i) == s.skip(i),
    decreases s.len() - i,
{
    if i < s.len() {
        assert(s[i] != '`' && s[i] != '[' && s[i] != '~' && s[i] != '*' && s[i] != '>' && s[i] != '#');
        assert(!fence_at(s, i));
        assert(md_step(s, i) == (seq![s[i]], i + 1));
        lemma_plain_from_no_markup(s, i + 1);
        assert(s.skip(i) =~= seq![s[i]] + s.skip(i + 1));
    } else {
        assert(s.skip(i) =~= Seq::<char>::empty());
    }
}

/// Text without markup is its own plain text.
pub proof fn lemma_plain_text_unchanged(s: Seq<char>)
    requires
        no_markup(s),
    ensures
        md_plain(s) == s,
{
    lemma_plain_from_no_markup(s, 0);
    assert(s.skip(0) =~= s);
}

/// The plain text of Markdown source `s`.
pub open spec fn md_plain(s: Seq<char>) -> Seq<char> {
    md_plain_from(s, 0)
}

/// Scans from `from` to the first index where `c` stands, pushing what it
/// passes onto `out`.
fn copy_until(s: &[char], from: usize, c: char, out: &mut Vec<char>) -> (j: usize)
    requires
        from <= s@.len(),
    ensures
        j == first_from(s@.len() as int, from as int, char_at(s@, c)),
        from <= j <= s@.len(),
        final(out)@ == old(out)@ + s@.subrange(from as int, j as int),
{
    let mut j = from;
    while j < s.len() && s[j] != c
        invariant
            from <= j <= s@.len(),
            forall|k: int| from <= k < j ==> s@[k] != c,
            out@ == old(out)@ + s@.subrange(from as int, j as int),
        decreases s@.len() - j,
    {
        out.push(s[j]);
        assert(s@.subrange(from as int, j + 1) =~= s@.subrange(from as int, j as int).push(
            s@[j as int],
        ));
        j += 1;
    }
    proof {
        lemma_first_from_is(s@.len() as int, from as int, j as int, char_at(s@, c));
    }
    j
}

/// Scans from `from` to the first index where `c` stands.
fn skip_until(s: &[char], from: usize, c: char) -> (j: usize)
    requires
        from <= s@.len(),
    ensures
        j == first_from(s@.len() as int, from as int, char_at(s@, c)),
        from <= j <= s@.len(),
{
    let mut j = from;
    while j < s.len() && s[j] != c
        invariant
            from <= j <= s@.len(),
            forall|k: int| from <= k < j ==> s@[k] != c,
        decreases s@.len() - j,
    {
        j += 1;
    }
    proof {
        lemma_first_from_is(s@.len() as int, from as int, j as int, char_at(s@, c));
    }
    j
}

/// Scans from `from` to the closing pair `c c` (or to the last index),
/// pushing what it passes onto `out`.
fn copy_until_pair(s: &[char], from: usize, c: char, out: &mut Vec<char>) -> (j: usize)
    requires
        1 <= from <= s@.len(),
    ensures
        j == first_from(s@.len() as int, from as int, pair_end(s@, c)),
        from <= j <= s@.len(),
        final(out)@ == old(out)@ + s@.subrange(from as int, j as int),
{
    let len = s.len();
    let mut j = from;
    while j < len && len - j > 1 && !(s[j] == c && s[j + 1] == c)
        invariant
            from <= j <= len,
            len == s@.len(),
            forall|k: int| from <= k < j ==> !#[trigger] pair_end(s@, c)(k),
            out@ == old(out)@ + s@.subrange(from as int, j as int),
        decreases len - j,
    {
        out.push(s[j]);
        assert(s@.subrange(from as int, j + 1) =~= s@.subrange(from as int, j as int).push(
            s@[j as int],
        ));
        j += 1;
    }
    proof {
        if j < len {
            assert(pair_end(s@, c)(j as int));
        }
        lemma_first_from_is(len as int, from as int, j as int, pair_end(s@, c));
    }
    j
}

/// Removes Markdown markup: code fences and inline code keep their code,
/// images are dropped, links keep their text, `~~`, `**` and `*` keep the
/// text between them, and quote and heading markers at a line start go.
pub fn strip_markdown(text: &str) -> (out: String)
    ensures
        out@ == md_plain(text@),
{
    let s = crate::text::chars_of(text);
    let v = strip_markdown_chars(s.as_slice());
    crate::text::string_from_chars(v.as_slice())
}

/// `strip_markdown` on characters.
pub fn strip_markdown_chars(chars: &[char]) -> (out: Vec<char>)
    ensures
        out@ == md_plain(chars@),
{
    let ghost s = chars@;
    let len = chars.len();
    let mut out: Vec<char> = Vec::new();
    let mut i: usize = 0;
    while i < len
        invariant
            s == chars@,
            len == s.len(),
            out@ + md_plain_from(s, i as int) == md_plain(s),
        decreases len - i,
    {
        let ghost o = out@;
        let ghost st = md_step(s, i as int);
        proof {
            lemma_md_step_advances(s, i as int);
            assert(md_plain_from(s, i as int) == st.0 + md_plain_from(s, st.1));
        }
        if len - i > 2 && chars[i] == '`' && chars[i + 1] == '`' && chars[i + 2] == '`' {
            let mut j = i + 3;
            while j < len && !(len - j > 2 && chars[j] == '`' && chars[j + 1] == '`' && chars[j
                + 2] == '`')
                invariant
                    i + 3 <= j <= len,
                    len == s.len(),
                    s == chars@,
                    forall|k: int| i + 3 <= k < j ==> !#[trigger] fence_at(s, k),
                    out@ == o + s.subrange(i + 3, j as int),
                decreases len - j,
            {
                out.push(chars[j]);
                assert(s.subrange(i + 3, j + 1) =~= s.subrange(i + 3, j as int).push(s[j as int]));
                j += 1;
            }
            proof {
                lemma_first_from_is(len as int, i + 3, j as int, fence_end(s));
            }
            i = if len - j > 3 {
                j + 3
            } else {
                len
            };
        } else if chars[i] == '`' {
            let j = copy_until(chars, i + 1, '`', &mut out);
            i = if j < len {
                j + 1
            } else {
                j
            };
        } else if len - i > 1 && chars[i] == '!' && chars[i + 1] == '[' {
            let j = skip_until(chars, i + 2, ']');
            let a = if j < len {
                j + 1
            } else {
                j
            };
            if a < len && chars[a] == '(' {
                let m = skip_until(chars, a + 1, ')');
                i = if m < len {
                    m + 1
                } else {
                    m
                };
            } else {
                i = a;
            }
            assert(out@ =~= o + st.0);
        } else if chars[i] == '[' {
            let start = i + 1;
            let mut depth: usize = 1;
            let mut j = start;
            proof {
                lemma_bracket_scan(s, start as int, 1);
            }
            while j < len && depth > 0
                invariant
                    start <= j <= len,
                    1 <= start,
                    len == s.len(),
                    s == chars@,
                    depth <= j - start + 1,
                    bracket_scan(s, j as int, depth as int) == bracket_scan(s, start as int, 1),
                decreases len - j,
            {
                if chars[j] == '[' {
                    depth += 1;
                } else if chars[j] == ']' {
                    depth -= 1;
                }
                j += 1;
            }
            assert(bracket_scan(s, j as int, depth as int) == (j as int, depth as int));
            let text_end = if depth == 0 {
                j - 1
            } else {
                i + 1
            };
            proof {
                lemma_bracket_scan(s, start as int, 1);
            }
            if text_end < len - 1 && chars[text_end + 1] == '(' {
                let mut k = start;
                while k < text_end
                    invariant
                        start <= k <= text_end < len,
                        len == s.len(),
                        s == chars@,
                        out@ == o + s.subrange(start as int, k as int),
                    decreases text_end - k,
                {
                    out.push(chars[k]);
                    assert(s.subrange(start as int, k + 1) =~= s.subrange(
                        start as int,
                        k as int,
                    ).push(s[k as int]));
                    k += 1;
                }
                let m = skip_until(chars, text_end + 1, ')');
                i = if m < len {
                    m + 1
                } else {
                    m
                };
            } else {
                out.push('[');
                assert(out@ =~= o + st.0);
                i = start;
            }
        } else if len - i > 1 && chars[i] == '~' && chars[i + 1] == '~' {
            let j = copy_until_pair(chars, i + 2, '~', &mut out);
            i = if j < len && len - j > 1 {
                j + 2
            } else {
                j
            };
        } else if len - i > 1 && chars[i] == '*' && chars[i + 1] == '*' {
            let j = copy_until_pair(chars, i + 2, '*', &mut out);
            i = if j < len && len - j > 1 {
                j + 2
            } else {
                j
            };
        } else if chars[i] == '*' {
            let j = copy_until(chars, i + 1, '*', &mut out);
            i = if j < len {
                j + 1
            } else {
                j
            };
        } else if chars[i] == '>' && (i == 0 || chars[i - 1] == '\n') {
            i += 1;
            if i < len && chars[i] == ' ' {
                i += 1;
            }
            assert(out@ =~= o + st.0);
        } else if chars[i] == '#' && (i == 0 || chars[i - 1] == '\n') {
            let mut j = i + 1;
            while j < len && (chars[j] == '#' || chars[j] == ' ')
                invariant
                    i + 1 <= j <= len,
                    len == s.len(),
                    s == chars@,
                    forall|k: int| i + 1 <= k < j ==> !#[trigger] heading_rest(s)(k),
                decreases len - j,
            {
                j += 1;
            }
            proof {
                lemma_first_from_is(len as int, i + 1, j as int, heading_rest(s));
            }
            i = j;
            assert(out@ =~= o + st.0);
        } else {
            out.push(chars[i]);
            assert(out@ =~= o + st.0);
            i += 1;
        }
        assert(out@ =~= o + st.0);
        assert(md_plain_from(s, i as int) == md_plain_from(s, st.1));
        assert(out@ + md_plain_from(s, i as int) =~= o + (st.0 + md_plain_from(s, st.1)));
    }
    assert(md_plain_from(s, i as int) == Seq::<char>::empty());
    assert(out@ =~= out@ + md_plain_from(s, i as int));
    out
}

/// `f` places each character of `a` at a position of `b` holding it, in
/// increasing order.
pub open spec fn embeds(a: Seq<char>, b: Seq<char>, f: spec_fn(int) -> int) -> bool {
    &&& forall|k: int| 0 <= k < a.len() ==> 0 <= #[trigger] f(k) < b.len() && b[f(k)] == a[k]
    &&& forall|k1: int, k2: int| 0 <= k1 < k2 < a.len() ==> #[trigger] f(k1) < #[trigger] f(k2)
}

/// `a` is a subsequence of `b`: `b` holds `a`'s characters in order, with
/// others among them.
pub open spec fn is_subseq(a: Seq<char>, b: Seq<char>) -> bool {
    exists|f: spec_fn(int) -> int| embeds(a, b, f)
}

/// Text kept from `x..y`, then text embedded past `n`, lies in `s` from `i`.
proof fn lemma_span_embeds(
    s: Seq<char>,
    i: int,
    x: int,
    y: int,
    n: int,
    rest: Seq<char>,
    f: spec_fn(int) -> int,
) -> (g: spec_fn(int) -> int)
    requires
        0 <= i <= x <= y <= n <= s.len(),
        embeds(rest, s.skip(n), f),
    ensures
        embeds(s.subrange(x, y) + rest, s.skip(i), g),
{
    let w = y - x;
    let g = |k: int|
        if k < w {
            x - i + k
        } else {
            f(k - w) + n - i
        };
    let a = s.subrange(x, y) + rest;
    assert forall|k: int| 0 <= k < a.len() implies 0 <= #[trigger] g(k) < s.skip(i).len() && s.skip(i)[g(k)] == a[k] by {
        if k >= w {
            assert(f(k - w) < s.skip(n).len());
            assert(s.skip(n)[f(k - w)] == rest[k - w]);
        }
    }
    assert forall|k1: int, k2: int| 0 <= k1 < k2 < a.len() implies #[trigger] g(k1) < #[trigger] g(k2) by {
        if k1 >= w {
            assert(f(k1 - w) < f(k2 - w));
        } else if k2 >= w {
            assert(0 <= f(k2 - w));
        }
    }
    g
}

/// The plain text from `i` on lies in the source from `i` on.
proof fn lemma_plain_from_embeds(s: Seq<char>, i: int) -> (f: spec_fn(int) -> int)
    requires
        0 <= i <= s.len(),
    ensures
        embeds(md_plain_from(s, i), s.skip(i), f),
    decreases s.len() - i,
{
    let id = |k: int| k;
    if i >= s.len() {
        assert(md_plain_from(s, i) =~= Seq::<char>::empty());
        id
    } else {
        let len = s.len() as int;
        lemma_md_step_advances(s, i);
        let st = md_step(s, i);
        let n = if st.1 < len {
            st.1
        } else {
            len
        };
        let (rest, rf) = if st.1 < len {
            (md_plain_from(s, st.1), lemma_plain_from_embeds(s, st.1))
        } else {
            (Seq::<char>::empty(), id)
        };
        assert(md_plain_from(s, i) == st.0 + rest);
        lemma_first_from_bounds(len, i + 1, char_at(s, '`'));
        lemma_first_from_bounds(len, i + 2, pair_end(s, '~'));
        lemma_first_from_bounds(len, i + 2, pair_end(s, '*'));
        lemma_first_from_bounds(len, i + 1, char_at(s, '*'));
        if fence_at(s, i) {
            lemma_first_from_bounds(len, i + 3, fence_end(s));
            let j = first_from(len, i + 3, fence_end(s));
            lemma_span_embeds(s, i, i + 3, j, n, rest, rf)
        } else if s[i] == '`' {
            let j = first_from(len, i + 1, char_at(s, '`'));
            lemma_span_embeds(s, i, i + 1, j, n, rest, rf)
        } else if i + 1 < len && s[i] == '!' && s[i + 1] == '[' {
            assert(st.0 =~= s.subrange(i, i));
            lemma_span_embeds(s, i, i, i, n, rest, rf)
        } else if s[i] == '[' {
            lemma_bracket_scan(s, i + 1, 1);
            let (j, depth) = bracket_scan(s, i + 1, 1);
            let text_end = if depth == 0 {
                j - 1
            } else {
                i + 1
            };
            if text_end + 1 < len && s[text_end + 1] == '(' {
                lemma_first_from_bounds(len, text_end + 1, char_at(s, ')'));
                lemma_span_embeds(s, i, i + 1, text_end, n, rest, rf)
            } else {
                assert(st.0 =~= s.subrange(i, i + 1));
                lemma_span_embeds(s, i, i, i + 1, n, rest, rf)
            }
        } else if i + 1 < len && s[i] == '~' && s[i + 1] == '~' {
            let j = first_from(len, i + 2, pair_end(s, '~'));
            lemma_span_embeds(s, i, i + 2, j, n, rest, rf)
        } else if i + 1 < len && s[i] == '*' && s[i + 1] == '*' {
            let j = first_from(len, i + 2, pair_end(s, '*'));
            lemma_span_embeds(s, i, i + 2, j, n, rest, rf)
        } else if s[i] == '*' {
            let j = first_from(len, i + 1, char_at(s, '*'));
            lemma_span_embeds(s, i, i + 1, j, n, rest, rf)
        } else if s[i] == '>' && (i == 0 || s[i - 1] == '\n') {
            assert(st.0 =~= s.subrange(i, i));
            lemma_span_embeds(s, i, i, i, n, rest, rf)
        } else if s[i] == '#' && (i == 0 || s[i - 1] == '\n') {
            assert(st.0 =~= s.subrange(i, i));
            lemma_span_embeds(s, i, i, i, n, rest, rf)
        } else {
            assert(st.0 =~= s.subrange(i, i + 1));
            lemma_span_embeds(s, i, i, i + 1, n, rest, rf)
        }
    }
}

/// Stripping markup only removes characters: the plain text is a
/// subsequence of the source.
pub proof fn lemma_plain_text_is_subsequence(s: Seq<char>)
    ensures
        is_subseq(md_plain(s), s),
{
    let f = lemma_plain_from_embeds(s, 0);
    assert(s.skip(0) =~= s);
    assert(embeds(md_plain(s), s, f));
}

/// A code fence keeps its code: for code `c` without backticks, the plain
/// text of ```` ```c``` ```` is `c` itself.
pub proof fn lemma_fence_keeps_code(c: Seq<char>)
    requires
        forall|k: int| 0 <= k < c.len() ==> #[trigger] c[k] != '`',
    ensures
        md_plain(seq!['`', '`', '`'] + c + seq!['`', '`', '`']) == c,
{
    let f = seq!['`', '`', '`'];
    let s = f + c + f;
    let len = s.len() as int;
    let e: int = 3 + c.len() as int;
    assert(s[0] == '`' && s[1] == '`' && s[2] == '`');
    assert(fence_at(s, 0));
    assert forall|k: int| 3 <= k < e implies !#[trigger] fence_end(s)(k) by {
        assert(s[k] == c[k - 3]);
    }
    assert(s[e] == '`' && s[e + 1] == '`' && s[e + 2] == '`');
    assert(fence_end(s)(e));
    lemma_first_from_is(len, 3, e, fence_end(s));
    assert(md_step(s, 0) == (s.subrange(3, e), e + 3));
    assert(s.subrange(3, e) =~= c);
    lemma_md_step_advances(s, 0);
}

/// Inline code keeps its code: for `c` without backticks, the plain text
/// of `` `c` `` is `c`.
pub proof fn lemma_inline_code_keeps_code(c: Seq<char>)
    requires
        forall|k: int| 0 <= k < c.len() ==> #[trigger] c[k] != '`',
    ensures
        md_plain(seq!['`'] + c + seq!['`']) == c,
{
    let s = seq!['`'] + c + seq!['`'];
    let len = s.len() as int;
    let e: int = 1 + c.len() as int;
    assert(!fence_at(s, 0)) by {
        if c.len() > 0 {
            assert(s[1] == c[0]);
        }
    }
    assert forall|k: int| 1 <= k < e implies !#[trigger] char_at(s, '`')(k) by {
        assert(s[k] == c[k - 1]);
    }
    assert(char_at(s, '`')(e));
    lemma_first_from_is(len, 1, e, char_at(s, '`'));
    assert(s.subrange(1, e) =~= c);
    assert(md_step(s, 0) == (c, e + 1));
    lemma_md_step_advances(s, 0);
}

/// Bold text keeps its text: for `x` without `*`, the plain text of
/// `**x**` is `x`.
pub proof fn lemma_bold_keeps_text(x: Seq<char>)
    requires
        forall|k: int| 0 <= k < x.len() ==> #[trigger] x[k] != '*',
    ensures
        md_plain(seq!['*', '*'] + x + seq!['*', '*']) == x,
{
    let s = seq!['*', '*'] + x + seq!['*', '*'];
    let len = s.len() as int;
    let e: int = 2 + x.len() as int;
    assert forall|k: int| 2 <= k < e implies !#[trigger] pair_end(s, '*')(k) by {
        assert(s[k] == x[k - 2]);
    }
    assert(pair_end(s, '*')(e));
    lemma_first_from_is(len, 2, e, pair_end(s, '*'));
    assert(s.subrange(2, e) =~= x);
    assert(md_step(s, 0) == (x, e + 2));
    lemma_md_step_advances(s, 0);
}

/// Strike-through text keeps its text: for `x` without `~`, the plain text
/// of `~~x~~` is `x`.
pub proof fn lemma_strike_keeps_text(x: Seq<char>)
    requires
        forall|k: int| 0 <= k < x.len() ==> #[trigger] x[k] != '~',
    ensures
        md_plain(seq!['~', '~'] + x + seq!['~', '~']) == x,
{
    let s = seq!['~', '~'] + x + seq!['~', '~'];
    let len = s.len() as int;
    let e: int = 2 + x.len() as int;
    assert forall|k: int| 2 <= k < e implies !#[trigger] pair_end(s, '~')(k) by {
        assert(s[k] == x[k - 2]);
    }
    assert(pair_end(s, '~')(e));
    lemma_first_from_is(len, 2, e, pair_end(s, '~'));
    assert(s.subrange(2, e) =~= x);
    assert(md_step(s, 0) == (x, e + 2));
    lemma_md_step_advances(s, 0);
}

/// Italic text keeps its text: for non-empty `x` without `*`, the plain
/// text of `*x*` is `x`.
pub proof fn lemma_italic_keeps_text(x: Seq<char>)
    requires
        x.len() > 0,
        forall|k: int| 0 <= k < x.len() ==> #[trigger] x[k] != '*',
    ensures
        md_plain(seq!['*'] + x + seq!['*']) == x,
{
    let s = seq!['*'] + x + seq!['*'];
    let len = s.len() as int;
    let e: int = 1 + x.len() as int;
    assert(s[1] == x[0]);
    assert forall|k: int| 1 <= k < e implies !#[trigger] char_at(s, '*')(k) by {
        assert(s[k] == x[k - 1]);
    }
    assert(char_at(s, '*')(e));
    lemma_first_from_is(len, 1, e, char_at(s, '*'));
    assert(s.subrange(1, e) =~= x);
    assert(md_step(s, 0) == (x, e + 1));
    lemma_md_step_advances(s, 0);
}

} // verus!
