//! The structure of an EPUB as the reader builds it from the package: the
//! spine's chapter files and the contents' chapter indices.
use vstd::prelude::*;
use crate::chapters::TocEntry;
use crate::text::{chars_eq, chars_of, has_prefix, push_all, str_eq, string_from_chars};

verus! {

/// Strings as plain values.
pub open spec fn pair_views(v: Seq<(String, String)>) -> Seq<(Seq<char>, Seq<char>)> {
    v.map_values(|p: (String, String)| (p.0@, p.1@))
}

/// The href of the manifest item with id `id`; the last one when the id
/// occurs more than once.
pub open spec fn href_of(manifest: Seq<(Seq<char>, Seq<char>)>, id: Seq<char>) -> Option<Seq<char>>
    decreases manifest.len(),
{
    if manifest.len() == 0 {
        None
    } else if manifest.last().0 == id {
        Some(manifest.last().1)
    } else {
        href_of(manifest.drop_last(), id)
    }
}

/// The spine's chapters: each item reference whose id the manifest knows,
/// with its href, in spine order.
pub open spec fn spine_items(manifest: Seq<(Seq<char>, Seq<char>)>, idrefs: Seq<Seq<char>>) -> Seq<
    (Seq<char>, Seq<char>),
>
    decreases idrefs.len(),
{
    if idrefs.len() == 0 {
        Seq::empty()
    } else {
        let r = spine_items(manifest, idrefs.drop_last());
        match href_of(manifest, idrefs.last()) {
            Some(h) => r.push((idrefs.last(), h)),
            None => r,
        }
    }
}

/// The spine index of chapter `id`; the last one when the id occurs more
/// than once.
pub open spec fn spine_index(spine: Seq<(Seq<char>, Seq<char>)>, id: Seq<char>) -> Option<int>
    decreases spine.len(),
{
    if spine.len() == 0 {
        None
    } else if spine.last().0 == id {
        Some(spine.len() - 1)
    } else {
        spine_index(spine.drop_last(), id)
    }
}

/// The contents: entry `i` (label, manifest id of its target) points at
/// the spine chapter of that id, else at index `i`.
pub open spec fn epub_toc(spine: Seq<(Seq<char>, Seq<char>)>, entries: Seq<(Seq<char>, Option<Seq<char>>)>) -> Seq<
    (Seq<char>, int),
> {
    Seq::new(
        entries.len(),
        |i: int|
            (entries[i].0, match entries[i].1 {
                Some(id) => match spine_index(spine, id) {
                    Some(k) => k,
                    None => i,
                },
                None => i,
            }),
    )
}

/// The resource path of an href: as it is when it starts with `/`, else
/// with `/` before it.
pub open spec fn resource_path_v(href: Seq<char>) -> Seq<char> {
    if has_prefix(href, seq!['/']) {
        href
    } else {
        seq!['/'] + href
    }
}

fn find_href(manifest: &Vec<(String, String)>, id: &str) -> (out: Option<String>)
    ensures
        match out {
            Some(h) => href_of(pair_views(manifest@), id@) == Some(h@),
            None => href_of(pair_views(manifest@), id@) is None,
        },
{
    let ghost mv = pair_views(manifest@);
    let mut k: usize = manifest.len();
    assert(mv.take(k as int) =~= mv);
    while k > 0
        invariant
            k <= manifest@.len(),
            mv == pair_views(manifest@),
            href_of(mv, id@) == href_of(mv.take(k as int), id@),
        decreases k,
    {
        let ghost t = mv.take(k as int);
        assert(t.drop_last() =~= mv.take(k - 1));
        assert(t.last() == mv[k - 1]);
        if str_eq(manifest[k - 1].0.as_str(), id) {
            return Some(manifest[k - 1].1.clone());
        }
        k -= 1;
    }
    None
}

/// The spine's chapters as (id, href).
pub fn build_spine(manifest: &Vec<(String, String)>, idrefs: &Vec<String>) -> (out: Vec<(String, String)>)
    ensures
        pair_views(out@) == spine_items(pair_views(manifest@), idrefs@.map_values(|s: String| s@)),
{
    let ghost mv = pair_views(manifest@);
    let ghost iv = idrefs@.map_values(|s: String| s@);
    let mut out: Vec<(String, String)> = Vec::new();
    let mut i: usize = 0;
    while i < idrefs.len()
        invariant
            i <= idrefs@.len(),
            mv == pair_views(manifest@),
            iv == idrefs@.map_values(|s: String| s@),
            pair_views(out@) == spine_items(mv, iv.take(i as int)),
        decreases idrefs@.len() - i,
    {
        let ghost t = iv.take(i + 1);
        assert(t.drop_last() =~= iv.take(i as int));
        assert(t.last() == idrefs@[i as int]@);
        let ghost before = pair_views(out@);
        match find_href(manifest, idrefs[i].as_str()) {
            Some(h) => {
                out.push((idrefs[i].clone(), h));
                assert(pair_views(out@) =~= before.push((idrefs@[i as int]@, h@)));
            },
            None => {},
        }
        i += 1;
    }
    assert(iv.take(idrefs@.len() as int) =~= iv);
    out
}

fn find_spine_index(spine: &Vec<(String, String)>, id: &str) -> (out: Option<usize>)
    ensures
        match out {
            Some(k) => spine_index(pair_views(spine@), id@) == Some(k as int),
            None => spine_index(pair_views(spine@), id@) is None,
        },
{
    let ghost sv = pair_views(spine@);
    let mut k: usize = spine.len();
    assert(sv.take(k as int) =~= sv);
    while k > 0
        invariant
            k <= spine@.len(),
            sv == pair_views(spine@),
            spine_index(sv, id@) == spine_index(sv.take(k as int), id@),
        decreases k,
    {
        let ghost t = sv.take(k as int);
        assert(t.drop_last() =~= sv.take(k - 1));
        assert(t.last() == sv[k - 1]);
        if str_eq(spine[k - 1].0.as_str(), id) {
            return Some(k - 1);
        }
        k -= 1;
    }
    None
}

/// Entries of the contents as plain values.
pub open spec fn entry_views(v: Seq<(String, Option<String>)>) -> Seq<(Seq<char>, Option<Seq<char>>)> {
    v.map_values(
        |e: (String, Option<String>)|
            (e.0@, match e.1 {
                Some(s) => Some(s@),
                None => None,
            }),
    )
}

/// The contents of the book: each entry's label and its chapter index.
pub fn build_toc(spine: &Vec<(String, String)>, entries: &Vec<(String, Option<String>)>) -> (out: Vec<
    TocEntry,
>)
    ensures
        out@.map_values(|t: TocEntry| t@) == epub_toc(pair_views(spine@), entry_views(entries@)),
{
    let ghost goal = epub_toc(pair_views(spine@), entry_views(entries@));
    let mut out: Vec<TocEntry> = Vec::new();
    let mut i: usize = 0;
    while i < entries.len()
        invariant
            i <= entries@.len(),
            goal == epub_toc(pair_views(spine@), entry_views(entries@)),
            out@.map_values(|t: TocEntry| t@) == goal.take(i as int),
        decreases entries@.len() - i,
    {
        let page_index = match &entries[i].1 {
            Some(id) => match find_spine_index(spine, id.as_str()) {
                Some(k) => k,
                None => i,
            },
            None => i,
        };
        let ghost before = out@.map_values(|t: TocEntry| t@);
        out.push(TocEntry { label: entries[i].0.clone(), page_index });
        assert(out@.map_values(|t: TocEntry| t@) =~= before.push(goal[i as int]));
        assert(goal.take(i + 1) =~= goal.take(i as int).push(goal[i as int]));
        i += 1;
    }
    assert(goal.take(entries@.len() as int) =~= goal);
    out
}

/// The path under which the archive holds the resource `href`.
pub fn resource_path(href: &str) -> (p: String)
    ensures
        p@ == resource_path_v(href@),
{
    let h = chars_of(href);
    let slash: Vec<char> = vec!['/'];
    assert(slash@ =~= seq!['/']);
    if h.len() > 0 && h[0] == '/' {
        assert(href@.take(1) =~= seq!['/']);
        assert(has_prefix(href@, seq!['/']));
        return string_from_chars(h.as_slice());
    }
    assert(!has_prefix(href@, seq!['/']));
    let mut v = slash;
    push_all(&mut v, h.as_slice());
    string_from_chars(v.as_slice())
}

} // verus!
