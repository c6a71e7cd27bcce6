//! Small services: the cache of rendered tiles, the CJK font candidates,
//! and the search and line-breaking services.
use vstd::prelude::*;
use std::collections::HashMap;

verus! {

/// Rendered tiles by key, holding at most `max_tiles` of them.
pub struct TileCache {
    cache: HashMap<usize, Vec<u8>>,
    max_tiles: usize,
}

/// `after` is what inserting `data` under `key` into a cache holding
/// `before`, with room for `cap` tiles, may give: when the cache is full,
/// one tile it holds leaves first (which one depends on the order in which
/// the map is walked).
pub open spec fn inserted(
    before: Map<usize, Seq<u8>>,
    cap: nat,
    key: usize,
    data: Seq<u8>,
    after: Map<usize, Seq<u8>>,
) -> bool {
    if before.len() < cap || before.len() == 0 {
        after == before.insert(key, data)
    } else {
        exists|k: usize| before.contains_key(k) && after == #[trigger] before.remove(k).insert(key, data)
    }
}

/// The larger of `cap` and 1: what a cache with room for `cap` tiles holds
/// at most (a cache with no room still keeps the last tile).
pub open spec fn room(cap: nat) -> nat {
    if cap >= 1 {
        cap
    } else {
        1
    }
}

/// A read after a write gives back what was written: once `data` is
/// inserted under `key`, the cache holds it there.  Every other tile it
/// still holds is as it was, and while the cache had room none leaves.  A
/// cache that held no more than its room still does.
pub proof fn lemma_tile_insert_get(
    before: Map<usize, Seq<u8>>,
    cap: nat,
    key: usize,
    data: Seq<u8>,
    after: Map<usize, Seq<u8>>,
)
    requires
        before.dom().finite(),
        inserted(before, cap, key, data, after),
    ensures
        after.contains_key(key),
        after[key] == data,
        forall|k: usize| k != key && #[trigger] after.contains_key(k) ==> before.contains_key(k) && after[k] == before[k],
        before.len() < cap ==> forall|k: usize| k != key ==> (#[trigger] after.contains_key(k) == before.contains_key(k)),
        before.len() <= room(cap) ==> after.len() <= room(cap),
{
    if before.len() < cap || before.len() == 0 {
        if before.contains_key(key) {
            assert(after.dom() =~= before.dom());
        } else {
            assert(after.dom() =~= before.dom().insert(key));
        }
    } else {
        let k = choose|k: usize| before.contains_key(k) && after == #[trigger] before.remove(k).insert(key, data);
        let r = before.remove(k);
        assert(r.dom() =~= before.dom().remove(k));
        assert(r.len() == before.len() - 1);
        if r.contains_key(key) {
            assert(after.dom() =~= r.dom());
        } else {
            assert(after.dom() =~= r.dom().insert(key));
        }
    }
}

impl TileCache {
    /// The tiles held, by key.
    pub closed spec fn tiles(&self) -> Map<usize, Seq<u8>> {
        self.cache@.map_values(|v: Vec<u8>| v@)
    }

    /// The number of tiles the cache keeps before it evicts one.
    pub closed spec fn capacity(&self) -> nat {
        self.max_tiles as nat
    }

    /// An empty cache for `max_tiles` tiles.
    pub fn new(max_tiles: usize) -> (c: Self)
        ensures
            c.tiles() == Map::<usize, Seq<u8>>::empty(),
            c.tiles().dom().finite(),
            c.capacity() == max_tiles,
    {
        let c = TileCache { cache: HashMap::new(), max_tiles };
        assert(c.tiles() =~= Map::<usize, Seq<u8>>::empty());
        c
    }

    /// The tile under `key`, if held.
    pub fn get(&self, key: &usize) -> (out: Option<&Vec<u8>>)
        ensures
            match out {
                Some(v) => self.tiles().contains_key(*key) && v@ == self.tiles()[*key],
                None => !self.tiles().contains_key(*key),
            },
    {
        self.cache.get(key)
    }

    /// Stores `data` under `key`; a full cache first drops one of its tiles.
    pub fn insert(&mut self, key: usize, data: Vec<u8>)
        ensures
            inserted(old(self).tiles(), old(self).capacity(), key, data@, final(self).tiles()),
            final(self).tiles().dom().finite(),
            final(self).capacity() == old(self).capacity(),
    {
        broadcast use vstd::std_specs::hash::group_hash_axioms;

        let ghost before = self.tiles();
        let ghost data_v = data@;
        assert(before.dom() =~= self.cache@.dom());
        if self.cache.len() >= self.max_tiles {
            let mut victim: Option<usize> = None;
            for k in it: self.cache.keys()
                invariant_except_break
                    victim is None,
                    it.index() == 0,
                    it.seq().unref().to_set() == self.cache@.dom(),
                    it.seq().len() == self.cache@.dom().len(),
                ensures
                    victim matches Some(v) ==> self.cache@.contains_key(v),
                    victim is None ==> self.cache@.dom().len() == 0,
            {
                proof {
                    assert(it.seq().unref()[it.index()] == *k);
                    assert(it.seq().unref().contains(*k));
                }
                victim = Some(*k);
                break;
            }
            match victim {
                Some(k) => {
                    assert(before.contains_key(k));
                    self.cache.remove(&k);
                    self.cache.insert(key, data);
                    assert(self.tiles() =~= before.remove(k).insert(key, data_v));
                    return;
                },
                None => {},
            }
        }
        self.cache.insert(key, data);
        assert(self.tiles() =~= before.insert(key, data_v));
    }
}

/// The search service; pages are not indexed yet.
pub struct SearchService;

impl SearchService {
    /// The service.
    pub fn new() -> (s: Self) {
        SearchService
    }
}

/// Breaks text into lines of a width.
pub struct LineBreaker;

impl LineBreaker {
    /// The line breaker.
    pub fn new() -> (s: Self) {
        LineBreaker
    }
}

/// Finds CJK fonts installed on the system.
pub struct FontLoader;

/// Where CJK fonts are looked for, in order.
pub open spec fn font_candidates_v() -> Seq<Seq<char>> {
    seq![
        "/usr/share/fonts/truetype/droid/DroidSansFallbackFull.ttf"@,
        "/usr/share/fonts/opentype/noto/NotoSansCJK-Regular.ttc"@,
        "/usr/share/fonts/noto-cjk/NotoSansCJK-Regular.ttc"@,
    ]
}

/// The first `n` candidates that are present, in order.
pub open spec fn present_fonts(cands: Seq<Seq<char>>, present: Seq<bool>, n: int) -> Seq<Seq<char>>
    decreases n,
{
    if n <= 0 {
        Seq::empty()
    } else if present[n - 1] {
        present_fonts(cands, present, n - 1).push(cands[n - 1])
    } else {
        present_fonts(cands, present, n - 1)
    }
}

/// Strings as plain values.
pub open spec fn str_views(v: Seq<String>) -> Seq<Seq<char>> {
    v.map_values(|s: String| s@)
}

impl FontLoader {
    /// The loader.
    pub fn new() -> (l: Self) {
        FontLoader
    }

    /// The font files looked for, in order.
    pub fn font_candidates(&self) -> (out: Vec<String>)
        ensures
            str_views(out@) == font_candidates_v(),
    {
        let mut out: Vec<String> = Vec::new();
        out.push(String::from_str("/usr/share/fonts/truetype/droid/DroidSansFallbackFull.ttf"));
        out.push(String::from_str("/usr/share/fonts/opentype/noto/NotoSansCJK-Regular.ttc"));
        out.push(String::from_str("/usr/share/fonts/noto-cjk/NotoSansCJK-Regular.ttc"));
        assert(str_views(out@) =~= font_candidates_v());
        out
    }

    /// The candidate font files that exist: `present[i]` tells whether
    /// candidate `i` is on disk.
    pub fn load_system_fonts(&self, present: &[bool]) -> (out: Vec<String>)
        requires
            present@.len() == font_candidates_v().len(),
        ensures
            str_views(out@) == present_fonts(font_candidates_v(), present@, present@.len() as int),
    {
        let cands = self.font_candidates();
        let mut out: Vec<String> = Vec::new();
        let mut i: usize = 0;
        while i < cands.len()
            invariant
                i <= cands@.len(),
                cands@.len() == present@.len(),
                str_views(cands@) == font_candidates_v(),
                str_views(out@) == present_fonts(font_candidates_v(), present@, i as int),
            decreases cands@.len() - i,
        {
            if present[i] {
                let ghost prev = str_views(out@);
                let c = cands[i].clone();
                out.push(c);
                assert(str_views(out@) =~= prev.push(font_candidates_v()[i as int]));
            }
            i += 1;
        }
        out
    }
}

} // verus!
