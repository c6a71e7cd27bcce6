//! Toolbar features: registered per mode, counted as they are used,
//! pinned by the user, and listed most-used first.
use vstd::prelude::*;
use crate::text::str_eq;

verus! {

/// A feature: its id, use count, whether it is pinned, and the mode it
/// belongs to.
pub struct Feature {
    pub id: String,
    pub usage: u32,
    pub pinned: bool,
    pub mode_scope: String,
}

/// A feature's state: (use count, pinned, mode).
pub type FeatureV = (u32, bool, Seq<char>);

impl View for Feature {
    type V = (Seq<char>, u32, bool, Seq<char>);

    open spec fn view(&self) -> (Seq<char>, u32, bool, Seq<char>) {
        (self.id@, self.usage, self.pinned, self.mode_scope@)
    }
}

/// The registered features, by id.
pub struct FeatureSystem {
    features: Vec<Feature>,
}

impl View for FeatureSystem {
    type V = Map<Seq<char>, FeatureV>;

    closed spec fn view(&self) -> Map<Seq<char>, FeatureV> {
        Map::new(
            |id: Seq<char>| exists|k: int| 0 <= k < self.features@.len() && #[trigger] self.features@[k].id@ == id,
            |id: Seq<char>| {
                let k = choose|k: int| 0 <= k < self.features@.len() && #[trigger] self.features@[k].id@ == id;
                (self.features@[k].usage, self.features@[k].pinned, self.features@[k].mode_scope@)
            },
        )
    }
}

/// A feature list is sorted by use count, most used first.
pub open spec fn by_usage_desc(s: Seq<(Seq<char>, u32, bool, Seq<char>)>) -> bool {
    forall|a: int, b: int| 0 <= a < b < s.len() ==> s[a].1 >= s[b].1
}

/// No id occurs twice.
pub open spec fn ids_distinct(s: Seq<(Seq<char>, u32, bool, Seq<char>)>) -> bool {
    forall|a: int, b: int| 0 <= a < b < s.len() ==> s[a].0 != s[b].0
}

/// `s` lists, each once, exactly the features of `m` that satisfy `p`,
/// each with its state.
pub open spec fn lists_exactly(
    s: Seq<(Seq<char>, u32, bool, Seq<char>)>,
    m: Map<Seq<char>, FeatureV>,
    p: spec_fn(FeatureV) -> bool,
) -> bool {
    &&& ids_distinct(s)
    &&& forall|k: int|
        0 <= k < s.len() ==> m.contains_key(#[trigger] s[k].0) && m[s[k].0] == (s[k].1, s[k].2, s[k].3)
            && p(m[s[k].0])
    &&& forall|id: Seq<char>|
        m.contains_key(id) && p(m[id]) ==> exists|k: int| 0 <= k < s.len() && #[trigger] s[k].0 == id
}

/// The registry after registering `id` in mode `mode`: a new feature is
/// unused and unpinned; a known id keeps its state.
pub open spec fn registered(m: Map<Seq<char>, FeatureV>, id: Seq<char>, mode: Seq<char>) -> Map<Seq<char>, FeatureV> {
    if m.contains_key(id) {
        m
    } else {
        m.insert(id, (0u32, false, mode))
    }
}

/// The registry after a use of `id`: its count goes up by one, and stays
/// at `u32::MAX` once there.
pub open spec fn used(m: Map<Seq<char>, FeatureV>, id: Seq<char>) -> Map<Seq<char>, FeatureV> {
    if m.contains_key(id) {
        m.insert(
            id,
            (
                if m[id].0 < u32::MAX {
                    (m[id].0 + 1) as u32
                } else {
                    u32::MAX
                },
                m[id].1,
                m[id].2,
            ),
        )
    } else {
        m
    }
}

/// The registry after `id`'s pin is flipped.
pub open spec fn pin_toggled(m: Map<Seq<char>, FeatureV>, id: Seq<char>) -> Map<Seq<char>, FeatureV> {
    if m.contains_key(id) {
        m.insert(id, (m[id].0, !m[id].1, m[id].2))
    } else {
        m
    }
}

/// Flipping a pin twice leaves the registry as it was.
pub proof fn lemma_toggle_pin_twice(m: Map<Seq<char>, FeatureV>, id: Seq<char>)
    ensures
        pin_toggled(pin_toggled(m, id), id) == m,
{
    if m.contains_key(id) {
        assert(pin_toggled(pin_toggled(m, id), id) =~= m);
    }
}

/// Registering an id a second time changes nothing, whatever the mode.
pub proof fn lemma_register_idempotent(
    m: Map<Seq<char>, FeatureV>,
    id: Seq<char>,
    mode: Seq<char>,
    mode2: Seq<char>,
)
    ensures
        registered(registered(m, id, mode), id, mode2) == registered(m, id, mode),
{
}

/// A use changes only the used feature: its count never goes down, its pin
/// and mode stay; every other feature is as it was.
pub proof fn lemma_use_changes_only_that(m: Map<Seq<char>, FeatureV>, id: Seq<char>, other: Seq<char>)
    ensures
        used(m, id).dom() == m.dom(),
        other != id && m.contains_key(other) ==> used(m, id)[other] == m[other],
        m.contains_key(id) ==> used(m, id)[id].0 >= m[id].0 && used(m, id)[id].1 == m[id].1
            && used(m, id)[id].2 == m[id].2,
        m.contains_key(id) && m[id].0 < u32::MAX ==> used(m, id)[id].0 == m[id].0 + 1,
{
    if m.contains_key(id) {
        assert(used(m, id).dom() =~= m.dom());
    }
}

pub open spec fn in_mode(mode: Seq<char>) -> spec_fn(FeatureV) -> bool {
    |f: FeatureV| f.2 == mode
}

pub open spec fn pinned_in_mode(mode: Seq<char>) -> spec_fn(FeatureV) -> bool {
    |f: FeatureV| f.1 && f.2 == mode
}

pub open spec fn refs_view<'a>(v: Seq<&'a Feature>) -> Seq<(Seq<char>, u32, bool, Seq<char>)> {
    v.map_values(|f: &Feature| f@)
}

proof fn lemma_insert_order(fs: Seq<Feature>, before: Seq<usize>, pos: int, i: int, mode: Seq<char>)
    requires
        0 <= pos <= before.len(),
        0 <= i < fs.len(),
        i < usize::MAX,
        fs[i].mode_scope@ == mode,
        forall|k: int| 0 <= k < before.len() ==> (#[trigger] before[k]) < i && fs[before[k] as int].mode_scope@ == mode,
        forall|a: int, b: int| 0 <= a < b < before.len() ==> before[a] != before[b],
        forall|a: int, b: int| 0 <= a < b < before.len() ==> fs[before[a] as int].usage >= fs[before[b] as int].usage,
        forall|j: int| 0 <= j < i && (#[trigger] fs[j]).mode_scope@ == mode ==> before.contains(j as usize),
        forall|k: int| 0 <= k < pos ==> fs[before[k] as int].usage >= fs[i].usage,
        pos < before.len() ==> fs[before[pos] as int].usage < fs[i].usage,
    ensures
        ({
            let o = before.insert(pos, i as usize);
            &&& forall|k: int| 0 <= k < o.len() ==> (#[trigger] o[k]) < i + 1 && fs[o[k] as int].mode_scope@ == mode
            &&& forall|a: int, b: int| 0 <= a < b < o.len() ==> o[a] != o[b]
            &&& forall|a: int, b: int| 0 <= a < b < o.len() ==> fs[o[a] as int].usage >= fs[o[b] as int].usage
            &&& forall|j: int| 0 <= j < i + 1 && (#[trigger] fs[j]).mode_scope@ == mode ==> o.contains(j as usize)
        }),
{
    let o = before.insert(pos, i as usize);
    assert forall|k: int| 0 <= k < o.len() implies (#[trigger] o[k]) < i + 1 && fs[o[k] as int].mode_scope@ == mode by {
        if k < pos {
            assert(o[k] == before[k]);
        } else if k > pos {
            assert(o[k] == before[k - 1]);
        }
    }
    assert forall|a: int, b: int| 0 <= a < b < o.len() implies o[a] != o[b] by {
        if a < pos && b < pos {
        } else if a < pos && b == pos {
            assert(before[a] < i);
        } else if a < pos {
            assert(o[b] == before[b - 1]);
        } else if a == pos {
            assert(before[b - 1] < i);
        } else {
            assert(o[a] == before[a - 1]);
            assert(o[b] == before[b - 1]);
        }
    }
    assert forall|a: int, b: int| 0 <= a < b < o.len() implies fs[o[a] as int].usage >= fs[o[b] as int].usage by {
        if b < pos {
        } else if b == pos {
        } else if a < pos {
            assert(o[b] == before[b - 1]);
            if b - 1 == pos {
            } else {
                assert(fs[before[a] as int].usage >= fs[before[b - 1] as int].usage);
            }
        } else if a == pos {
            assert(o[b] == before[b - 1]);
            if b - 1 > pos {
                assert(fs[before[pos] as int].usage >= fs[before[b - 1] as int].usage);
            }
        } else {
            assert(o[a] == before[a - 1]);
            assert(o[b] == before[b - 1]);
        }
    }
    assert forall|j: int| 0 <= j < i + 1 && (#[trigger] fs[j]).mode_scope@ == mode implies o.contains(j as usize) by {
        if j == i {
            assert(o[pos] == i as usize);
        } else {
            assert(before.contains(j as usize));
            let k = choose|k: int| 0 <= k < before.len() && before[k] == j as usize;
            if k < pos {
                assert(o[k] == before[k]);
            } else {
                assert(o[k + 1] == before[k]);
            }
        }
    }
}

impl FeatureSystem {
    pub closed spec fn wf(&self) -> bool {
        forall|a: int, b: int|
            0 <= a < b < self.features@.len() ==> self.features@[a].id@ != self.features@[b].id@
    }

    proof fn lemma_view_at(&self, k: int)
        requires
            self.wf(),
            0 <= k < self.features@.len(),
        ensures
            self@.contains_key(self.features@[k].id@),
            self@[self.features@[k].id@] == (self.features@[k].usage, self.features@[k].pinned, self.features@[k].mode_scope@),
    {
        let id = self.features@[k].id@;
        assert(self@.contains_key(id));
        let c = choose|c: int| 0 <= c < self.features@.len() && #[trigger] self.features@[c].id@ == id;
        assert(c == k);
    }

    /// An empty registry.
    pub fn new() -> (s: Self)
        ensures
            s.wf(),
            s@ == Map::<Seq<char>, FeatureV>::empty(),
    {
        let s = FeatureSystem { features: Vec::new() };
        assert(s@ =~= Map::<Seq<char>, FeatureV>::empty());
        s
    }

    fn index_of(&self, id: &str) -> (out: Option<usize>)
        requires
            self.wf(),
        ensures
            out is None <==> !self@.contains_key(id@),
            out matches Some(k) ==> k < self.features@.len() && self.features@[k as int].id@ == id@,
    {
        let mut k: usize = 0;
        while k < self.features.len()
            invariant
                k <= self.features@.len(),
                forall|j: int| 0 <= j < k ==> self.features@[j].id@ != id@,
            decreases self.features@.len() - k,
        {
            if str_eq(self.features[k].id.as_str(), id) {
                return Some(k);
            }
            k += 1;
        }
        None
    }

    /// Registers feature `id` in mode `mode_scope`, unused and unpinned; an
    /// id already registered keeps its state.
    pub fn register(&mut self, id: &str, mode_scope: &str)
        requires
            old(self).wf(),
        ensures
            final(self).wf(),
            final(self)@ == registered(old(self)@, id@, mode_scope@),
    {
        if self.index_of(id).is_some() {
            return;
        }
        let ghost oldf = self.features@;
        let ghost oldm = self@;
        self.features.push(Feature {
            id: String::from_str(id),
            usage: 0,
            pinned: false,
            mode_scope: String::from_str(mode_scope),
        });
        let ghost n = oldf.len() as int;
        assert forall|a: int, b: int| 0 <= a < b < self.features@.len() implies self.features@[a].id@ != self.features@[b].id@ by {
            if b == n {
                assert(oldf[a].id@ != id@) by {
                    if oldf[a].id@ == id@ {
                        assert(oldm.contains_key(id@));
                    }
                }
            }
        }
        let ghost newm = oldm.insert(id@, (0u32, false, mode_scope@));
        assert forall|x: Seq<char>| self@.contains_key(x) == newm.contains_key(x) by {
            if self@.contains_key(x) {
                let j = choose|j: int| 0 <= j < self.features@.len() && #[trigger] self.features@[j].id@ == x;
                if j < n {
                    assert(oldf[j].id@ == x);
                }
            }
            if oldm.contains_key(x) {
                let j = choose|j: int| 0 <= j < oldf.len() && #[trigger] oldf[j].id@ == x;
                assert(self.features@[j].id@ == x);
            }
            if x == id@ {
                assert(self.features@[n].id@ == x);
            }
        }
        assert forall|x: Seq<char>| #[trigger] self@.contains_key(x) implies self@[x] == newm[x] by {
            let j = choose|j: int| 0 <= j < self.features@.len() && #[trigger] self.features@[j].id@ == x;
            self.lemma_view_at(j);
            if x != id@ {
                assert(j < n);
                let j0 = choose|j0: int| 0 <= j0 < oldf.len() && #[trigger] oldf[j0].id@ == x;
                assert(self.features@[j0].id@ == x);
                self.lemma_view_at(j0);
            }
        }
        assert(self@ =~= newm);
    }

    /// Replaces the feature at `k` keeping its id; the map changes at that
    /// id only.
    proof fn lemma_update(&self, old_s: &Self, k: int)
        requires
            old_s.wf(),
            0 <= k < old_s.features@.len(),
            self.features@.len() == old_s.features@.len(),
            self.features@[k].id@ == old_s.features@[k].id@,
            forall|j: int| 0 <= j < self.features@.len() && j != k ==> self.features@[j] == old_s.features@[j],
        ensures
            self.wf(),
            self@ == old_s@.insert(
                old_s.features@[k].id@,
                (self.features@[k].usage, self.features@[k].pinned, self.features@[k].mode_scope@),
            ),
    {
        assert forall|a: int, b: int| 0 <= a < b < self.features@.len() implies self.features@[a].id@ != self.features@[b].id@ by {
            assert(old_s.features@[a].id@ != old_s.features@[b].id@);
        }
        let id = old_s.features@[k].id@;
        let newm = old_s@.insert(id, (self.features@[k].usage, self.features@[k].pinned, self.features@[k].mode_scope@));
        assert forall|x: Seq<char>| self@.contains_key(x) == newm.contains_key(x) by {
            if self@.contains_key(x) {
                let j = choose|j: int| 0 <= j < self.features@.len() && #[trigger] self.features@[j].id@ == x;
                assert(old_s.features@[j].id@ == x);
            }
            if old_s@.contains_key(x) {
                let j = choose|j: int| 0 <= j < old_s.features@.len() && #[trigger] old_s.features@[j].id@ == x;
                assert(self.features@[j].id@ == x);
            }
            if x == id {
                assert(self.features@[k].id@ == x);
            }
        }
        assert forall|x: Seq<char>| #[trigger] self@.contains_key(x) implies self@[x] == newm[x] by {
            let j = choose|j: int| 0 <= j < self.features@.len() && #[trigger] self.features@[j].id@ == x;
            self.lemma_view_at(j);
            if x != id {
                assert(j != k);
                old_s.lemma_view_at(j);
            } else {
                assert(j == k) by {
                    if j != k {
                        assert(old_s.features@[j].id@ == old_s.features@[k].id@);
                    }
                }
            }
        }
        assert(self@ =~= newm);
    }

    /// Counts a use of feature `id` (saturating); an unknown id changes
    /// nothing.
    pub fn use_feature(&mut self, id: &str)
        requires
            old(self).wf(),
        ensures
            final(self).wf(),
            final(self)@ == used(old(self)@, id@),
    {
        match self.index_of(id) {
            None => {},
            Some(k) => {
                let ghost old_s = *self;
                proof {
                    old_s.lemma_view_at(k as int);
                }
                let u = self.features[k].usage;
                let nu = u.saturating_add(1);
                let mut f = self.features.remove(k);
                f.usage = nu;
                self.features.insert(k, f);
                proof {
                    self.lemma_update(&old_s, k as int);
                }
            },
        }
    }

    /// Flips whether feature `id` is pinned; an unknown id changes nothing.
    pub fn toggle_pin(&mut self, id: &str)
        requires
            old(self).wf(),
        ensures
            final(self).wf(),
            final(self)@ == pin_toggled(old(self)@, id@),
    {
        match self.index_of(id) {
            None => {},
            Some(k) => {
                let ghost old_s = *self;
                proof {
                    old_s.lemma_view_at(k as int);
                }
                let mut f = self.features.remove(k);
                f.pinned = !f.pinned;
                self.features.insert(k, f);
                proof {
                    self.lemma_update(&old_s, k as int);
                }
            },
        }
    }

    /// The features of mode `mode`, most used first.
    pub fn visible_features(&self, mode: &str) -> (out: Vec<&Feature>)
        requires
            self.wf(),
        ensures
            lists_exactly(refs_view(out@), self@, in_mode(mode@)),
            by_usage_desc(refs_view(out@)),
    {
        let ghost fs = self.features@;
        // indices of the features of this mode, most used first
        let mut order: Vec<usize> = Vec::new();
        let mut i: usize = 0;
        while i < self.features.len()
            invariant
                i <= fs.len(),
                fs == self.features@,
                forall|k: int| 0 <= k < order@.len() ==> (#[trigger] order@[k]) < i && fs[order@[k] as int].mode_scope@ == mode@,
                forall|a: int, b: int| 0 <= a < b < order@.len() ==> order@[a] != order@[b],
                forall|a: int, b: int| 0 <= a < b < order@.len() ==> fs[order@[a] as int].usage >= fs[order@[b] as int].usage,
                forall|j: int| 0 <= j < i && (#[trigger] fs[j]).mode_scope@ == mode@ ==> order@.contains(j as usize),
            decreases fs.len() - i,
        {
            if str_eq(self.features[i].mode_scope.as_str(), mode) {
                let u = self.features[i].usage;
                let mut pos: usize = 0;
                while pos < order.len() && self.features[order[pos]].usage >= u
                    invariant
                        pos <= order@.len(),
                        fs == self.features@,
                        i < fs.len(),
                        u == fs[i as int].usage,
                        forall|k: int| 0 <= k < order@.len() ==> (#[trigger] order@[k]) < i,
                        forall|k: int| 0 <= k < pos ==> fs[order@[k] as int].usage >= u,
                    decreases order@.len() - pos,
                {
                    pos += 1;
                }
                let ghost before = order@;
                order.insert(pos, i);
                proof {
                    lemma_insert_order(fs, before, pos as int, i as int, mode@);
                }
            }
            i += 1;
        }
        let mut out: Vec<&Feature> = Vec::new();
        let mut k: usize = 0;
        while k < order.len()
            invariant
                k <= order@.len(),
                fs == self.features@,
                forall|m: int| 0 <= m < order@.len() ==> (#[trigger] order@[m]) < fs.len(),
                out@.len() == k,
                forall|m: int| 0 <= m < k ==> #[trigger] out@[m] == fs[order@[m] as int],
            decreases order@.len() - k,
        {
            out.push(&self.features[order[k]]);
            k += 1;
        }
        proof {
            assert forall|a: int, b: int| 0 <= a < b < refs_view(out@).len() implies refs_view(out@)[a].0 != refs_view(out@)[b].0 by {
                let x = order@[a] as int;
                let y = order@[b] as int;
                if x < y {
                    assert(fs[x].id@ != fs[y].id@);
                } else {
                    assert(fs[y].id@ != fs[x].id@);
                }
            }
            assert forall|a: int, b: int| 0 <= a < b < refs_view(out@).len() implies refs_view(out@)[a].1 >= refs_view(out@)[b].1 by {
                assert(fs[order@[a] as int].usage >= fs[order@[b] as int].usage);
            }
            assert forall|m: int| 0 <= m < refs_view(out@).len() implies self@.contains_key(#[trigger] refs_view(out@)[m].0) && self@[refs_view(out@)[m].0] == (refs_view(out@)[m].1, refs_view(out@)[m].2, refs_view(out@)[m].3) && in_mode(mode@)(self@[refs_view(out@)[m].0]) by {
                self.lemma_view_at(order@[m] as int);
            }
            assert forall|id: Seq<char>| self@.contains_key(id) && in_mode(mode@)(self@[id]) implies exists|m: int| 0 <= m < refs_view(out@).len() && #[trigger] refs_view(out@)[m].0 == id by {
                let j = choose|j: int| 0 <= j < fs.len() && #[trigger] fs[j].id@ == id;
                self.lemma_view_at(j);
                assert(order@.contains(j as usize));
                let m = choose|m: int| 0 <= m < order@.len() && order@[m] == j as usize;
                assert(refs_view(out@)[m].0 == id);
            }
        }
        out
    }

    /// The pinned features of mode `mode`.
    pub fn pinned_features(&self, mode: &str) -> (out: Vec<&Feature>)
        requires
            self.wf(),
        ensures
            lists_exactly(refs_view(out@), self@, pinned_in_mode(mode@)),
    {
        let ghost fs = self.features@;
        let mut order: Vec<usize> = Vec::new();
        let mut i: usize = 0;
        while i < self.features.len()
            invariant
                i <= fs.len(),
                fs == self.features@,
                forall|k: int| 0 <= k < order@.len() ==> (#[trigger] order@[k]) < i && fs[order@[k] as int].pinned && fs[order@[k] as int].mode_scope@ == mode@,
                forall|a: int, b: int| 0 <= a < b < order@.len() ==> order@[a] < order@[b],
                forall|j: int| 0 <= j < i && (#[trigger] fs[j]).pinned && fs[j].mode_scope@ == mode@ ==> order@.contains(j as usize),
            decreases fs.len() - i,
        {
            if self.features[i].pinned && str_eq(self.features[i].mode_scope.as_str(), mode) {
                let ghost before = order@;
                order.push(i);
                proof {
                    assert forall|j: int| 0 <= j < i + 1 && (#[trigger] fs[j]).pinned && fs[j].mode_scope@ == mode@ implies order@.contains(j as usize) by {
                        if j == i {
                            assert(order@[before.len() as int] == i);
                        } else {
                            let k = choose|k: int| 0 <= k < before.len() && before[k] == j as usize;
                            assert(order@[k] == before[k]);
                        }
                    }
                }
            }
            i += 1;
        }
        let mut out: Vec<&Feature> = Vec::new();
        let mut k: usize = 0;
        while k < order.len()
            invariant
                k <= order@.len(),
                fs == self.features@,
                forall|m: int| 0 <= m < order@.len() ==> (#[trigger] order@[m]) < fs.len(),
                out@.len() == k,
                forall|m: int| 0 <= m < k ==> #[trigger] out@[m] == fs[order@[m] as int],
            decreases order@.len() - k,
        {
            out.push(&self.features[order[k]]);
            k += 1;
        }
        proof {
            assert forall|a: int, b: int| 0 <= a < b < refs_view(out@).len() implies refs_view(out@)[a].0 != refs_view(out@)[b].0 by {
                assert(fs[order@[a] as int].id@ != fs[order@[b] as int].id@);
            }
            assert forall|m: int| 0 <= m < refs_view(out@).len() implies self@.contains_key(#[trigger] refs_view(out@)[m].0) && self@[refs_view(out@)[m].0] == (refs_view(out@)[m].1, refs_view(out@)[m].2, refs_view(out@)[m].3) && pinned_in_mode(mode@)(self@[refs_view(out@)[m].0]) by {
                self.lemma_view_at(order@[m] as int);
            }
            assert forall|id: Seq<char>| self@.contains_key(id) && pinned_in_mode(mode@)(self@[id]) implies exists|m: int| 0 <= m < refs_view(out@).len() && #[trigger] refs_view(out@)[m].0 == id by {
                let j = choose|j: int| 0 <= j < fs.len() && #[trigger] fs[j].id@ == id;
                self.lemma_view_at(j);
                assert(order@.contains(j as usize));
                let m = choose|m: int| 0 <= m < order@.len() && order@[m] == j as usize;
                assert(refs_view(out@)[m].0 == id);
            }
        }
        out
    }
}

} // verus!
