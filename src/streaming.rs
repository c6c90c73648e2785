use std::collections::HashSet;
use vstd::prelude::*;
use crate::location::{
    TerrainLocation, chebyshev, lemma_key_injective, lemma_key_range, location_key,
};
use crate::store::{TerrainData, TerrainPiece, require_update};
use crate::scheduler::{
    in_window, is_next_load, lemma_spiral_completeness, spiral_fits, update_terrain,
};

verus! {

broadcast use vstd::std_specs::hash::group_hash_axioms;

/// The chunks within Chebyshev distance `radius` of `center` among `loaded`.
pub open spec fn window_loaded(
    loaded: Set<TerrainLocation>,
    center: TerrainLocation,
    radius: int,
) -> Set<TerrainLocation> {
    Set::new(|c: TerrainLocation| loaded.contains(c) && chebyshev(c, center) <= radius)
}

/// What one refresh of the active chunks changed: the chunks whose
/// renderable is to be released and those to be meshed and shown.
pub struct ActiveChanges {
    pub evicted: Vec<TerrainLocation>,
    pub activated: Vec<TerrainLocation>,
}

/// The streaming state: the chunk store and the set of active chunks, those
/// that have a live renderable.
pub struct Terrain<H> {
    terrain_data: TerrainData<H>,
    active: Vec<TerrainLocation>,
    load_dist: i32,
}

proof fn lemma_push_contains(s: Seq<TerrainLocation>, a: TerrainLocation)
    ensures
        forall|c: TerrainLocation| #[trigger] s.push(a).contains(c) <==> (s.contains(c) || c == a),
        s.no_duplicates() && !s.contains(a) ==> s.push(a).no_duplicates(),
{
    assert forall|c: TerrainLocation| #[trigger] s.push(a).contains(c) <==> (s.contains(c) || c == a) by {
        if s.contains(c) {
            let k = choose|k: int| 0 <= k < s.len() && s[k] == c;
            assert(s.push(a)[k] == c);
        }
        if c == a {
            assert(s.push(a)[s.len() as int] == a);
        }
    }
    if s.no_duplicates() && !s.contains(a) {
        assert forall|k1: int, k2: int|
            0 <= k1 < s.push(a).len() && 0 <= k2 < s.push(a).len() && k1 != k2 implies s.push(a)[k1]
            != s.push(a)[k2] by {
            if k1 < s.len() && k2 == s.len() {
                assert(s.contains(s[k1]));
            }
            if k2 < s.len() && k1 == s.len() {
                assert(s.contains(s[k2]));
            }
        }
    }
}

/// `keys` holds exactly the keys of the chunks in `s`.
spec fn keys_match(s: Seq<TerrainLocation>, keys: Set<i64>) -> bool {
    forall|c: TerrainLocation| #[trigger] s.contains(c) <==> keys.contains(location_key(c) as i64)
}

proof fn lemma_keys_push(s: Seq<TerrainLocation>, keys: Set<i64>, a: TerrainLocation)
    requires
        keys_match(s, keys),
    ensures
        keys_match(s.push(a), keys.insert(location_key(a) as i64)),
{
    lemma_push_contains(s, a);
    assert forall|c: TerrainLocation| #[trigger] s.push(a).contains(c) <==> keys.insert(
        location_key(a) as i64,
    ).contains(location_key(c) as i64) by {
        lemma_key_range(a);
        lemma_key_range(c);
        if location_key(c) as i64 == location_key(a) as i64 {
            lemma_key_injective(c, a);
        }
    }
}

impl<H> Terrain<H> {
    /// The chunks that have a live renderable.
    pub closed spec fn active_set(&self) -> Set<TerrainLocation> {
        Set::new(|c: TerrainLocation| self.active@.contains(c))
    }

    /// The chunk store.
    pub closed spec fn data(&self) -> TerrainData<H> {
        self.terrain_data
    }

    /// The load and active radius, in rings.
    pub closed spec fn radius(&self) -> int {
        self.load_dist as int
    }

    /// A satisfied frontier means that the whole load window around the
    /// load center is loaded.
    pub open spec fn frontier_holds(&self) -> bool {
        self.data().satisfied() ==> forall|c: TerrainLocation|
            in_window(c, self.data().center(), self.radius()) ==> #[trigger] self.data().loaded().contains(
                c,
            )
    }

    pub closed spec fn wf(&self) -> bool {
        &&& self.terrain_data.wf()
        &&& self.frontier_holds()
        &&& self.load_dist >= 1
        &&& self.active@.no_duplicates()
        &&& forall|c: TerrainLocation|
            #[trigger] self.active@.contains(c) ==> self.terrain_data.loaded().contains(c)
    }

    /// An empty terrain that loads and shows `load_dist` rings around the observer.
    pub fn new(load_dist: i32) -> (r: Terrain<H>)
        requires
            load_dist >= 1,
        ensures
            r.wf(),
            r.radius() == load_dist,
            r.data().pieces() == Map::<TerrainLocation, TerrainPiece<H>>::empty(),
            r.data().center() == (TerrainLocation { x: 0, z: 0 }),
            !r.data().satisfied(),
            r.active_set() == Set::<TerrainLocation>::empty(),
            r.active_set().subset_of(r.data().loaded()),
            r.frontier_holds(),
    {
        let r = Terrain { terrain_data: TerrainData::new(), active: Vec::new(), load_dist };
        assert(r.active_set() =~= Set::<TerrainLocation>::empty());
        r
    }

    /// The chunk store, to read generated chunks from.
    pub fn terrain_data(&self) -> (r: &TerrainData<H>)
        ensures
            *r == self.data(),
    {
        &self.terrain_data
    }

    /// The load and active radius, in rings.
    pub fn load_dist(&self) -> (r: i32)
        ensures
            r == self.radius(),
    {
        self.load_dist
    }

    /// Decides the load step of a tick with the observer's chunk at `center`.
    /// When the center moved or the frontier is not yet satisfied, the load
    /// center becomes `center` and the next chunk of the spiral search is
    /// returned for generation; when there is none, the frontier is marked
    /// satisfied. Otherwise nothing changes and nothing is to be generated.
    pub fn plan_load(&mut self, center: &TerrainLocation) -> (r: Option<TerrainLocation>)
        requires
            old(self).wf(),
            spiral_fits(*center, old(self).radius()),
        ensures
            final(self).frontier_holds(),
            final(self).active_set().subset_of(final(self).data().loaded()),
            final(self).wf(),
            final(self).radius() == old(self).radius(),
            final(self).active_set() == old(self).active_set(),
            final(self).data().pieces() == old(self).data().pieces(),
            if old(self).data().satisfied() && old(self).data().center() == *center {
                &&& r is None
                &&& final(self).data().center() == old(self).data().center()
                &&& final(self).data().satisfied()
            } else {
                &&& is_next_load(old(self).data().loaded(), *center, old(self).radius(), r)
                &&& final(self).data().center() == *center
                &&& final(self).data().satisfied() == (r is None)
            },
    {
        if !require_update(&mut self.terrain_data, center) {
            assert(self.data().loaded() == old(self).data().loaded());
            assert(self.data().center() == old(self).data().center());
            return None;
        }
        let r = update_terrain(&mut self.terrain_data, center, self.load_dist);
        proof {
            lemma_spiral_completeness(old(self).data().loaded(), *center, self.load_dist as int, r);
        }
        r
    }

    /// Stores a generated chunk under its own address.
    pub fn store_piece(&mut self, piece: TerrainPiece<H>)
        requires
            old(self).wf(),
            piece.wf(),
        ensures
            final(self).frontier_holds(),
            final(self).active_set().subset_of(final(self).data().loaded()),
            final(self).wf(),
            final(self).radius() == old(self).radius(),
            final(self).active_set() == old(self).active_set(),
            final(self).data().pieces() == old(self).data().pieces().insert(piece.position, piece),
            final(self).data().center() == old(self).data().center(),
            final(self).data().satisfied() == old(self).data().satisfied(),
    {
        let loc = piece.position;
        self.terrain_data.insert(loc, piece);
        assert(self.data().loaded() == old(self).data().loaded().insert(loc));
        assert(self.data().center() == old(self).data().center());
    }

    /// Evicts and activates chunks for the observer's chunk `center`: after
    /// the call the active chunks are exactly the loaded chunks within
    /// Chebyshev distance `radius()` of `center`. Returns the chunks that
    /// left the active set (their renderables are to be released) and those
    /// that joined it (to be meshed), each once.
    pub fn refresh_active(&mut self, center: &TerrainLocation) -> (r: ActiveChanges)
        requires
            old(self).wf(),
            spiral_fits(*center, old(self).radius()),
        ensures
            final(self).frontier_holds(),
            final(self).active_set().subset_of(final(self).data().loaded()),
            final(self).wf(),
            final(self).radius() == old(self).radius(),
            final(self).data() == old(self).data(),
            final(self).active_set() == window_loaded(
                old(self).data().loaded(),
                *center,
                old(self).radius(),
            ),
            r.evicted@.no_duplicates(),
            r.activated@.no_duplicates(),
            forall|c: TerrainLocation|
                #[trigger] r.evicted@.contains(c) <==> (old(self).active_set().contains(c)
                    && chebyshev(c, *center) > old(self).radius()),
            forall|c: TerrainLocation|
                #[trigger] r.activated@.contains(c) <==> (final(self).active_set().contains(c)
                    && !old(self).active_set().contains(c)),
    {
        let ghost loaded = self.terrain_data.loaded();
        let ghost old_active = self.active@;
        let rad: i64 = self.load_dist as i64;
        let mut kept: Vec<TerrainLocation> = Vec::new();
        let mut kept_keys: HashSet<i64> = HashSet::new();
        let mut evicted: Vec<TerrainLocation> = Vec::new();
        let mut i: usize = 0;
        while i < self.active.len()
            invariant
                self.wf(),
                self.active@ == old_active,
                self.terrain_data.loaded() == loaded,
                rad == self.load_dist,
                i <= old_active.len(),
                kept@.no_duplicates(),
                keys_match(kept@, kept_keys@),
                evicted@.no_duplicates(),
                forall|j: int|
                    0 <= j < i && chebyshev(old_active[j], *center) <= rad ==> kept@.contains(
                        #[trigger] old_active[j],
                    ),
                forall|j: int|
                    0 <= j < i && chebyshev(old_active[j], *center) > rad ==> evicted@.contains(
                        #[trigger] old_active[j],
                    ),
                forall|c: TerrainLocation|
                    #[trigger] kept@.contains(c) ==> chebyshev(c, *center) <= rad
                        && old_active.contains(c) && exists|j: int| 0 <= j < i && old_active[j] == c,
                forall|c: TerrainLocation|
                    #[trigger] evicted@.contains(c) ==> chebyshev(c, *center) > rad
                        && old_active.contains(c) && exists|j: int| 0 <= j < i && old_active[j] == c,
            decreases old_active.len() - i,
        {
            let a = self.active[i];
            proof {
                assert(old_active.contains(a));
                if kept@.contains(a) {
                    let j = choose|j: int| 0 <= j < i && old_active[j] == a;
                    assert(old_active[j] == old_active[i as int]);
                }
                if evicted@.contains(a) {
                    let j = choose|j: int| 0 <= j < i && old_active[j] == a;
                    assert(old_active[j] == old_active[i as int]);
                }
                lemma_push_contains(kept@, a);
                lemma_push_contains(evicted@, a);
                lemma_keys_push(kept@, kept_keys@, a);
            }
            if a.within(center, rad) {
                kept_keys.insert(a.key());
                kept.push(a);
            } else {
                evicted.push(a);
            }
            i = i + 1;
        }
        let ghost kept_old = kept@;
        let mut activated: Vec<TerrainLocation> = Vec::new();
        let mut x: i64 = center.x as i64 - rad;
        while x <= center.x as i64 + rad
            invariant
                self.wf(),
                self.active@ == old_active,
                self.terrain_data.loaded() == loaded,
                rad == self.load_dist,
                spiral_fits(*center, rad as int),
                center.x - rad <= x <= center.x + rad + 1,
                forall|j: int|
                    0 <= j < old_active.len() && chebyshev(old_active[j], *center) <= rad
                        ==> kept_old.contains(#[trigger] old_active[j]),
                kept@.no_duplicates(),
                keys_match(kept@, kept_keys@),
                activated@.no_duplicates(),
                forall|c: TerrainLocation|
                    #[trigger] kept@.contains(c) ==> chebyshev(c, *center) <= rad && loaded.contains(
                        c,
                    ) && (kept_old.contains(c) || activated@.contains(c)),
                forall|c: TerrainLocation| #[trigger] kept_old.contains(c) ==> kept@.contains(c),
                forall|c: TerrainLocation|
                    #[trigger] activated@.contains(c) ==> kept@.contains(c) && !old_active.contains(
                        c,
                    ),
                forall|c: TerrainLocation|
                    #[trigger] kept_old.contains(c) ==> old_active.contains(c),
                forall|c: TerrainLocation|
                    loaded.contains(c) && chebyshev(c, *center) <= rad && c.x < x
                        ==> #[trigger] kept@.contains(c),
            decreases center.x + rad + 1 - x,
        {
            let mut z: i64 = center.z as i64 - rad;
            while z <= center.z as i64 + rad
                invariant
                    self.wf(),
                    self.active@ == old_active,
                    self.terrain_data.loaded() == loaded,
                    rad == self.load_dist,
                    spiral_fits(*center, rad as int),
                    center.x - rad <= x <= center.x + rad,
                    forall|j: int|
                        0 <= j < old_active.len() && chebyshev(old_active[j], *center) <= rad
                            ==> kept_old.contains(#[trigger] old_active[j]),
                    center.z - rad <= z <= center.z + rad + 1,
                    kept@.no_duplicates(),
                    keys_match(kept@, kept_keys@),
                    activated@.no_duplicates(),
                    forall|c: TerrainLocation|
                        #[trigger] kept@.contains(c) ==> chebyshev(c, *center) <= rad
                            && loaded.contains(c) && (kept_old.contains(c) || activated@.contains(
                            c,
                        )),
                    forall|c: TerrainLocation| #[trigger] kept_old.contains(c) ==> kept@.contains(c),
                    forall|c: TerrainLocation|
                        #[trigger] activated@.contains(c) ==> kept@.contains(c)
                            && !old_active.contains(c),
                    forall|c: TerrainLocation|
                        #[trigger] kept_old.contains(c) ==> old_active.contains(c),
                    forall|c: TerrainLocation|
                        loaded.contains(c) && chebyshev(c, *center) <= rad && (c.x < x || (c.x == x
                            && c.z < z)) ==> #[trigger] kept@.contains(c),
                decreases center.z + rad + 1 - z,
            {
                let loc = TerrainLocation { x: x as i32, z: z as i32 };
                let k = loc.key();
                if self.terrain_data.contains(&loc) && !kept_keys.contains(&k) {
                    proof {
                        if old_active.contains(loc) {
                            let j = choose|j: int| 0 <= j < old_active.len() && old_active[j] == loc;
                            assert(kept_old.contains(old_active[j]));
                        }
                        lemma_push_contains(kept@, loc);
                        lemma_push_contains(activated@, loc);
                        lemma_keys_push(kept@, kept_keys@, loc);
                        if activated@.contains(loc) {
                            assert(kept@.contains(loc));
                        }
                    }
                    kept_keys.insert(k);
                    kept.push(loc);
                    activated.push(loc);
                }
                z = z + 1;
            }
            x = x + 1;
        }
        self.active = kept;
        proof {
            assert(self.active_set() =~= window_loaded(loaded, *center, rad as int));
        }
        ActiveChanges { evicted, activated }
    }
}

} // verus!
