use std::collections::HashMap;
use vstd::prelude::*;
use crate::location::{TerrainLocation, location_key, lemma_key_injective, lemma_key_range};

verus! {

broadcast use vstd::std_specs::hash::group_hash_axioms;

/// The largest chunk side, in samples: every vertex index of a chunk fits a `u32`.
pub const MAX_SIDE: usize = 65536;

/// A square grid of height samples, `side × side`, addressed row-major by
/// `col + row * side`, together with the chunk address it belongs to.
pub struct TerrainPiece<H> {
    pub position: TerrainLocation,
    pub side: usize,
    pub terrain_data: Vec<H>,
}

impl<H> TerrainPiece<H> {
    pub open spec fn wf(&self) -> bool {
        &&& 2 <= self.side <= MAX_SIDE
        &&& self.terrain_data@.len() == self.side * self.side
    }

    /// Wraps a row-major grid of samples; `None` unless the side is in
    /// `2..=MAX_SIDE` and there are exactly `side * side` samples.
    pub fn new(position: TerrainLocation, side: usize, terrain_data: Vec<H>) -> (r: Option<
        TerrainPiece<H>,
    >)
        ensures
            r is Some <==> (2 <= side <= MAX_SIDE && terrain_data@.len() == side * side),
            r matches Some(p) ==> (p.position == position && p.side == side && p.terrain_data
                == terrain_data && p.wf()),
    {
        if side < 2 || side > MAX_SIDE {
            return None;
        }
        let side64: u64 = side as u64;
        assert(side64 * side64 <= 65536 * 65536) by (nonlinear_arith)
            requires
                side64 <= 65536,
        ;
        if terrain_data.len() as u64 != side64 * side64 {
            return None;
        }
        Some(TerrainPiece { position, side, terrain_data })
    }
}

/// The global sample coordinate, in units of the sample spacing, of sample
/// `(col, row)` of the chunk at `position`: neighbouring chunks share their
/// border samples, so a chunk spans `side - 1` spacings.
pub open spec fn sample_coordinate(position: TerrainLocation, side: int, col: int, row: int) -> (
    int,
    int,
) {
    (position.x * (side - 1) + col, position.z * (side - 1) + row)
}

/// Computes `sample_coordinate` for one sample.
pub fn sample_grid_position(position: TerrainLocation, side: usize, col: usize, row: usize) -> (r: (
    i64,
    i64,
))
    requires
        2 <= side <= MAX_SIDE,
        col < side,
        row < side,
    ensures
        (r.0 as int, r.1 as int) == sample_coordinate(position, side as int, col as int, row as int),
{
    let span: i64 = side as i64 - 1;
    assert(-2147483648 * 65535 <= position.x * span <= 2147483647 * 65535) by (nonlinear_arith)
        requires
            0 < span <= 65535,
            -2147483648 <= position.x <= 2147483647,
    ;
    assert(-2147483648 * 65535 <= position.z * span <= 2147483647 * 65535) by (nonlinear_arith)
        requires
            0 < span <= 65535,
            -2147483648 <= position.z <= 2147483647,
    ;
    (position.x as i64 * span + col as i64, position.z as i64 * span + row as i64)
}

/// The generated chunks, keyed by address, with the state of the load frontier.
pub struct TerrainData<H> {
    terrain_pieces: HashMap<i64, TerrainPiece<H>>,
    load_center: TerrainLocation,
    fully_loaded: bool,
}

impl<H> TerrainData<H> {
    /// The stored chunks by address.
    pub closed spec fn pieces(&self) -> Map<TerrainLocation, TerrainPiece<H>> {
        Map::new(
            |c: TerrainLocation| self.terrain_pieces@.contains_key(location_key(c) as i64),
            |c: TerrainLocation| self.terrain_pieces@[location_key(c) as i64],
        )
    }

    /// The addresses of the stored chunks.
    pub open spec fn loaded(&self) -> Set<TerrainLocation> {
        self.pieces().dom()
    }

    /// The center that last drove loading.
    pub closed spec fn center(&self) -> TerrainLocation {
        self.load_center
    }

    /// Whether no chunk is missing within the load radius of `center()`.
    pub closed spec fn satisfied(&self) -> bool {
        self.fully_loaded
    }

    pub closed spec fn wf(&self) -> bool {
        forall|k: i64|
            #[trigger] self.terrain_pieces@.contains_key(k) ==> {
                let p = self.terrain_pieces@[k];
                &&& location_key(p.position) == k as int
                &&& p.wf()
            }
    }

    proof fn lemma_pieces_wf(&self, c: TerrainLocation)
        requires
            self.wf(),
            self.pieces().contains_key(c),
        ensures
            self.pieces()[c].position == c,
            self.pieces()[c].wf(),
    {
        let k = location_key(c) as i64;
        assert(self.terrain_pieces@.contains_key(k));
        lemma_key_range(c);
        lemma_key_range(self.terrain_pieces@[k].position);
        lemma_key_injective(self.terrain_pieces@[k].position, c);
    }

    /// An empty store centered on the origin, with the frontier not yet satisfied.
    pub fn new() -> (r: TerrainData<H>)
        ensures
            r.wf(),
            r.pieces() == Map::<TerrainLocation, TerrainPiece<H>>::empty(),
            r.center() == (TerrainLocation { x: 0, z: 0 }),
            !r.satisfied(),
    {
        let r = TerrainData {
            terrain_pieces: HashMap::new(),
            load_center: TerrainLocation { x: 0, z: 0 },
            fully_loaded: false,
        };
        assert(r.pieces() =~= Map::<TerrainLocation, TerrainPiece<H>>::empty());
        r
    }

    /// Whether the chunk at `loc` has been generated.
    pub fn contains(&self, loc: &TerrainLocation) -> (r: bool)
        ensures
            r == self.loaded().contains(*loc),
    {
        let k = loc.key();
        self.terrain_pieces.contains_key(&k)
    }

    /// The chunk at `loc`, if it has been generated.
    pub fn get_terrain_piece(&self, loc: &TerrainLocation) -> (r: Option<&TerrainPiece<H>>)
        requires
            self.wf(),
        ensures
            r is Some <==> self.loaded().contains(*loc),
            r matches Some(p) ==> (*p == self.pieces()[*loc] && p.position == *loc && p.wf()),
    {
        let k = loc.key();
        let r = self.terrain_pieces.get(&k);
        proof {
            if self.loaded().contains(*loc) {
                self.lemma_pieces_wf(*loc);
            }
        }
        r
    }

    /// Stores `piece` under `loc`, replacing any chunk already there.
    pub fn insert(&mut self, loc: TerrainLocation, piece: TerrainPiece<H>)
        requires
            old(self).wf(),
            piece.wf(),
            piece.position == loc,
        ensures
            final(self).wf(),
            final(self).pieces() == old(self).pieces().insert(loc, piece),
            final(self).center() == old(self).center(),
            final(self).satisfied() == old(self).satisfied(),
    {
        let k = loc.key();
        self.terrain_pieces.insert(k, piece);
        proof {
            assert forall|c: TerrainLocation|
                #![trigger self.pieces().contains_key(c)]
                self.pieces().contains_key(c) == old(self).pieces().insert(loc, piece).contains_key(
                    c,
                ) by {
                lemma_key_range(c);
                lemma_key_range(loc);
                if location_key(c) as i64 == k {
                    lemma_key_injective(c, loc);
                }
            }
            assert(self.pieces() =~= old(self).pieces().insert(loc, piece));
        }
    }

    /// Whether loading must run for `center`: it moved, or the frontier is
    /// not yet satisfied.
    pub fn needs_reload(&self, center: &TerrainLocation) -> (r: bool)
        ensures
            r == (*center != self.center() || !self.satisfied()),
    {
        self.load_center != *center || !self.fully_loaded
    }

    /// Moves the load center to `center`; a move clears the frontier flag.
    pub fn begin_update(&mut self, center: &TerrainLocation)
        ensures
            final(self).center() == *center,
            final(self).satisfied() == (old(self).satisfied() && old(self).center() == *center),
            final(self).pieces() == old(self).pieces(),
            old(self).wf() ==> final(self).wf(),
    {
        if self.load_center != *center {
            self.fully_loaded = false;
        }
        self.load_center = *center;
    }

    /// Records that no chunk is missing around the load center.
    pub fn mark_satisfied(&mut self)
        ensures
            final(self).satisfied(),
            final(self).center() == old(self).center(),
            final(self).pieces() == old(self).pieces(),
            old(self).wf() ==> final(self).wf(),
    {
        self.fully_loaded = true;
    }
}

/// Clears the frontier flag when `center` differs from the load center, and
/// tells whether loading must run.
pub fn require_update<H>(terrain_data: &mut TerrainData<H>, center: &TerrainLocation) -> (r: bool)
    ensures
        final(terrain_data).satisfied() == (old(terrain_data).satisfied() && old(
            terrain_data,
        ).center() == *center),
        final(terrain_data).center() == old(terrain_data).center(),
        final(terrain_data).pieces() == old(terrain_data).pieces(),
        old(terrain_data).wf() ==> final(terrain_data).wf(),
        r == !final(terrain_data).satisfied(),
{
    if terrain_data.load_center.x != center.x || terrain_data.load_center.z != center.z {
        terrain_data.fully_loaded = false;
    }
    !terrain_data.fully_loaded
}

} // verus!
