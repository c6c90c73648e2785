use vstd::prelude::*;
use vstd::relations::injective_on;
use vstd::set_lib::{
    set_int_range, lemma_int_range, lemma_len_subset, lemma_map_size, lemma_set_disjoint_lens,
    lemma_subset_equality,
};
use vstd::seq_lib::seq_to_set_is_finite;
use crate::location::{TerrainLocation, chebyshev};
use crate::store::TerrainData;

verus! {

/// The chunk visited at step `t` of edge `e` of ring `i` of the spiral around
/// `center`. Every edge has `2 * i + 1` steps:
/// edge 0 runs up the east side (`x = cx + i`, `z` from `cz - i`),
/// edge 1 along the north side (`z = cz + i`, `x` from `cx - i`),
/// edge 2 up the west side (`x = cx - i`, `z` from `cz - i`),
/// edge 3 along the south side (`z = cz - i`, `x` from `cx - i`).
pub open spec fn spiral_at(center: TerrainLocation, i: int, e: int, t: int) -> TerrainLocation {
    let dx = if e == 0 {
        i
    } else if e == 1 {
        t - i
    } else if e == 2 {
        -i
    } else {
        t - i
    };
    let dz = if e == 0 {
        t - i
    } else if e == 1 {
        i
    } else if e == 2 {
        t - i
    } else {
        -i
    };
    TerrainLocation { x: (center.x + dx) as i32, z: (center.z + dz) as i32 }
}

/// A step of the spiral of `radius` rings.
pub open spec fn spiral_step(radius: int, i: int, e: int, t: int) -> bool {
    0 <= i < radius && 0 <= e < 4 && 0 <= t < 2 * i + 1
}

/// Step `(i1, e1, t1)` comes before step `(i2, e2, t2)`.
pub open spec fn precedes(i1: int, e1: int, t1: int, i2: int, e2: int, t2: int) -> bool {
    i1 < i2 || (i1 == i2 && (e1 < e2 || (e1 == e2 && t1 < t2)))
}

/// The load window: the chunks within Chebyshev distance `radius - 1` of `center`.
pub open spec fn in_window(c: TerrainLocation, center: TerrainLocation, radius: int) -> bool {
    chebyshev(c, center) < radius
}

/// Every coordinate that the spiral reaches fits an `i32`.
pub open spec fn spiral_fits(center: TerrainLocation, radius: int) -> bool {
    &&& 0 <= radius
    &&& i32::MIN + radius <= center.x <= i32::MAX - radius
    &&& i32::MIN + radius <= center.z <= i32::MAX - radius
}

/// Step `(i, e, t)` is settled: its chunk is outside the window or loaded.
pub open spec fn settled(
    loaded: Set<TerrainLocation>,
    center: TerrainLocation,
    radius: int,
    i: int,
    e: int,
    t: int,
) -> bool {
    in_window(spiral_at(center, i, e, t), center, radius) ==> loaded.contains(
        spiral_at(center, i, e, t),
    )
}

/// What the spiral search returns on `loaded`: the chunk of the first
/// unsettled step, or `None` when every step is settled.
pub open spec fn is_next_load(
    loaded: Set<TerrainLocation>,
    center: TerrainLocation,
    radius: int,
    r: Option<TerrainLocation>,
) -> bool {
    match r {
        None => forall|i: int, e: int, t: int|
            spiral_step(radius, i, e, t) ==> #[trigger] settled(loaded, center, radius, i, e, t),
        Some(c) => exists|i: int, e: int, t: int|
            #![trigger spiral_at(center, i, e, t)]
            {
                &&& spiral_step(radius, i, e, t)
                &&& spiral_at(center, i, e, t) == c
                &&& in_window(c, center, radius)
                &&& !loaded.contains(c)
                &&& forall|i2: int, e2: int, t2: int|
                    spiral_step(radius, i2, e2, t2) && precedes(i2, e2, t2, i, e, t)
                        ==> #[trigger] settled(loaded, center, radius, i2, e2, t2)
            },
    }
}

/// The load window as a set.
pub open spec fn load_window(center: TerrainLocation, radius: int) -> Set<TerrainLocation> {
    Set::new(|c: TerrainLocation| in_window(c, center, radius))
}

spec fn window_column(center: TerrainLocation, radius: int, x: int) -> Set<TerrainLocation> {
    Set::new(|c: TerrainLocation| in_window(c, center, radius) && c.x == x)
}

spec fn window_columns(center: TerrainLocation, radius: int, k: int) -> Set<TerrainLocation> {
    Set::new(|c: TerrainLocation| in_window(c, center, radius) && c.x < center.x - radius + 1 + k)
}

proof fn lemma_column_size(center: TerrainLocation, radius: int, x: int)
    requires
        spiral_fits(center, radius),
        1 <= radius,
        center.x - radius < x < center.x + radius,
    ensures
        window_column(center, radius, x).finite(),
        window_column(center, radius, x).len() == 2 * radius - 1,
{
    let lo = center.z - radius + 1;
    let hi = center.z + radius;
    lemma_int_range(lo, hi);
    let f = |z: int| TerrainLocation { x: x as i32, z: z as i32 };
    let zs = set_int_range(lo, hi);
    assert(injective_on(f, zs)) by {
        assert forall|a: int, b: int| zs.contains(a) && zs.contains(b) && #[trigger] f(a) == #[trigger] f(
            b,
        ) implies a == b by {
            assert(f(a).z == f(b).z);
        }
    }
    assert forall|c: TerrainLocation| #[trigger] window_column(center, radius, x).contains(c) implies zs.map(
        f,
    ).contains(c) by {
        assert(zs.contains(c.z as int) && f(c.z as int) == c);
    }
    assert(zs.map(f) =~= window_column(center, radius, x));
    lemma_map_size(zs, window_column(center, radius, x), f);
}

proof fn lemma_columns_size(center: TerrainLocation, radius: int, k: int)
    requires
        spiral_fits(center, radius),
        1 <= radius,
        0 <= k <= 2 * radius - 1,
    ensures
        window_columns(center, radius, k).finite(),
        window_columns(center, radius, k).len() == k * (2 * radius - 1),
    decreases k,
{
    if k == 0 {
        assert(window_columns(center, radius, 0) =~= Set::<TerrainLocation>::empty());
    } else {
        let x = center.x - radius + k;
        lemma_columns_size(center, radius, k - 1);
        lemma_column_size(center, radius, x);
        let prev = window_columns(center, radius, k - 1);
        let col = window_column(center, radius, x);
        assert(window_columns(center, radius, k) =~= prev + col);
        assert(prev.disjoint(col));
        lemma_set_disjoint_lens(prev, col);
        assert((k - 1) * (2 * radius - 1) + (2 * radius - 1) == k * (2 * radius - 1))
            by (nonlinear_arith);
    }
}

/// The load window of `radius` rings holds `(2 * radius - 1)²` chunks.
pub proof fn lemma_load_window_size(center: TerrainLocation, radius: int)
    requires
        spiral_fits(center, radius),
        1 <= radius,
    ensures
        load_window(center, radius).finite(),
        load_window(center, radius).len() == (2 * radius - 1) * (2 * radius - 1),
{
    lemma_columns_size(center, radius, 2 * radius - 1);
    assert(window_columns(center, radius, 2 * radius - 1) =~= load_window(center, radius));
}

/// Every chunk of the load window is visited by some step of the spiral.
pub proof fn lemma_spiral_covers_window(center: TerrainLocation, radius: int, c: TerrainLocation)
    requires
        spiral_fits(center, radius),
        in_window(c, center, radius),
    ensures
        exists|i: int, e: int, t: int|
            spiral_step(radius, i, e, t) && i == chebyshev(c, center) && #[trigger] spiral_at(
                center,
                i,
                e,
                t,
            ) == c,
{
    let d = chebyshev(c, center);
    let dx = c.x - center.x;
    let dz = c.z - center.z;
    if dx == d {
        assert(spiral_step(radius, d, 0, dz + d) && spiral_at(center, d, 0, dz + d) == c);
    } else if dz == d {
        assert(spiral_step(radius, d, 1, dx + d) && spiral_at(center, d, 1, dx + d) == c);
    } else if dx == -d {
        assert(spiral_step(radius, d, 2, dz + d) && spiral_at(center, d, 2, dz + d) == c);
    } else {
        assert(spiral_step(radius, d, 3, dx + d) && spiral_at(center, d, 3, dx + d) == c);
    }
}

/// Spiral completeness: the search returns a chunk of the window that the
/// store lacks, and returns `None` only once every chunk of the window is
/// loaded. So, from a store with no chunks, calls each followed by the
/// insertion of the returned chunk add a new window chunk every time and end
/// with `None` exactly when the window is loaded: each of its chunks is
/// returned once, `(2 * radius - 1)²` calls in all (see
/// `lemma_load_window_size`).
pub proof fn lemma_spiral_completeness(
    loaded: Set<TerrainLocation>,
    center: TerrainLocation,
    radius: int,
    r: Option<TerrainLocation>,
)
    requires
        spiral_fits(center, radius),
        is_next_load(loaded, center, radius, r),
    ensures
        r matches Some(c) ==> in_window(c, center, radius) && !loaded.contains(c),
        r is None <==> forall|c: TerrainLocation|
            in_window(c, center, radius) ==> #[trigger] loaded.contains(c),
{
    if r is None {
        assert forall|c: TerrainLocation| in_window(c, center, radius) implies #[trigger] loaded.contains(
            c,
        ) by {
            lemma_spiral_covers_window(center, radius, c);
            let (i, e, t) = choose|i: int, e: int, t: int|
                spiral_step(radius, i, e, t) && #[trigger] spiral_at(center, i, e, t) == c;
            assert(settled(loaded, center, radius, i, e, t));
        }
    }
}

/// `rs` is a run of the loader from a store with no chunks: call `k`
/// returned `rs[k]` on a store holding exactly the chunks returned before.
pub open spec fn is_load_run(center: TerrainLocation, radius: int, rs: Seq<TerrainLocation>) -> bool {
    forall|k: int|
        0 <= k < rs.len() ==> is_next_load(
            #[trigger] rs.subrange(0, k).to_set(),
            center,
            radius,
            Some(rs[k]),
        )
}

/// Spiral completeness over a whole run: starting from a store with no
/// chunks, the chunks returned by successive calls, each inserted before the
/// next call, are distinct chunks of the load window; the next call returns
/// `None` exactly when `(2 * radius - 1)²` of them have been returned, and
/// then they are the whole window. No chunk comes before a chunk nearer to
/// the center.
pub proof fn lemma_load_run(center: TerrainLocation, radius: int, rs: Seq<TerrainLocation>)
    requires
        spiral_fits(center, radius),
        1 <= radius,
        is_load_run(center, radius, rs),
    ensures
        rs.no_duplicates(),
        forall|k: int| 0 <= k < rs.len() ==> in_window(#[trigger] rs[k], center, radius),
        forall|j: int, k: int|
            0 <= j < k < rs.len() ==> chebyshev(#[trigger] rs[j], center) <= chebyshev(
                #[trigger] rs[k],
                center,
            ),
        rs.len() <= (2 * radius - 1) * (2 * radius - 1),
        is_next_load(rs.to_set(), center, radius, None) <==> rs.len() == (2 * radius - 1) * (2
            * radius - 1),
        rs.len() == (2 * radius - 1) * (2 * radius - 1) ==> rs.to_set() == load_window(
            center,
            radius,
        ),
{
    broadcast use seq_to_set_is_finite;

    assert forall|k: int| 0 <= k < rs.len() implies in_window(#[trigger] rs[k], center, radius)
        && !rs.subrange(0, k).to_set().contains(rs[k]) by {
        assert(is_next_load(rs.subrange(0, k).to_set(), center, radius, Some(rs[k])));
        lemma_spiral_completeness(rs.subrange(0, k).to_set(), center, radius, Some(rs[k]));
    }
    assert forall|j: int, k: int| 0 <= j < rs.len() && 0 <= k < rs.len() && j != k implies rs[j]
        != rs[k] by {
        let (a, b) = if j < k {
            (j, k)
        } else {
            (k, j)
        };
        assert(rs.subrange(0, b)[a] == rs[a]);
        assert(rs.subrange(0, b).to_set().contains(rs[a]));
    }
    assert forall|j: int, k: int| 0 <= j < k < rs.len() implies chebyshev(
        #[trigger] rs[j],
        center,
    ) <= chebyshev(#[trigger] rs[k], center) by {
        if chebyshev(rs[k], center) < chebyshev(rs[j], center) {
            assert(is_next_load(rs.subrange(0, j).to_set(), center, radius, Some(rs[j])));
            lemma_ring_order(rs.subrange(0, j).to_set(), center, radius, rs[j], rs[k]);
            let a = choose|a: int| 0 <= a < j && rs.subrange(0, j)[a] == rs[k];
            assert(rs[a] == rs[k]);
        }
    }
    rs.unique_seq_to_set();
    let window = load_window(center, radius);
    lemma_load_window_size(center, radius);
    assert(rs.to_set().subset_of(window));
    lemma_len_subset(rs.to_set(), window);
    if rs.len() == (2 * radius - 1) * (2 * radius - 1) {
        lemma_subset_equality(rs.to_set(), window);
        assert forall|i: int, e: int, t: int|
            spiral_step(radius, i, e, t) implies #[trigger] settled(
            rs.to_set(),
            center,
            radius,
            i,
            e,
            t,
        ) by {
            assert(window.contains(spiral_at(center, i, e, t)) ==> rs.to_set().contains(
                spiral_at(center, i, e, t),
            ));
        }
    }
    if is_next_load(rs.to_set(), center, radius, None) {
        lemma_spiral_completeness(rs.to_set(), center, radius, None);
        assert(window.subset_of(rs.to_set()));
        lemma_len_subset(window, rs.to_set());
    }
}

/// Every step of ring `i` visits a chunk at Chebyshev distance exactly `i`.
pub proof fn lemma_step_ring(center: TerrainLocation, radius: int, i: int, e: int, t: int)
    requires
        spiral_fits(center, radius),
        spiral_step(radius, i, e, t),
    ensures
        chebyshev(spiral_at(center, i, e, t), center) == i,
        in_window(spiral_at(center, i, e, t), center, radius),
{
}

/// Ring order: when the search returns `p`, every chunk nearer to the
/// center than `p` is loaded.
pub proof fn lemma_ring_order(
    loaded: Set<TerrainLocation>,
    center: TerrainLocation,
    radius: int,
    p: TerrainLocation,
    q: TerrainLocation,
)
    requires
        spiral_fits(center, radius),
        is_next_load(loaded, center, radius, Some(p)),
        chebyshev(q, center) < chebyshev(p, center),
    ensures
        loaded.contains(q),
{
    let (i, e, t) = choose|i: int, e: int, t: int|
        #![trigger spiral_at(center, i, e, t)]
        {
            &&& spiral_step(radius, i, e, t)
            &&& spiral_at(center, i, e, t) == p
            &&& in_window(p, center, radius)
            &&& !loaded.contains(p)
            &&& forall|i2: int, e2: int, t2: int|
                spiral_step(radius, i2, e2, t2) && precedes(i2, e2, t2, i, e, t)
                    ==> #[trigger] settled(loaded, center, radius, i2, e2, t2)
        };
    lemma_step_ring(center, radius, i, e, t);
    lemma_spiral_covers_window(center, radius, q);
    let (i2, e2, t2) = choose|i2: int, e2: int, t2: int|
        spiral_step(radius, i2, e2, t2) && i2 == chebyshev(q, center) && #[trigger] spiral_at(
            center,
            i2,
            e2,
            t2,
        ) == q;
    assert(precedes(i2, e2, t2, i, e, t));
    assert(settled(loaded, center, radius, i2, e2, t2));
}

/// The chunk at step `(i, e, t)` of the spiral.
fn spiral_location(center: &TerrainLocation, radius: i64, i: i64, e: i64, t: i64) -> (r:
    TerrainLocation)
    requires
        spiral_fits(*center, radius as int),
        spiral_step(radius as int, i as int, e as int, t as int),
    ensures
        r == spiral_at(*center, i as int, e as int, t as int),
{
    let dx: i64 = if e == 0 {
        i
    } else if e == 1 {
        t - i
    } else if e == 2 {
        -i
    } else {
        t - i
    };
    let dz: i64 = if e == 0 {
        t - i
    } else if e == 1 {
        i
    } else if e == 2 {
        t - i
    } else {
        -i
    };
    TerrainLocation { x: (center.x as i64 + dx) as i32, z: (center.z as i64 + dz) as i32 }
}

/// Finds the next chunk to generate around `center`: walking the spiral of
/// `radius` rings, the first chunk within the load window that the store
/// lacks; `None` when the window is fully loaded.
pub fn get_next_load_loc<H>(terrain_data: &TerrainData<H>, center: &TerrainLocation, radius: i32) -> (r:
    Option<TerrainLocation>)
    requires
        spiral_fits(*center, radius as int),
    ensures
        is_next_load(terrain_data.loaded(), *center, radius as int, r),
{
    let ghost loaded = terrain_data.loaded();
    let rad: i64 = radius as i64;
    let mut i: i64 = 0;
    while i < rad
        invariant
            0 <= i <= rad,
            rad == radius,
            loaded == terrain_data.loaded(),
            spiral_fits(*center, radius as int),
            forall|i2: int, e2: int, t2: int|
                spiral_step(radius as int, i2, e2, t2) && i2 < i ==> #[trigger] settled(
                    loaded,
                    *center,
                    radius as int,
                    i2,
                    e2,
                    t2,
                ),
        decreases rad - i,
    {
        let mut e: i64 = 0;
        while e < 4
            invariant
                0 <= i < rad,
                0 <= e <= 4,
                rad == radius,
                loaded == terrain_data.loaded(),
                spiral_fits(*center, radius as int),
                forall|i2: int, e2: int, t2: int|
                    spiral_step(radius as int, i2, e2, t2) && precedes(i2, e2, t2, i as int, e as int, 0)
                        ==> #[trigger] settled(loaded, *center, radius as int, i2, e2, t2),
            decreases 4 - e,
        {
            let mut t: i64 = 0;
            while t < 2 * i + 1
                invariant
                    0 <= i < rad,
                    0 <= e < 4,
                    0 <= t <= 2 * i + 1,
                    rad == radius,
                    loaded == terrain_data.loaded(),
                    spiral_fits(*center, radius as int),
                    forall|i2: int, e2: int, t2: int|
                        spiral_step(radius as int, i2, e2, t2) && precedes(i2, e2, t2, i as int, e as int, t as int)
                            ==> #[trigger] settled(loaded, *center, radius as int, i2, e2, t2),
                decreases 2 * i + 1 - t,
            {
                let loc = spiral_location(center, rad, i, e, t);
                proof {
                    lemma_step_ring(*center, radius as int, i as int, e as int, t as int);
                }
                if !terrain_data.contains(&loc) {
                    return Some(loc);
                }
                assert(settled(loaded, *center, radius as int, i as int, e as int, t as int));
                t = t + 1;
            }
            e = e + 1;
        }
        i = i + 1;
    }
    None
}

/// Starts a loading step for `center`: moves the load center there and
/// returns the next chunk to generate; when there is none, marks the
/// frontier satisfied.
pub fn update_terrain<H>(terrain_data: &mut TerrainData<H>, center: &TerrainLocation, radius: i32) -> (r:
    Option<TerrainLocation>)
    requires
        old(terrain_data).wf(),
        spiral_fits(*center, radius as int),
    ensures
        final(terrain_data).wf(),
        final(terrain_data).pieces() == old(terrain_data).pieces(),
        final(terrain_data).center() == *center,
        is_next_load(old(terrain_data).loaded(), *center, radius as int, r),
        final(terrain_data).satisfied() == if r is None {
            true
        } else {
            old(terrain_data).satisfied() && old(terrain_data).center() == *center
        },
{
    terrain_data.begin_update(center);
    let r = get_next_load_loc(terrain_data, center, radius);
    if r.is_none() {
        terrain_data.mark_satisfied();
    }
    r
}

} // verus!
