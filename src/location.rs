use vstd::prelude::*;

verus! {

/// The integer address of a chunk on the infinite terrain grid.
#[derive(Clone, Copy, PartialEq, Eq, Structural, Hash, Debug)]
pub struct TerrainLocation {
    pub x: i32,
    pub z: i32,
}

pub open spec fn abs_diff(a: int, b: int) -> int {
    if a >= b {
        a - b
    } else {
        b - a
    }
}

/// Chebyshev distance between two chunk addresses.
pub open spec fn chebyshev(a: TerrainLocation, b: TerrainLocation) -> int {
    let dx = abs_diff(a.x as int, b.x as int);
    let dz = abs_diff(a.z as int, b.z as int);
    if dx >= dz {
        dx
    } else {
        dz
    }
}

/// The hash key of a chunk address: both coordinates packed in one integer.
pub open spec fn location_key(loc: TerrainLocation) -> int {
    loc.x as int * 4294967296 + (loc.z as int + 2147483648)
}

/// Every key fits an `i64`.
pub proof fn lemma_key_range(a: TerrainLocation)
    ensures
        i64::MIN <= location_key(a) <= i64::MAX,
{
    assert(-2147483648 * 4294967296 <= a.x as int * 4294967296 <= 2147483647 * 4294967296)
        by (nonlinear_arith)
        requires
            -2147483648 <= a.x <= 2147483647,
    ;
}

/// Two addresses with the same key are the same address.
pub proof fn lemma_key_injective(a: TerrainLocation, b: TerrainLocation)
    requires
        location_key(a) == location_key(b),
    ensures
        a == b,
{
    let d = a.x as int - b.x as int;
    assert(d * 4294967296 == b.z as int - a.z as int) by (nonlinear_arith)
        requires
            a.x as int * 4294967296 + a.z as int == b.x as int * 4294967296 + b.z as int,
            d == a.x as int - b.x as int,
    ;
    if d > 0 {
        assert(d * 4294967296 >= 4294967296) by (nonlinear_arith)
            requires
                d > 0,
        ;
    } else if d < 0 {
        assert(d * 4294967296 <= -4294967296) by (nonlinear_arith)
            requires
                d < 0,
        ;
    }
}

impl TerrainLocation {
    /// The key under which this address is stored.
    pub fn key(&self) -> (k: i64)
        ensures
            k as int == location_key(*self),
    {
        proof {
            lemma_key_range(*self);
        }
        self.x as i64 * 4294967296 + (self.z as i64 + 2147483648)
    }

    /// Whether `self` lies within Chebyshev distance `radius` of `center`.
    pub fn within(&self, center: &TerrainLocation, radius: i64) -> (r: bool)
        ensures
            r == (chebyshev(*self, *center) <= radius),
    {
        let dx: i64 = if self.x >= center.x {
            self.x as i64 - center.x as i64
        } else {
            center.x as i64 - self.x as i64
        };
        let dz: i64 = if self.z >= center.z {
            self.z as i64 - center.z as i64
        } else {
            center.z as i64 - self.z as i64
        };
        dx <= radius && dz <= radius
    }
}

} // verus!
