//! Tile ids: one 64-bit number for each tile of each zoom level. The tiles
//! of a zoom level follow those of the level before it, and stand among
//! themselves in the order in which a Hilbert curve visits them, so that
//! tiles with ids close to each other are close to each other.

use vstd::prelude::*;
use vstd::arithmetic::div_mod::{lemma_fundamental_div_mod, lemma_fundamental_div_mod_converse};

verus! {

/// The highest zoom level that has tile ids.
pub const MAX_TILE_ZOOM: u8 = 31;

/// The number of tiles along one side of the zoom level `k`.
pub open spec fn side(k: nat) -> nat
    decreases k,
{
    if k == 0 {
        1
    } else {
        2 * side((k - 1) as nat)
    }
}

/// The number of tiles of the zoom level `k`.
pub open spec fn area(k: nat) -> nat
    decreases k,
{
    if k == 0 {
        1
    } else {
        4 * area((k - 1) as nat)
    }
}

/// The number of tiles of all zoom levels below `k`, which is the id of the
/// first tile of the level `k`.
pub open spec fn base(k: nat) -> nat
    decreases k,
{
    if k == 0 {
        0
    } else {
        base((k - 1) as nat) + area((k - 1) as nat)
    }
}

/// The place of a quadrant on the curve: lower left, upper left, upper
/// right, lower right.
pub open spec fn quadrant(rx: nat, ry: nat) -> nat {
    if rx == 0 {
        ry
    } else {
        (3 - ry) as nat
    }
}

/// The quadrant at a place on the curve, as its column and row.
pub open spec fn quadrant_at(q: nat) -> (nat, nat) {
    if q == 0 {
        (0, 0)
    } else if q == 1 {
        (0, 1)
    } else if q == 2 {
        (1, 1)
    } else {
        (1, 0)
    }
}

/// A position within a quadrant of side `h`, turned as the curve is
/// turned in that quadrant: mirrored at the diagonal in the lower left,
/// mirrored at the other diagonal in the lower right, and as it is in the
/// upper two. Turning twice gives the position back.
pub open spec fn turned(h: nat, x: nat, y: nat, rx: nat, ry: nat) -> (nat, nat) {
    if ry == 0 {
        if rx == 1 {
            ((h - 1 - y) as nat, (h - 1 - x) as nat)
        } else {
            (y, x)
        }
    } else {
        (x, y)
    }
}

/// The place of the tile `(x, y)` on the Hilbert curve of the zoom level
/// `k`: the place of its quadrant, and within the quadrant the place of
/// the tile on the curve of the level below.
pub open spec fn hilbert_d(k: nat, x: nat, y: nat) -> nat
    decreases k,
{
    if k == 0 {
        0
    } else {
        let h = side((k - 1) as nat);
        let rx: nat = if x >= h {
            1
        } else {
            0
        };
        let ry: nat = if y >= h {
            1
        } else {
            0
        };
        let t = turned(h, (x - rx * h) as nat, (y - ry * h) as nat, rx, ry);
        quadrant(rx, ry) * area((k - 1) as nat) + hilbert_d((k - 1) as nat, t.0, t.1)
    }
}

/// The tile at the place `d` on the Hilbert curve of the zoom level `k`.
pub open spec fn hilbert_xy(k: nat, d: nat) -> (nat, nat)
    decreases k,
{
    if k == 0 {
        (0, 0)
    } else {
        let a = area((k - 1) as nat);
        let h = side((k - 1) as nat);
        let r = quadrant_at(d / a);
        let below = hilbert_xy((k - 1) as nat, d % a);
        let t = turned(h, below.0, below.1, r.0, r.1);
        (t.0 + r.0 * h, t.1 + r.1 * h)
    }
}

/// The id of the tile `(x, y)` of the zoom level `z`.
pub open spec fn tile_id(z: nat, x: nat, y: nat) -> nat {
    base(z) + hilbert_d(z, x, y)
}

/// Sides and areas are positive.
pub proof fn lemma_positive(k: nat)
    ensures
        side(k) >= 1,
        area(k) >= 1,
        base(k) >= 0,
    decreases k,
{
    if k > 0 {
        lemma_positive((k - 1) as nat);
    }
}

/// Sides, areas and bases grow with the zoom level.
pub proof fn lemma_monotonic(j: nat, k: nat)
    requires
        j <= k,
    ensures
        side(j) <= side(k),
        area(j) <= area(k),
        base(j) <= base(k),
    decreases k,
{
    if j < k {
        lemma_monotonic(j, (k - 1) as nat);
        lemma_positive((k - 1) as nat);
    }
}

/// The number of tiles along one side of the highest zoom level.
proof fn lemma_side_limit()
    ensures
        side(31) == 0x8000_0000,
{
    assert(side(0) == 1);
    assert(side(1) == 2);
    assert(side(2) == 4);
    assert(side(3) == 8);
    assert(side(4) == 16);
    assert(side(5) == 32);
    assert(side(6) == 64);
    assert(side(7) == 128);
    assert(side(8) == 256);
    assert(side(9) == 512);
    assert(side(10) == 1024);
    assert(side(11) == 2048);
    assert(side(12) == 4096);
    assert(side(13) == 8192);
    assert(side(14) == 16384);
    assert(side(15) == 32768);
    assert(side(16) == 65536);
    assert(side(17) == 131072);
    assert(side(18) == 262144);
    assert(side(19) == 524288);
    assert(side(20) == 1048576);
    assert(side(21) == 2097152);
    assert(side(22) == 4194304);
    assert(side(23) == 8388608);
    assert(side(24) == 16777216);
    assert(side(25) == 33554432);
    assert(side(26) == 67108864);
    assert(side(27) == 134217728);
    assert(side(28) == 268435456);
    assert(side(29) == 536870912);
    assert(side(30) == 1073741824);
    assert(side(31) == 2147483648);
}

/// The number of tiles of each zoom level up to the highest.
proof fn lemma_area_limit()
    ensures
        area(31) == 0x4000_0000_0000_0000,
        forall|k: nat| k <= 31 ==> #[trigger] area(k) <= 0x4000_0000_0000_0000,
{
    assert(area(0) == 1);
    assert(area(1) == 4);
    assert(area(2) == 16);
    assert(area(3) == 64);
    assert(area(4) == 256);
    assert(area(5) == 1024);
    assert(area(6) == 4096);
    assert(area(7) == 16384);
    assert(area(8) == 65536);
    assert(area(9) == 262144);
    assert(area(10) == 1048576);
    assert(area(11) == 4194304);
    assert(area(12) == 16777216);
    assert(area(13) == 67108864);
    assert(area(14) == 268435456);
    assert(area(15) == 1073741824);
    assert(area(16) == 4294967296);
    assert(area(17) == 17179869184);
    assert(area(18) == 68719476736);
    assert(area(19) == 274877906944);
    assert(area(20) == 1099511627776);
    assert(area(21) == 4398046511104);
    assert(area(22) == 17592186044416);
    assert(area(23) == 70368744177664);
    assert(area(24) == 281474976710656);
    assert(area(25) == 1125899906842624);
    assert(area(26) == 4503599627370496);
    assert(area(27) == 18014398509481984);
    assert(area(28) == 72057594037927936);
    assert(area(29) == 288230376151711744);
    assert(area(30) == 1152921504606846976);
    assert(area(31) == 4611686018427387904);
    assert forall|k: nat| k <= 31 implies #[trigger] area(k) <= 0x4000_0000_0000_0000 by {
        lemma_monotonic(k, 31);
    }
}

/// The sizes of the highest zoom level, which fit in 64 bits.
pub proof fn lemma_limits()
    ensures
        side(31) == 0x8000_0000,
        area(31) == 0x4000_0000_0000_0000,
        base(32) == 0x5555_5555_5555_5555,
{
    lemma_side_limit();
    lemma_area_limit();
    lemma_base_limit();
}

/// The id of the first tile above the highest zoom level.
proof fn lemma_base_limit()
    ensures
        base(32) == 0x5555_5555_5555_5555,
{
    assert(area(0) == 1);
    assert(area(1) == 4);
    assert(area(2) == 16);
    assert(area(3) == 64);
    assert(area(4) == 256);
    assert(area(5) == 1024);
    assert(area(6) == 4096);
    assert(area(7) == 16384);
    assert(area(8) == 65536);
    assert(area(9) == 262144);
    assert(area(10) == 1048576);
    assert(area(11) == 4194304);
    assert(area(12) == 16777216);
    assert(area(13) == 67108864);
    assert(area(14) == 268435456);
    assert(area(15) == 1073741824);
    assert(area(16) == 4294967296);
    assert(area(17) == 17179869184);
    assert(area(18) == 68719476736);
    assert(area(19) == 274877906944);
    assert(area(20) == 1099511627776);
    assert(area(21) == 4398046511104);
    assert(area(22) == 17592186044416);
    assert(area(23) == 70368744177664);
    assert(area(24) == 281474976710656);
    assert(area(25) == 1125899906842624);
    assert(area(26) == 4503599627370496);
    assert(area(27) == 18014398509481984);
    assert(area(28) == 72057594037927936);
    assert(area(29) == 288230376151711744);
    assert(area(30) == 1152921504606846976);
    assert(area(31) == 4611686018427387904);
    assert(base(0) == 0);
    assert(base(1) == 1);
    assert(base(2) == 5);
    assert(base(3) == 21);
    assert(base(4) == 85);
    assert(base(5) == 341);
    assert(base(6) == 1365);
    assert(base(7) == 5461);
    assert(base(8) == 21845);
    assert(base(9) == 87381);
    assert(base(10) == 349525);
    assert(base(11) == 1398101);
    assert(base(12) == 5592405);
    assert(base(13) == 22369621);
    assert(base(14) == 89478485);
    assert(base(15) == 357913941);
    assert(base(16) == 1431655765);
    assert(base(17) == 5726623061);
    assert(base(18) == 22906492245);
    assert(base(19) == 91625968981);
    assert(base(20) == 366503875925);
    assert(base(21) == 1466015503701);
    assert(base(22) == 5864062014805);
    assert(base(23) == 23456248059221);
    assert(base(24) == 93824992236885);
    assert(base(25) == 375299968947541);
    assert(base(26) == 1501199875790165);
    assert(base(27) == 6004799503160661);
    assert(base(28) == 24019198012642645);
    assert(base(29) == 96076792050570581);
    assert(base(30) == 384307168202282325);
    assert(base(31) == 1537228672809129301);
    assert(base(32) == 6148914691236517205);
}

/// On the curve of a zoom level every tile has a place of its own, below
/// the number of tiles of the level, and the tile at that place is that
/// tile.
pub proof fn lemma_hilbert_round_trip(k: nat, x: nat, y: nat)
    requires
        x < side(k),
        y < side(k),
    ensures
        hilbert_d(k, x, y) < area(k),
        hilbert_xy(k, hilbert_d(k, x, y)) == (x, y),
    decreases k,
{
    if k > 0 {
        let j = (k - 1) as nat;
        let h = side(j);
        let a = area(j);
        lemma_positive(j);
        let rx: nat = if x >= h {
            1
        } else {
            0
        };
        let ry: nat = if y >= h {
            1
        } else {
            0
        };
        let t = turned(h, (x - rx * h) as nat, (y - ry * h) as nat, rx, ry);
        lemma_hilbert_round_trip(j, t.0, t.1);
        let below = hilbert_d(j, t.0, t.1);
        let q = quadrant(rx, ry);
        let d = q * a + below;
        assert(d == hilbert_d(k, x, y));
        assert(q * a <= 3 * a) by (nonlinear_arith)
            requires
                q <= 3,
                a >= 0,
        ;
        lemma_fundamental_div_mod_converse(d as int, a as int, q as int, below as int);
        assert(quadrant_at(q) == (rx, ry));
        let back = turned(h, t.0, t.1, rx, ry);
        assert(back == ((x - rx * h) as nat, (y - ry * h) as nat));
    }
}

/// At every place below the number of tiles of a zoom level stands a tile
/// of that level, and its place is that place.
pub proof fn lemma_hilbert_round_trip_back(k: nat, d: nat)
    requires
        d < area(k),
    ensures
        hilbert_xy(k, d).0 < side(k),
        hilbert_xy(k, d).1 < side(k),
        hilbert_d(k, hilbert_xy(k, d).0, hilbert_xy(k, d).1) == d,
    decreases k,
{
    if k > 0 {
        let j = (k - 1) as nat;
        let h = side(j);
        let a = area(j);
        lemma_positive(j);
        let q = d / a;
        let rem = d % a;
        lemma_fundamental_div_mod(d as int, a as int);
        assert(0 <= rem < a);
        assert(q <= 3) by (nonlinear_arith)
            requires
                d < 4 * a,
                d == a * q + rem,
                rem >= 0,
                a >= 1,
                q >= 0,
        ;
        let r = quadrant_at(q);
        lemma_hilbert_round_trip_back(j, rem);
        let below = hilbert_xy(j, rem);
        let t = turned(h, below.0, below.1, r.0, r.1);
        let x = t.0 + r.0 * h;
        let y = t.1 + r.1 * h;
        assert(r.0 * h == if r.0 == 0 { 0 } else { h }) by (nonlinear_arith)
            requires
                r.0 == 0 || r.0 == 1,
        ;
        assert(r.1 * h == if r.1 == 0 { 0 } else { h }) by (nonlinear_arith)
            requires
                r.1 == 0 || r.1 == 1,
        ;
        assert(quadrant(r.0, r.1) == q);
        let back = turned(h, t.0, t.1, r.0, r.1);
        assert(back == below);
        assert(q * a == a * q) by (nonlinear_arith);
    }
}

/// Tiles differ in their ids: of two tiles with the same id, one is the
/// other. So the tile that `id_to_zxy` finds for the id of a tile is that
/// tile.
pub proof fn lemma_tile_ids_differ(z1: nat, x1: nat, y1: nat, z2: nat, x2: nat, y2: nat)
    requires
        x1 < side(z1),
        y1 < side(z1),
        x2 < side(z2),
        y2 < side(z2),
        tile_id(z1, x1, y1) == tile_id(z2, x2, y2),
    ensures
        z1 == z2,
        x1 == x2,
        y1 == y2,
{
    lemma_hilbert_round_trip(z1, x1, y1);
    lemma_hilbert_round_trip(z2, x2, y2);
    if z1 < z2 {
        lemma_monotonic(z1 + 1, z2);
    }
    if z2 < z1 {
        lemma_monotonic(z2 + 1, z1);
    }
}

/// The number of tiles along one side of the zoom level `z`.
pub fn side_of(z: u8) -> (s: u64)
    requires
        z <= MAX_TILE_ZOOM,
    ensures
        s == side(z as nat),
        s <= 0x8000_0000,
{
    let mut s: u64 = 1;
    let mut k: u8 = 0;
    proof {
        lemma_limits();
    }
    while k < z
        invariant
            k <= z <= 31,
            s == side(k as nat),
            side(31) == 0x8000_0000,
        decreases z - k,
    {
        proof {
            lemma_monotonic((k + 1) as nat, 31);
        }
        s = s * 2;
        k += 1;
    }
    proof {
        lemma_monotonic(z as nat, 31);
    }
    s
}

/// The number of tiles of the zoom level `z`.
pub fn area_of(z: u8) -> (a: u64)
    requires
        z <= MAX_TILE_ZOOM,
    ensures
        a == area(z as nat),
        a <= 0x4000_0000_0000_0000,
{
    let mut a: u64 = 1;
    let mut k: u8 = 0;
    proof {
        lemma_limits();
    }
    while k < z
        invariant
            k <= z <= 31,
            a == area(k as nat),
            area(31) == 0x4000_0000_0000_0000,
        decreases z - k,
    {
        proof {
            lemma_monotonic((k + 1) as nat, 31);
        }
        a = a * 4;
        k += 1;
    }
    proof {
        lemma_monotonic(z as nat, 31);
    }
    a
}

/// The id of the first tile of the zoom level `z`.
pub fn base_of(z: u8) -> (b: u64)
    requires
        z <= MAX_TILE_ZOOM + 1,
    ensures
        b == base(z as nat),
        b <= 0x5555_5555_5555_5555,
{
    let mut b: u64 = 0;
    let mut k: u8 = 0;
    proof {
        lemma_limits();
    }
    while k < z
        invariant
            k <= z <= 32,
            b == base(k as nat),
            base(32) == 0x5555_5555_5555_5555,
        decreases z - k,
    {
        proof {
            lemma_monotonic((k + 1) as nat, 32);
        }
        b = b + area_of(k);
        k += 1;
    }
    proof {
        lemma_monotonic(z as nat, 32);
    }
    b
}

/// The place of the tile `(x, y)` on the Hilbert curve of the zoom level
/// `z`.
pub fn hilbert_index(z: u8, x: u64, y: u64) -> (d: u64)
    requires
        z <= MAX_TILE_ZOOM,
        x < side(z as nat),
        y < side(z as nat),
    ensures
        d == hilbert_d(z as nat, x as nat, y as nat),
        d < area(z as nat),
    decreases z,
{
    proof {
        lemma_hilbert_round_trip(z as nat, x as nat, y as nat);
    }
    if z == 0 {
        return 0;
    }
    let h = side_of(z - 1);
    let a = area_of(z - 1);
    let (rx, x) = if x >= h {
        (1u8, x - h)
    } else {
        (0u8, x)
    };
    let (ry, y) = if y >= h {
        (1u8, y - h)
    } else {
        (0u8, y)
    };
    let (tx, ty) = if ry == 0 {
        if rx == 1 {
            (h - 1 - y, h - 1 - x)
        } else {
            (y, x)
        }
    } else {
        (x, y)
    };
    proof {
        lemma_hilbert_round_trip((z - 1) as nat, tx as nat, ty as nat);
        lemma_limits();
        lemma_monotonic(z as nat, 31);
    }
    let below = hilbert_index(z - 1, tx, ty);
    let start = if rx == 0 {
        if ry == 0 {
            0
        } else {
            a
        }
    } else {
        if ry == 0 {
            a + a + a
        } else {
            a + a
        }
    };
    assert(start == quadrant(rx as nat, ry as nat) * area((z - 1) as nat)) by (nonlinear_arith)
        requires
            a == area((z - 1) as nat),
            start == (if rx == 0 {
                if ry == 0 {
                    0
                } else {
                    a as int
                }
            } else {
                if ry == 0 {
                    3 * a
                } else {
                    2 * a
                }
            }),
            rx == 0 || rx == 1,
            ry == 0 || ry == 1,
    ;
    start + below
}

/// The tile at the place `d` on the Hilbert curve of the zoom level `z`.
pub fn hilbert_position(z: u8, d: u64) -> (r: (u64, u64))
    requires
        z <= MAX_TILE_ZOOM,
        d < area(z as nat),
    ensures
        (r.0 as nat, r.1 as nat) == hilbert_xy(z as nat, d as nat),
        r.0 < side(z as nat),
        r.1 < side(z as nat),
    decreases z,
{
    proof {
        lemma_hilbert_round_trip_back(z as nat, d as nat);
    }
    if z == 0 {
        return (0, 0);
    }
    let h = side_of(z - 1);
    let a = area_of(z - 1);
    proof {
        lemma_positive((z - 1) as nat);
        lemma_fundamental_div_mod(d as int, a as int);
    }
    let q = d / a;
    let rem = d % a;
    proof {
        lemma_hilbert_round_trip_back((z - 1) as nat, rem as nat);
    }
    let (tx, ty) = hilbert_position(z - 1, rem);
    let (rx, ry) = if q == 0 {
        (0u8, 0u8)
    } else if q == 1 {
        (0u8, 1u8)
    } else if q == 2 {
        (1u8, 1u8)
    } else {
        (1u8, 0u8)
    };
    let (x, y) = if ry == 0 {
        if rx == 1 {
            (h - 1 - ty, h - 1 - tx)
        } else {
            (ty, tx)
        }
    } else {
        (tx, ty)
    };
    let x = if rx == 1 {
        x + h
    } else {
        x
    };
    let y = if ry == 1 {
        y + h
    } else {
        y
    };
    proof {
        let r = quadrant_at(q as nat);
        assert(r == (rx as nat, ry as nat));
        assert(r.0 * (h as nat) == if r.0 == 0 { 0 } else { h as nat }) by (nonlinear_arith)
            requires
                r.0 == 0 || r.0 == 1,
        ;
        assert(r.1 * (h as nat) == if r.1 == 0 { 0 } else { h as nat }) by (nonlinear_arith)
            requires
                r.1 == 0 || r.1 == 1,
        ;
    }
    (x, y)
}

/// The id of the tile `(x, y)` of the zoom level `z`.
pub fn zxy_to_id(z: u8, x: u32, y: u32) -> (id: u64)
    requires
        z <= MAX_TILE_ZOOM,
        x < side(z as nat),
        y < side(z as nat),
    ensures
        id == tile_id(z as nat, x as nat, y as nat),
        base(z as nat) <= id < base((z + 1) as nat),
{
    let b = base_of(z);
    let d = hilbert_index(z, x as u64, y as u64);
    proof {
        lemma_limits();
        lemma_monotonic((z + 1) as nat, 32);
    }
    b + d
}

/// The tile with the id `id`, as its zoom level, column and row; `None`
/// for a number above the ids of the highest zoom level.
pub fn id_to_zxy(id: u64) -> (r: Option<(u8, u32, u32)>)
    ensures
        r is Some == (id < base(32)),
        r matches Some(t) ==> {
            &&& t.0 <= MAX_TILE_ZOOM
            &&& t.1 < side(t.0 as nat)
            &&& t.2 < side(t.0 as nat)
            &&& tile_id(t.0 as nat, t.1 as nat, t.2 as nat) == id
        },
{
    proof {
        lemma_limits();
    }
    if id >= base_of(32) {
        return None;
    }
    let mut z: u8 = 0;
    let mut b: u64 = 0;
    let mut a: u64 = 1;
    while id - b >= a
        invariant
            z <= 31,
            b == base(z as nat),
            a == area(z as nat),
            b <= id < base(32),
            base(32) == 0x5555_5555_5555_5555,
        decreases 32 - z,
    {
        proof {
            if z == 31 {
                assert(base(32) == base(31) + area(31));
            }
            lemma_monotonic((z + 2) as nat, 32);
            lemma_positive((z + 1) as nat);
        }
        b = b + a;
        a = a * 4;
        z += 1;
    }
    let d = id - b;
    let (x, y) = hilbert_position(z, d);
    proof {
        lemma_monotonic(z as nat, 31);
        lemma_hilbert_round_trip_back(z as nat, d as nat);
        assert(hilbert_xy(z as nat, d as nat) == (x as nat, y as nat));
        assert(side(31) == 0x8000_0000);
    }
    Some((z, x as u32, y as u32))
}

} // verus!
