//! Rasterizer geometry: texture coordinates and triangle indices of the
//! subdivided quad of each visible cell. Texture coordinates are exact
//! rationals over the subdivision count; the library emits their numerators
//! in texel units, with `1 + num_subdivision(depth)` as the common
//! denominator, and the sink divides once when it fills its float buffers.

use vstd::prelude::*;
use crate::config::HiPSConfig;

verus! {

/// One corner of a tile's rectangle in the texture atlas, in texel units;
/// `z` is the atlas slice the tile lives on.
#[derive(Clone, Copy, PartialEq, Eq, Structural, Debug)]
pub struct TileCornerUV {
    pub x: u64,
    pub y: u64,
    pub z: u64,
}

/// The texture rectangle of one atlas slot: bottom-left origin, bottom-right
/// and top-left corners (the fourth corner is implied).
#[derive(Clone, Copy, PartialEq, Eq, Structural, Debug)]
pub struct TileUVW {
    pub bottom_left: TileCornerUV,
    pub bottom_right: TileCornerUV,
    pub top_left: TileCornerUV,
}

impl TileUVW {
    /// A rectangle of bounded texel coordinates, axis-aligned as the
    /// interpolation assumes.
    pub open spec fn well_formed(self) -> bool {
        &&& self.bottom_left.x <= self.bottom_right.x <= 0x100_0000
        &&& self.bottom_left.y <= self.top_left.y <= 0x100_0000
        &&& self.bottom_right.y == self.bottom_left.y
        &&& self.top_left.x == self.bottom_left.x
        &&& self.bottom_left.z == self.bottom_right.z == self.top_left.z
        &&& self.bottom_left.z <= 0x100_0000
    }
}

/// Where slot `i` sits in the square atlas: column `i % side`, row
/// `(i / side) % side`, slice `i / side^2`, each cell `tile_size` texels.
pub open spec fn spec_tile_uvw(i: int, side: int, ts: int) -> TileUVW {
    let x0 = (i % side) * ts;
    let y0 = ((i / side) % side) * ts;
    let z = i / (side * side);
    TileUVW {
        bottom_left: TileCornerUV { x: x0 as u64, y: y0 as u64, z: z as u64 },
        bottom_right: TileCornerUV { x: (x0 + ts) as u64, y: y0 as u64, z: z as u64 },
        top_left: TileCornerUV { x: x0 as u64, y: (y0 + ts) as u64, z: z as u64 },
    }
}

/// The texture rectangle of an atlas slot.
pub fn tile_uvw(slot: usize, config: &HiPSConfig) -> (r: TileUVW)
    requires
        config.well_formed(),
        slot < config.capacity,
    ensures
        r == spec_tile_uvw(slot as int, config.atlas_side as int, config.tile_size as int),
        r.well_formed(),
{
    let side = config.atlas_side as u64;
    let ts = config.tile_size as u64;
    let i = slot as u64;
    proof {
        assert(i % side < side) by (nonlinear_arith)
            requires
                side > 0,
        ;
        assert((i / side) % side < side) by (nonlinear_arith)
            requires
                side > 0,
        ;
        assert((i % side) * ts <= (side - 1) * ts) by (nonlinear_arith)
            requires
                i % side <= side - 1,
                ts >= 0,
        ;
        assert(((i / side) % side) * ts <= (side - 1) * ts) by (nonlinear_arith)
            requires
                (i / side) % side <= side - 1,
                ts >= 0,
        ;
        assert((side - 1) * ts + ts == side * ts) by (nonlinear_arith);
        assert(side * ts <= 0x100 * 0x10000) by (nonlinear_arith)
            requires
                side <= 0x100,
                ts <= 0x10000,
        ;
        assert(side as int * side as int >= 1 && side as int * side as int <= 0x10000)
            by (nonlinear_arith)
            requires
                1 <= side <= 0x100,
        ;
        assert(i as int / (side as int * side as int) <= i as int) by (nonlinear_arith)
            requires
                side as int * side as int >= 1,
                i >= 0,
        ;
    }
    let x0 = (i % side) * ts;
    let y0 = ((i / side) % side) * ts;
    let z = i / (side * side);
    TileUVW {
        bottom_left: TileCornerUV { x: x0, y: y0, z },
        bottom_right: TileCornerUV { x: x0 + ts, y: y0, z },
        top_left: TileCornerUV { x: x0, y: y0 + ts, z },
    }
}

/// Row-major order: an earlier grid position has a smaller flat index.
proof fn lemma_lex_index(ii: int, jj: int, i: int, j: int, nv: int)
    requires
        0 <= ii,
        0 <= jj < nv,
        0 <= i,
        0 <= j,
        ii < i || (ii == i && jj < j),
    ensures
        ii * nv + jj < i * nv + j,
{
    if ii < i {
        assert(ii * nv + nv <= i * nv) by (nonlinear_arith)
            requires
                ii + 1 <= i,
                nv >= 0,
        ;
    }
}

/// The numerator of texture component `comp` (0 horizontal, 1 vertical,
/// 2 slice) at grid position `(i, j)`, over the denominator
/// `1 + num_subdivision`: the bilinear interpolation of the rectangle's
/// corners at the fraction `(j, i) / (1 + num_subdivision)`.
pub open spec fn uv_num(uv: TileUVW, ns: u8, i: int, j: int, comp: int) -> int {
    let nseg = 1 + ns as int;
    if comp == 0 {
        uv.bottom_left.x * nseg + j * (uv.bottom_right.x - uv.bottom_left.x)
    } else if comp == 1 {
        uv.bottom_left.y * nseg + i * (uv.top_left.y - uv.bottom_left.y)
    } else {
        uv.bottom_left.z * nseg
    }
}

/// Appends the per-vertex data of one cell's subdivided quad: for each of
/// the `(2 + ns)^2` grid vertices, the start- and end-texture coordinate
/// numerators, the blend start time, and the two placeholder flags.
#[verifier::rlimit(50)]
#[allow(clippy::too_many_arguments)]
pub fn add_vertices_grid(
    ns: u8,
    uv_start: &mut Vec<u64>,
    uv_end: &mut Vec<u64>,
    time_tile_received: &mut Vec<u64>,
    m0: &mut Vec<bool>,
    m1: &mut Vec<bool>,
    uv_0: &TileUVW,
    uv_1: &TileUVW,
    miss_0: bool,
    miss_1: bool,
    alpha: u64,
)
    requires
        ns <= 5,
        uv_0.well_formed(),
        uv_1.well_formed(),
        old(uv_start)@.len() == 3 * old(time_tile_received)@.len(),
        old(uv_end)@.len() == 3 * old(time_tile_received)@.len(),
        old(m0)@.len() == old(time_tile_received)@.len(),
        old(m1)@.len() == old(time_tile_received)@.len(),
        old(time_tile_received)@.len() <= 0x10_0000,
    ensures
        ({
            let nv = 2 + ns as int;
            let base = old(time_tile_received)@.len() as int;
            &&& final(time_tile_received)@.len() == base + nv * nv
            &&& final(uv_start)@.len() == 3 * (base + nv * nv)
            &&& final(uv_end)@.len() == 3 * (base + nv * nv)
            &&& final(m0)@.len() == base + nv * nv
            &&& final(m1)@.len() == base + nv * nv
            &&& forall|t: int| 0 <= t < 3 * base ==> final(uv_start)@[t] == old(uv_start)@[t]
            &&& forall|t: int| 0 <= t < 3 * base ==> final(uv_end)@[t] == old(uv_end)@[t]
            &&& forall|t: int|
                0 <= t < base ==> final(time_tile_received)@[t] == old(time_tile_received)@[t]
            &&& forall|t: int| 0 <= t < base ==> final(m0)@[t] == old(m0)@[t]
            &&& forall|t: int| 0 <= t < base ==> final(m1)@[t] == old(m1)@[t]
            &&& forall|i: int, j: int, comp: int|
                0 <= i < nv && 0 <= j < nv && 0 <= comp < 3 ==> final(uv_start)@[3 * (base + i
                    * nv + j) + comp] == uv_num(*uv_0, ns, i, j, comp)
            &&& forall|i: int, j: int, comp: int|
                0 <= i < nv && 0 <= j < nv && 0 <= comp < 3 ==> final(uv_end)@[3 * (base + i
                    * nv + j) + comp] == uv_num(*uv_1, ns, i, j, comp)
            &&& forall|v: int|
                base <= v < base + nv * nv ==> final(time_tile_received)@[v] == alpha
            &&& forall|v: int| base <= v < base + nv * nv ==> final(m0)@[v] == miss_0
            &&& forall|v: int| base <= v < base + nv * nv ==> final(m1)@[v] == miss_1
        }),
{
    let nv: u64 = 2 + ns as u64;
    let ghost nvi = nv as int;
    let ghost base = old(time_tile_received)@.len() as int;
    let d01s = uv_0.bottom_right.x - uv_0.bottom_left.x;
    let d02s = uv_0.top_left.y - uv_0.bottom_left.y;
    let d01e = uv_1.bottom_right.x - uv_1.bottom_left.x;
    let d02e = uv_1.top_left.y - uv_1.bottom_left.y;
    let nseg: u64 = 1 + ns as u64;
    let mut i: u64 = 0;
    while i < nv
        invariant
            ns <= 5,
            nv == 2 + ns as u64,
            nvi == nv as int,
            nseg == 1 + ns as u64,
            uv_0.well_formed(),
            uv_1.well_formed(),
            d01s == uv_0.bottom_right.x - uv_0.bottom_left.x,
            d02s == uv_0.top_left.y - uv_0.bottom_left.y,
            d01e == uv_1.bottom_right.x - uv_1.bottom_left.x,
            d02e == uv_1.top_left.y - uv_1.bottom_left.y,
            0 <= i <= nv,
            0 <= base <= 0x10_0000,
            time_tile_received@.len() == base + i * nvi,
            uv_start@.len() == 3 * (base + i * nvi),
            uv_end@.len() == 3 * (base + i * nvi),
            m0@.len() == base + i * nvi,
            m1@.len() == base + i * nvi,
            forall|t: int| 0 <= t < 3 * base ==> uv_start@[t] == old(uv_start)@[t],
            forall|t: int| 0 <= t < 3 * base ==> uv_end@[t] == old(uv_end)@[t],
            forall|t: int|
                0 <= t < base ==> time_tile_received@[t] == old(time_tile_received)@[t],
            forall|t: int| 0 <= t < base ==> m0@[t] == old(m0)@[t],
            forall|t: int| 0 <= t < base ==> m1@[t] == old(m1)@[t],
            forall|ii: int, jj: int, comp: int|
                0 <= ii < i && 0 <= jj < nvi && 0 <= comp < 3 ==> uv_start@[3 * (base + ii * nvi
                    + jj) + comp] == uv_num(*uv_0, ns, ii, jj, comp),
            forall|ii: int, jj: int, comp: int|
                0 <= ii < i && 0 <= jj < nvi && 0 <= comp < 3 ==> uv_end@[3 * (base + ii * nvi
                    + jj) + comp] == uv_num(*uv_1, ns, ii, jj, comp),
            forall|v: int| base <= v < base + i * nvi ==> time_tile_received@[v] == alpha,
            forall|v: int| base <= v < base + i * nvi ==> m0@[v] == miss_0,
            forall|v: int| base <= v < base + i * nvi ==> m1@[v] == miss_1,
        decreases nv - i,
    {
        let mut j: u64 = 0;
        while j < nv
            invariant
                ns <= 5,
                nv == 2 + ns as u64,
                nvi == nv as int,
                nseg == 1 + ns as u64,
                uv_0.well_formed(),
                uv_1.well_formed(),
                d01s == uv_0.bottom_right.x - uv_0.bottom_left.x,
                d02s == uv_0.top_left.y - uv_0.bottom_left.y,
                d01e == uv_1.bottom_right.x - uv_1.bottom_left.x,
                d02e == uv_1.top_left.y - uv_1.bottom_left.y,
                0 <= i < nv,
                0 <= j <= nv,
                0 <= base <= 0x10_0000,
                time_tile_received@.len() == base + i * nvi + j,
                uv_start@.len() == 3 * (base + i * nvi + j),
                uv_end@.len() == 3 * (base + i * nvi + j),
                m0@.len() == base + i * nvi + j,
                m1@.len() == base + i * nvi + j,
                forall|t: int| 0 <= t < 3 * base ==> uv_start@[t] == old(uv_start)@[t],
                forall|t: int| 0 <= t < 3 * base ==> uv_end@[t] == old(uv_end)@[t],
                forall|t: int|
                    0 <= t < base ==> time_tile_received@[t] == old(time_tile_received)@[t],
                forall|t: int| 0 <= t < base ==> m0@[t] == old(m0)@[t],
                forall|t: int| 0 <= t < base ==> m1@[t] == old(m1)@[t],
                forall|ii: int, jj: int, comp: int|
                    0 <= ii < nvi && 0 <= jj < nvi && 0 <= comp < 3 && (ii < i || (ii == i && jj
                        < j)) ==> uv_start@[3 * (base + ii * nvi + jj) + comp] == uv_num(
                        *uv_0,
                        ns,
                        ii,
                        jj,
                        comp,
                    ),
                forall|ii: int, jj: int, comp: int|
                    0 <= ii < nvi && 0 <= jj < nvi && 0 <= comp < 3 && (ii < i || (ii == i && jj
                        < j)) ==> uv_end@[3 * (base + ii * nvi + jj) + comp] == uv_num(
                        *uv_1,
                        ns,
                        ii,
                        jj,
                        comp,
                    ),
                forall|v: int|
                    base <= v < base + i * nvi + j ==> time_tile_received@[v] == alpha,
                forall|v: int| base <= v < base + i * nvi + j ==> m0@[v] == miss_0,
                forall|v: int| base <= v < base + i * nvi + j ==> m1@[v] == miss_1,
            decreases nv - j,
        {
            proof {
                assert(i * nvi <= 7 * 7 && i * nvi >= 0) by (nonlinear_arith)
                    requires
                        0 <= i,
                        i < nvi,
                        nvi <= 7,
                ;
                assert(uv_0.bottom_left.x * nseg <= 0x100_0000 * 7 && uv_0.bottom_left.y * nseg
                    <= 0x100_0000 * 7 && uv_0.bottom_left.z * nseg <= 0x100_0000 * 7
                    && uv_1.bottom_left.x * nseg <= 0x100_0000 * 7 && uv_1.bottom_left.y * nseg
                    <= 0x100_0000 * 7 && uv_1.bottom_left.z * nseg <= 0x100_0000 * 7)
                    by (nonlinear_arith)
                    requires
                        uv_0.bottom_left.x <= 0x100_0000,
                        uv_0.bottom_left.y <= 0x100_0000,
                        uv_0.bottom_left.z <= 0x100_0000,
                        uv_1.bottom_left.x <= 0x100_0000,
                        uv_1.bottom_left.y <= 0x100_0000,
                        uv_1.bottom_left.z <= 0x100_0000,
                        0 <= nseg <= 7,
                ;
                assert(j * d01s <= 7 * 0x100_0000 && j * d01s >= 0 && j * d02s <= 7 * 0x100_0000
                    && j * d02s >= 0 && j * d01e <= 7 * 0x100_0000 && j * d01e >= 0 && j * d02e
                    <= 7 * 0x100_0000 && j * d02e >= 0 && i * d02s <= 7 * 0x100_0000 && i * d02s
                    >= 0 && i * d02e <= 7 * 0x100_0000 && i * d02e >= 0) by (nonlinear_arith)
                    requires
                        0 <= j <= 7,
                        0 <= i <= 7,
                        0 <= d01s <= 0x100_0000,
                        0 <= d02s <= 0x100_0000,
                        0 <= d01e <= 0x100_0000,
                        0 <= d02e <= 0x100_0000,
                ;
            }
            let us0 = uv_0.bottom_left.x * nseg + j * d01s;
            let us1 = uv_0.bottom_left.y * nseg + i * d02s;
            let us2 = uv_0.bottom_left.z * nseg;
            let ue0 = uv_1.bottom_left.x * nseg + j * d01e;
            let ue1 = uv_1.bottom_left.y * nseg + i * d02e;
            let ue2 = uv_1.bottom_left.z * nseg;
            let ghost s0 = uv_start@;
            let ghost e0 = uv_end@;
            let ghost t0 = time_tile_received@;
            let ghost m0g = m0@;
            let ghost m1g = m1@;
            uv_start.push(us0);
            uv_start.push(us1);
            uv_start.push(us2);
            uv_end.push(ue0);
            uv_end.push(ue1);
            uv_end.push(ue2);
            time_tile_received.push(alpha);
            m0.push(miss_0);
            m1.push(miss_1);
            proof {
                let pos = 3 * (base + i as int * nvi + j as int);
                assert forall|t: int| 0 <= t < pos implies uv_start@[t] == s0[t] && uv_end@[t]
                    == e0[t] by {
                    assert(s0.push(us0)[t] == s0[t]);
                    assert(s0.push(us0).push(us1)[t] == s0.push(us0)[t]);
                    assert(s0.push(us0).push(us1).push(us2)[t] == s0.push(us0).push(us1)[t]);
                    assert(e0.push(ue0)[t] == e0[t]);
                    assert(e0.push(ue0).push(ue1)[t] == e0.push(ue0)[t]);
                    assert(e0.push(ue0).push(ue1).push(ue2)[t] == e0.push(ue0).push(ue1)[t]);
                }
                assert(uv_start@[pos + 0] == us0);
                assert(uv_start@[pos + 1] == us1);
                assert(uv_start@[pos + 2] == us2);
                assert(uv_end@[pos + 0] == ue0);
                assert(uv_end@[pos + 1] == ue1);
                assert(uv_end@[pos + 2] == ue2);
                assert(us0 == uv_num(*uv_0, ns, i as int, j as int, 0));
                assert(us1 == uv_num(*uv_0, ns, i as int, j as int, 1));
                assert(us2 == uv_num(*uv_0, ns, i as int, j as int, 2));
                assert(ue0 == uv_num(*uv_1, ns, i as int, j as int, 0));
                assert(ue1 == uv_num(*uv_1, ns, i as int, j as int, 1));
                assert(ue2 == uv_num(*uv_1, ns, i as int, j as int, 2));
                assert forall|v: int| base <= v < base + i as int * nvi + j as int + 1
                    implies time_tile_received@[v] == alpha && m0@[v] == miss_0 && m1@[v]
                    == miss_1 by {
                    if v < base + i as int * nvi + j as int {
                        assert(t0.push(alpha)[v] == t0[v]);
                        assert(m0g.push(miss_0)[v] == m0g[v]);
                        assert(m1g.push(miss_1)[v] == m1g[v]);
                        assert(t0[v] == alpha);
                        assert(m0g[v] == miss_0);
                        assert(m1g[v] == miss_1);
                    } else {
                        assert(v == base + i as int * nvi + j as int);
                        assert(time_tile_received@[v] == alpha);
                        assert(m0@[v] == miss_0);
                        assert(m1@[v] == miss_1);
                    }
                }
                assert forall|t: int| 0 <= t < base implies time_tile_received@[t]
                    == old(time_tile_received)@[t] && m0@[t] == old(m0)@[t] && m1@[t]
                    == old(m1)@[t] by {
                    assert(t0.push(alpha)[t] == t0[t]);
                    assert(m0g.push(miss_0)[t] == m0g[t]);
                    assert(m1g.push(miss_1)[t] == m1g[t]);
                }
                assert forall|ii: int, jj: int, comp: int|
                    0 <= ii < nvi && 0 <= jj < nvi && 0 <= comp < 3 && (ii < i || (ii == i && jj
                        < j + 1)) implies uv_start@[3 * (base + ii * nvi + jj) + comp] == uv_num(
                    *uv_0,
                    ns,
                    ii,
                    jj,
                    comp,
                ) && uv_end@[3 * (base + ii * nvi + jj) + comp] == uv_num(
                    *uv_1,
                    ns,
                    ii,
                    jj,
                    comp,
                ) by {
                    if ii < i || (ii == i && jj < j) {
                        lemma_lex_index(ii, jj, i as int, j as int, nvi);
                        let w = 3 * (base + ii * nvi + jj) + comp;
                        assert(w < pos);
                        assert(uv_start@[w] == s0[w]);
                        assert(uv_end@[w] == e0[w]);
                        assert(s0[w] == uv_num(*uv_0, ns, ii, jj, comp));
                        assert(e0[w] == uv_num(*uv_1, ns, ii, jj, comp));
                    } else {
                        assert(ii == i && jj == j);
                        if comp == 0 {
                            assert(uv_start@[pos + 0] == us0);
                        } else if comp == 1 {
                            assert(uv_start@[pos + 1] == us1);
                        } else {
                            assert(uv_start@[pos + 2] == us2);
                        }
                    }
                }
            }
            j = j + 1;
        }
        i = i + 1;
        proof {
            assert(i * nvi == (i - 1) * nvi + nvi) by (nonlinear_arith);
        }
    }
    proof {
        assert(nvi == nv as int);
        assert(nvi * nvi == nv as int * nvi);
    }
}

/// Greatest number of cells one rasterized frame draws.
pub const MAX_NUM_CELLS_TO_DRAW: usize = 768;

/// The six vertex indices of quad `(i, j)` of a cell's grid, two triangles,
/// as offsets into the cell's `(2 + ns)^2` grid vertices.
pub open spec fn quad_index(ns: u8, i: int, j: int, t: int) -> int {
    let nv = 2 + ns as int;
    if t == 0 {
        j + i * nv
    } else if t == 1 {
        j + 1 + i * nv
    } else if t == 2 {
        j + (i + 1) * nv
    } else if t == 3 {
        j + 1 + i * nv
    } else if t == 4 {
        j + 1 + (i + 1) * nv
    } else {
        j + (i + 1) * nv
    }
}

/// Appends the triangle indices of one cell's subdivided quad, offset by
/// the vertices of the cells already emitted: `6 (1 + ns)^2` entries.
pub fn add_grid_indices(idx_vertices: &mut Vec<u16>, ns: u8, off_idx_vertices: u16)
    requires
        ns <= 5,
        off_idx_vertices as int + (2 + ns as int) * (2 + ns as int) <= 0x1_0000,
    ensures
        ({
            let nseg = 1 + ns as int;
            let base = old(idx_vertices)@.len() as int;
            &&& final(idx_vertices)@.len() == base + 6 * nseg * nseg
            &&& forall|t: int| 0 <= t < base ==> final(idx_vertices)@[t] == old(idx_vertices)@[t]
            &&& forall|i: int, j: int, t: int|
                0 <= i < nseg && 0 <= j < nseg && 0 <= t < 6 ==> final(idx_vertices)@[base + 6 * (
                i * nseg + j) + t] == off_idx_vertices + quad_index(ns, i, j, t)
        }),
{
    let nseg: u16 = 1 + ns as u16;
    let nv: u16 = 2 + ns as u16;
    let ghost nsi = nseg as int;
    let ghost base = old(idx_vertices)@.len() as int;
    let mut i: u16 = 0;
    while i < nseg
        invariant
            ns <= 5,
            nseg == 1 + ns as u16,
            nv == 2 + ns as u16,
            nsi == nseg as int,
            off_idx_vertices as int + (nv as int) * (nv as int) <= 0x1_0000,
            0 <= i <= nseg,
            0 <= base,
            idx_vertices@.len() == base + 6 * (i as int * nsi),
            forall|t: int| 0 <= t < base ==> idx_vertices@[t] == old(idx_vertices)@[t],
            forall|ii: int, jj: int, t: int|
                0 <= ii < i && 0 <= jj < nsi && 0 <= t < 6 ==> idx_vertices@[base + 6 * (ii * nsi
                    + jj) + t] == off_idx_vertices + quad_index(ns, ii, jj, t),
        decreases nseg - i,
    {
        let mut j: u16 = 0;
        while j < nseg
            invariant
                ns <= 5,
                nseg == 1 + ns as u16,
                nv == 2 + ns as u16,
                nsi == nseg as int,
                off_idx_vertices as int + (nv as int) * (nv as int) <= 0x1_0000,
                0 <= i < nseg,
                0 <= j <= nseg,
                0 <= base,
                idx_vertices@.len() == base + 6 * (i as int * nsi + j as int),
                forall|t: int| 0 <= t < base ==> idx_vertices@[t] == old(idx_vertices)@[t],
                forall|ii: int, jj: int, t: int|
                    0 <= ii < nsi && 0 <= jj < nsi && 0 <= t < 6 && (ii < i || (ii == i && jj
                        < j)) ==> idx_vertices@[base + 6 * (ii * nsi + jj) + t]
                        == off_idx_vertices + quad_index(ns, ii, jj, t),
            decreases nseg - j,
        {
            proof {
                assert(i as int * nsi <= 6 * 6 && i as int * nsi >= 0) by (nonlinear_arith)
                    requires
                        0 <= i as int,
                        (i as int) < nsi,
                        nsi <= 6,
                ;
                assert((i as int + 1) * (nv as int) <= (nv as int - 1) * (nv as int)
                    && (nv as int - 1) * (nv as int) + nv as int == (nv as int) * (nv as int)
                    && (i as int + 1) * (nv as int) == i as int * (nv as int) + nv as int
                    && (nv as int) * (nv as int) <= 49) by (nonlinear_arith)
                    requires
                        0 <= i as int + 1,
                        i as int + 1 <= nv as int - 1,
                        2 <= nv as int <= 7,
                ;
                assert(i as int * (nv as int) <= 6 * 7 && i as int * (nv as int) >= 0)
                    by (nonlinear_arith)
                    requires
                        0 <= i as int,
                        i as int <= 6,
                        0 <= nv as int,
                        nv as int <= 7,
                ;
            }
            let idx_0 = j + i * nv;
            let idx_1 = j + 1 + i * nv;
            let idx_2 = j + (i + 1) * nv;
            let idx_3 = j + 1 + (i + 1) * nv;
            let ghost v0 = idx_vertices@;
            idx_vertices.push(off_idx_vertices + idx_0);
            idx_vertices.push(off_idx_vertices + idx_1);
            idx_vertices.push(off_idx_vertices + idx_2);
            idx_vertices.push(off_idx_vertices + idx_1);
            idx_vertices.push(off_idx_vertices + idx_3);
            idx_vertices.push(off_idx_vertices + idx_2);
            proof {
                let pos = base + 6 * (i as int * nsi + j as int);
                let a0 = (off_idx_vertices + idx_0) as u16;
                let a1 = (off_idx_vertices + idx_1) as u16;
                let a2 = (off_idx_vertices + idx_2) as u16;
                let a3 = (off_idx_vertices + idx_3) as u16;
                let p1 = v0.push(a0);
                let p2 = p1.push(a1);
                let p3 = p2.push(a2);
                let p4 = p3.push(a1);
                let p5 = p4.push(a3);
                assert forall|t: int| 0 <= t < pos implies idx_vertices@[t] == v0[t] by {
                    assert(p1[t] == v0[t]);
                    assert(p2[t] == p1[t]);
                    assert(p3[t] == p2[t]);
                    assert(p4[t] == p3[t]);
                    assert(p5[t] == p4[t]);
                    assert(p5.push(a2)[t] == p5[t]);
                }
                assert(idx_vertices@[pos + 0] == a0);
                assert(idx_vertices@[pos + 1] == a1);
                assert(idx_vertices@[pos + 2] == a2);
                assert(idx_vertices@[pos + 3] == a1);
                assert(idx_vertices@[pos + 4] == a3);
                assert(idx_vertices@[pos + 5] == a2);
                assert forall|ii: int, jj: int, t: int|
                    0 <= ii < nsi && 0 <= jj < nsi && 0 <= t < 6 && (ii < i || (ii == i && jj < j
                        + 1)) implies idx_vertices@[base + 6 * (ii * nsi + jj) + t]
                    == off_idx_vertices + quad_index(ns, ii, jj, t) by {
                    if ii < i || (ii == i && jj < j) {
                        lemma_lex_index(ii, jj, i as int, j as int, nsi);
                        let w = base + 6 * (ii * nsi + jj) + t;
                        assert(w < pos);
                        assert(idx_vertices@[w] == v0[w]);
                        assert(v0[w] == off_idx_vertices + quad_index(ns, ii, jj, t));
                    } else {
                        assert(ii == i && jj == j);
                        if t == 0 {
                            assert(idx_vertices@[pos + 0] == a0);
                        } else if t == 1 {
                            assert(idx_vertices@[pos + 1] == a1);
                        } else if t == 2 {
                            assert(idx_vertices@[pos + 2] == a2);
                        } else if t == 3 {
                            assert(idx_vertices@[pos + 3] == a1);
                        } else if t == 4 {
                            assert(idx_vertices@[pos + 4] == a3);
                        } else {
                            assert(idx_vertices@[pos + 5] == a2);
                        }
                    }
                }
            }
            j = j + 1;
        }
        i = i + 1;
        proof {
            assert(i as int * nsi == (i as int - 1) * nsi + nsi) by (nonlinear_arith);
        }
    }
    proof {
        assert(nsi == nseg as int);
        assert(6 * (nseg as int * nsi) == 6 * nsi * nsi) by (nonlinear_arith)
            requires
                nsi == nseg as int,
        ;
    }
}

} // verus!
