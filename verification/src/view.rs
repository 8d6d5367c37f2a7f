//! Viewport cell set: which tessellation cells the camera sees, at which
//! depth, and whether that set changed since the last frame. The camera
//! hands the library a plain-value frame: the screen extent of a base cell
//! (from which the depth follows) and the sky region in view, as sorted
//! disjoint intervals of deepest-depth cell indices. Projection arithmetic
//! producing that frame stays outside the library.

use vstd::prelude::*;
use vstd::arithmetic::power2::pow2;
use crate::cell::HEALPixCell;
use crate::cell::MAX_TESS_DEPTH;
use crate::cell::n_cells;
use crate::cell::pow4;
use crate::cell::lemma_pow4_adds;
use crate::cell::lemma_pow4_monotone;
use crate::cell::lemma_pow4_pos;
use crate::cell::lemma_pow4_29;

verus! {

/// What the user is doing to the camera; decides the blend rule of the
/// level-of-detail selector.
#[derive(Clone, Copy, PartialEq, Eq, Structural, Debug)]
pub enum UserAction {
    Moving,
    Zooming,
    Unzooming,
}

/// A half-open interval `[start, end)` of cell indices at the deepest
/// tessellation depth.
#[derive(Clone, Copy, PartialEq, Eq, Structural, Debug)]
pub struct CellRange {
    pub start: u64,
    pub end: u64,
}

/// The camera state the viewport logic reads, one snapshot per frame: the
/// number of screen pixels a base-cell edge spans, the sky region in view as
/// a sorted disjoint coverage of deepest-depth cell indices, and the user's
/// current motion.
#[derive(Clone, Debug)]
pub struct CameraFrame {
    pub base_cell_px: u64,
    pub coverage: Vec<CellRange>,
    pub user_action: UserAction,
}

/// Intervals are nonempty, within the tessellation, sorted and disjoint.
pub open spec fn coverage_well_formed(ranges: Seq<CellRange>) -> bool {
    &&& forall|i: int|
        0 <= i < ranges.len() ==> (#[trigger] ranges[i]).start < ranges[i].end && (
        ranges[i].end as nat) <= n_cells(29)
    &&& forall|i: int|
        0 <= i && i + 1 < ranges.len() ==> (#[trigger] ranges[i]).end <= ranges[i + 1].start
}

impl CameraFrame {
    pub open spec fn well_formed(self) -> bool {
        coverage_well_formed(self.coverage@)
    }
}

/// How many deepest-depth cells one cell of the given depth spans.
pub open spec fn scale_at(depth: nat) -> nat {
    pow4((29 - depth) as nat)
}

/// The interval touches the deepest-depth descendants of cell `idx` of the
/// given depth.
pub open spec fn range_covers(r: CellRange, depth: nat, idx: nat) -> bool {
    (r.start as nat) < (idx + 1) * scale_at(depth) && idx * scale_at(depth) < (r.end as nat)
}

/// Cell `idx` of the given depth intersects one of the first `n` intervals.
pub open spec fn covered_prefix(ranges: Seq<CellRange>, depth: nat, idx: nat, n: int) -> bool {
    exists|j: int| 0 <= j < n && range_covers(#[trigger] ranges[j], depth, idx)
}

/// Cell `idx` of the given depth intersects the covered sky region.
pub open spec fn covered(ranges: Seq<CellRange>, depth: nat, idx: nat) -> bool {
    covered_prefix(ranges, depth, idx, ranges.len() as int)
}

/// A well-formed cell list of one depth, strictly sorted by index.
pub open spec fn cell_list_sorted(s: Seq<HEALPixCell>, depth: u8) -> bool {
    &&& forall|i: int|
        0 <= i < s.len() ==> (#[trigger] s[i]).depth == depth && s[i].well_formed()
    &&& forall|i: int, j: int| 0 <= i < j < s.len() ==> s[i].idx < s[j].idx
}

/// Some member of the list has index `x`.
pub open spec fn list_has_idx(s: Seq<HEALPixCell>, x: u64) -> bool {
    exists|i: int| 0 <= i < s.len() && (#[trigger] s[i]).idx == x
}

proof fn lemma_div_bounds(x: nat, d: nat)
    requires
        d > 0,
    ensures
        d * (x / d) <= x < d * (x / d) + d,
{
    vstd::arithmetic::div_mod::lemma_fundamental_div_mod(x as int, d as int);
    vstd::arithmetic::div_mod::lemma_mod_bound(x as int, d as int);
}

/// Division is monotone in the numerator.
proof fn lemma_div_ordered(x: nat, y: nat, d: nat)
    requires
        x <= y,
        d > 0,
    ensures
        x / d <= y / d,
{
    vstd::arithmetic::div_mod::lemma_div_is_ordered(x as int, y as int, d as int);
}

/// A cell index lies between the quotient bounds of a nonempty interval
/// exactly when the interval touches the cell's span of `d` units.
proof fn lemma_between_iff(a: nat, b: nat, d: nat, idx: nat)
    requires
        d > 0,
        a < b,
    ensures
        (a / d <= idx && idx <= ((b - 1) as nat) / d) <==> (a < (idx + 1) * d && idx * d < b),
{
    lemma_div_bounds(a, d);
    lemma_div_bounds((b - 1) as nat, d);
    if a / d <= idx {
        assert(d * (a / d) + d <= d * idx + d) by (nonlinear_arith)
            requires
                a / d <= idx,
                d > 0,
        ;
        assert(d * idx + d == (idx + 1) * d) by (nonlinear_arith);
    }
    if a < (idx + 1) * d && a / d > idx {
        assert(d * (a / d) >= d * (idx + 1)) by (nonlinear_arith)
            requires
                a / d >= idx + 1,
                d > 0,
        ;
        assert(d * (idx + 1) == (idx + 1) * d) by (nonlinear_arith);
        assert(false);
    }
    if idx <= ((b - 1) as nat) / d {
        assert(d * idx <= d * ((b - 1) as nat / d)) by (nonlinear_arith)
            requires
                idx <= (b - 1) as nat / d,
                d > 0,
        ;
        assert(d * idx == idx * d) by (nonlinear_arith);
    }
    if idx * d < b && idx > ((b - 1) as nat) / d {
        assert(d * idx >= d * ((b - 1) as nat / d + 1)) by (nonlinear_arith)
            requires
                idx >= (b - 1) as nat / d + 1,
                d > 0,
        ;
        assert(d * ((b - 1) as nat / d + 1) == d * ((b - 1) as nat / d) + d) by (nonlinear_arith);
        assert(d * idx == idx * d) by (nonlinear_arith);
        assert(false);
    }
}

/// Sorted disjoint adjacent intervals are sorted globally.
proof fn lemma_ranges_sorted(ranges: Seq<CellRange>, i: int, j: int)
    requires
        coverage_well_formed(ranges),
        0 <= i < j < ranges.len(),
    ensures
        ranges[i].end <= ranges[j].start,
    decreases j - i,
{
    if i + 1 < j {
        lemma_ranges_sorted(ranges, i + 1, j);
    }
}

/// A covered cell index lies inside the tessellation depth's index range.
proof fn lemma_covered_in_bounds(ranges: Seq<CellRange>, depth: nat, idx: nat)
    requires
        coverage_well_formed(ranges),
        depth <= 29,
        covered(ranges, depth, idx),
    ensures
        idx < n_cells(depth),
{
    let j = choose|j: int| 0 <= j < ranges.len() && range_covers(ranges[j], depth, idx);
    let d = scale_at(depth);
    lemma_pow4_pos((29 - depth) as nat);
    lemma_pow4_adds(depth, (29 - depth) as nat);
    assert(n_cells(29) == 12 * (pow4(depth) * pow4((29 - depth) as nat)));
    assert(12 * (pow4(depth) * d) == (12 * pow4(depth)) * d) by (nonlinear_arith);
    assert(idx * d < n_cells(depth) * d);
    assert(idx < n_cells(depth)) by (nonlinear_arith)
        requires
            idx * d < n_cells(depth) * d,
            d > 0,
    ;
}

fn pow4_u64(n: u8) -> (r: u64)
    requires
        n <= MAX_TESS_DEPTH,
    ensures
        r as nat == pow4(n as nat),
        r >= 1,
{
    let mut i: u8 = 0;
    let mut acc: u64 = 1;
    while i < n
        invariant
            i <= n <= 29,
            acc as nat == pow4(i as nat),
        decreases n - i,
    {
        proof {
            lemma_pow4_monotone(i as nat, 28);
            lemma_pow4_29();
            assert(pow4(29) == 4 * pow4(28));
        }
        acc = acc * 4;
        i = i + 1;
    }
    proof {
        lemma_pow4_pos(n as nat);
    }
    acc
}

/// The cells of the given depth whose deepest-depth descendants intersect
/// the covered region, in strictly increasing index order: exactly the
/// cells in view.
pub fn cells_in_coverage(depth: u8, coverage: &Vec<CellRange>) -> (r: Vec<HEALPixCell>)
    requires
        depth <= MAX_TESS_DEPTH,
        coverage_well_formed(coverage@),
    ensures
        cell_list_sorted(r@, depth),
        forall|x: u64| list_has_idx(r@, x) == covered(coverage@, depth as nat, x as nat),
{
    let ghost dn = depth as nat;
    let scale = pow4_u64(MAX_TESS_DEPTH - depth);
    proof {
        lemma_pow4_29();
        lemma_pow4_adds(dn, (29 - dn) as nat);
    }
    let mut out: Vec<HEALPixCell> = Vec::new();
    let n = coverage.len();
    let mut i: usize = 0;
    while i < n
        invariant
            n == coverage@.len(),
            i <= n,
            depth <= 29,
            dn == depth as nat,
            scale as nat == scale_at(dn),
            scale >= 1,
            coverage_well_formed(coverage@),
            cell_list_sorted(out@, depth),
            forall|x: u64|
                list_has_idx(out@, x) == covered_prefix(coverage@, dn, x as nat, i as int),
            i == 0 ==> out@.len() == 0,
            i > 0 ==> out@.len() > 0 && out@.last().idx as nat == ((coverage@[i - 1].end
                - 1) as nat) / (scale as nat),
        decreases n - i,
    {
        let rg = coverage[i];
        let lo = rg.start / scale;
        let hi = (rg.end - 1) / scale;
        proof {
            // hi stays below the cell count of the depth
            lemma_between_iff(rg.start as nat, rg.end as nat, scale as nat, hi as nat);
            assert(range_covers(coverage@[i as int], dn, hi as nat)) by {
                lemma_div_ordered(rg.start as nat, (rg.end - 1) as nat, scale as nat);
            }
            assert(covered(coverage@, dn, hi as nat)) by {
                assert(range_covers(coverage@[i as int], dn, hi as nat));
            }
            lemma_covered_in_bounds(coverage@, dn, hi as nat);
        }
        let mut k = lo;
        if out.len() > 0 {
            let lastidx = out[out.len() - 1].idx;
            proof {
                // the previous last cell precedes this interval's first cell
                lemma_ranges_sorted(coverage@, i - 1, i as int);
                lemma_div_ordered((coverage@[i - 1].end - 1) as nat, rg.start as nat,
                    scale as nat);
                assert(n_cells(dn) <= n_cells(29)) by {
                    lemma_pow4_monotone(dn, 29);
                }
            }
            if lastidx + 1 > k {
                k = lastidx + 1;
            }
        }
        proof {
            assert forall|x: u64|
                covered_prefix(coverage@, dn, x as nat, i as int) || (range_covers(
                    coverage@[i as int],
                    dn,
                    x as nat,
                ) && (x as nat) < k as nat) implies list_has_idx(out@, x) by {
                if !covered_prefix(coverage@, dn, x as nat, i as int) {
                    lemma_between_iff(rg.start as nat, rg.end as nat, scale as nat, x as nat);
                    assert(lo <= x <= hi);
                    assert(x < k);
                    assert(out@.len() > 0);
                    assert(x == out@.last().idx);
                    assert(out@[out@.len() - 1].idx == x);
                }
            }
        }
        while k <= hi
            invariant
                n == coverage@.len(),
                i < n,
                depth <= 29,
                dn == depth as nat,
                scale as nat == scale_at(dn),
                scale >= 1,
                coverage_well_formed(coverage@),
                rg == coverage@[i as int],
                lo == rg.start as u64 / scale,
                hi == (rg.end - 1) as u64 / scale,
                lo <= k,
                k <= hi + 1,
                (hi as nat) < n_cells(dn),
                cell_list_sorted(out@, depth),
                out@.len() > 0 ==> out@.last().idx < k,
                forall|x: u64|
                    list_has_idx(out@, x) == (covered_prefix(coverage@, dn, x as nat, i as int)
                        || (range_covers(coverage@[i as int], dn, x as nat) && (x as nat)
                        < k as nat)),
            decreases hi + 1 - k,
        {
            proof {
                lemma_between_iff(rg.start as nat, rg.end as nat, scale as nat, k as nat);
            }
            let ghost out0 = out@;
            out.push(HEALPixCell { depth, idx: k });
            proof {
                assert forall|x: u64|
                    list_has_idx(out@, x) == (covered_prefix(coverage@, dn, x as nat, i as int)
                        || (range_covers(coverage@[i as int], dn, x as nat) && (x as nat) < (k
                        + 1) as nat)) by {
                    if list_has_idx(out@, x) {
                        let w = choose|w: int| 0 <= w < out@.len() && out@[w].idx == x;
                        if w < out0.len() {
                            assert(list_has_idx(out0, x)) by {
                                assert(out0[w].idx == x);
                            }
                        } else {
                            assert(x == k);
                        }
                    }
                    if covered_prefix(coverage@, dn, x as nat, i as int) || (range_covers(
                        coverage@[i as int],
                        dn,
                        x as nat,
                    ) && (x as nat) < (k + 1) as nat) {
                        if x < k || covered_prefix(coverage@, dn, x as nat, i as int) {
                            assert(list_has_idx(out0, x));
                            let w = choose|w: int| 0 <= w < out0.len() && out0[w].idx == x;
                            assert(out@[w].idx == x);
                            assert(list_has_idx(out@, x));
                        } else {
                            assert(x == k);
                            assert(out@[out@.len() - 1].idx == x);
                            assert(list_has_idx(out@, x));
                        }
                    }
                }
            }
            k = k + 1;
        }
        proof {
            assert forall|x: u64|
                list_has_idx(out@, x) == covered_prefix(coverage@, dn, x as nat, i as int
                    + 1) by {
                lemma_between_iff(rg.start as nat, rg.end as nat, scale as nat, x as nat);
                if covered_prefix(coverage@, dn, x as nat, i as int + 1) && !covered_prefix(
                    coverage@,
                    dn,
                    x as nat,
                    i as int,
                ) {
                    let j = choose|j: int|
                        0 <= j < i + 1 && range_covers(coverage@[j], dn, x as nat);
                    assert(j == i as int);
                }
                if list_has_idx(out@, x) && !covered_prefix(coverage@, dn, x as nat, i as int) {
                    assert(range_covers(coverage@[i as int], dn, x as nat));
                    assert(covered_prefix(coverage@, dn, x as nat, i as int + 1)) by {
                        assert(range_covers(coverage@[i as int], dn, x as nat));
                    }
                }
                if range_covers(coverage@[i as int], dn, x as nat) {
                    assert(lo <= x <= hi);
                    assert((x as nat) < k as nat);
                }
            }
            assert(out@.len() > 0 && out@.last().idx as nat == ((coverage@[i as int].end
                - 1) as nat) / (scale as nat)) by {
                assert(lo <= hi);
                assert(k == hi + 1);
                assert(range_covers(coverage@[i as int], dn, hi as nat));
                assert(list_has_idx(out@, hi)) by {
                    assert(covered_prefix(coverage@, dn, hi as nat, i as int + 1)) by {
                        assert(range_covers(coverage@[i as int], dn, hi as nat));
                    }
                }
                let w = choose|w: int| 0 <= w < out@.len() && out@[w].idx == hi;
                assert(out@.last().idx >= hi) by {
                    if w < out@.len() - 1 {
                        assert(out@[w].idx < out@[out@.len() - 1].idx);
                    }
                }
                assert(out@.last().idx <= hi) by {
                    if out@.last().idx > hi {
                        let y = out@.last().idx;
                        assert(list_has_idx(out@, y)) by {
                            assert(out@[out@.len() - 1].idx == y);
                        }
                        assert(covered_prefix(coverage@, dn, y as nat, i as int + 1));
                        let j = choose|j: int|
                            0 <= j < i + 1 && range_covers(coverage@[j], dn, y as nat);
                        lemma_between_iff(coverage@[j].start as nat, coverage@[j].end as nat,
                            scale as nat, y as nat);
                        if j < i as int {
                            lemma_ranges_sorted(coverage@, j, i as int);
                            lemma_div_ordered((coverage@[j].end - 1) as nat, rg.start as nat,
                                scale as nat);
                            lemma_div_ordered(rg.start as nat, (rg.end - 1) as nat,
                                scale as nat);
                        }
                    }
                }
            }
        }
        i = i + 1;
    }
    out
}

/// The depth the viewport asks tiles at: the smallest depth whose tiles,
/// one per cell, reach the screen resolution (a base cell spans
/// `base_cell_px` pixels and a cell of depth `d` offers `tile_size * 2^d`
/// pixels across that span), clamped to the survey's deepest depth.
pub open spec fn depth_selected(tile_size: u32, max_depth: u8, px: u64, d: u8) -> bool {
    &&& d <= max_depth
    &&& (tile_size as nat) * pow2(d as nat) >= px || d == max_depth
    &&& forall|dd: nat| dd < d ==> (tile_size as nat) * pow2(dd) < px
}

/// The cell list is exactly the covered cells of the depth, sorted.
pub open spec fn view_matches(cells: Seq<HEALPixCell>, depth: u8, coverage: Seq<CellRange>) -> bool {
    &&& cell_list_sorted(cells, depth)
    &&& forall|x: u64| list_has_idx(cells, x) == covered(coverage, depth as nat, x as nat)
}

pub fn depth_for_resolution(tile_size: u32, max_depth: u8, base_cell_px: u64) -> (r: u8)
    requires
        1 <= tile_size <= 0x10000,
        max_depth <= MAX_TESS_DEPTH,
    ensures
        depth_selected(tile_size, max_depth, base_cell_px, r),
{
    let mut d: u8 = 0;
    let mut acc: u64 = tile_size as u64;
    proof {
        vstd::arithmetic::power2::lemma2_to64();
    }
    while d < max_depth && acc < base_cell_px
        invariant
            d <= max_depth <= 29,
            1 <= tile_size <= 0x10000,
            acc as nat == (tile_size as nat) * pow2(d as nat),
            forall|dd: nat| dd < d ==> (tile_size as nat) * pow2(dd) < base_cell_px,
        decreases max_depth - d,
    {
        proof {
            vstd::arithmetic::power2::lemma2_to64();
            vstd::arithmetic::power2::lemma_pow2_strictly_increases(d as nat, 29);
            assert((tile_size as nat) * pow2(d as nat) <= 0x10000 * pow2(29)) by (nonlinear_arith)
                requires
                    tile_size <= 0x10000,
                    pow2(d as nat) <= pow2(29),
            ;
            assert(pow2(d as nat + 1) == 2 * pow2(d as nat)) by {
                vstd::arithmetic::power2::lemma_pow2_unfold(d as nat + 1);
            }
        }
        let ghost d0 = d as nat;
        acc = acc * 2;
        d = d + 1;
        proof {
            assert((tile_size as nat) * (2 * pow2(d0)) == (tile_size as nat) * pow2(d0) * 2)
                by (nonlinear_arith);
            assert forall|dd: nat| dd < d implies (tile_size as nat) * pow2(dd)
                < base_cell_px by {
                if dd == d0 {
                    assert((tile_size as nat) * pow2(d0) < base_cell_px);
                }
            }
        }
    }
    d
}

/// Two strictly sorted lists of one depth with the same members are equal.
pub proof fn lemma_sorted_lists_equal(s1: Seq<HEALPixCell>, s2: Seq<HEALPixCell>, depth: u8)
    requires
        cell_list_sorted(s1, depth),
        cell_list_sorted(s2, depth),
        forall|x: u64| list_has_idx(s1, x) == list_has_idx(s2, x),
    ensures
        s1 == s2,
    decreases s1.len(),
{
    if s1.len() == 0 {
        if s2.len() > 0 {
            assert(list_has_idx(s2, s2[0].idx)) by {
                assert(s2[0].idx == s2[0].idx);
            }
            assert(false);
        }
        assert(s1 =~= s2);
    } else {
        assert(list_has_idx(s1, s1[0].idx)) by {
            assert(s1[0].idx == s1[0].idx);
        }
        if s2.len() == 0 {
            assert(false);
        }
        assert(list_has_idx(s2, s2[0].idx)) by {
            assert(s2[0].idx == s2[0].idx);
        }
        let w1 = choose|w: int| 0 <= w < s2.len() && s2[w].idx == s1[0].idx;
        let w2 = choose|w: int| 0 <= w < s1.len() && s1[w].idx == s2[0].idx;
        assert(s2[0].idx <= s1[0].idx) by {
            if w1 > 0 {
                assert(s2[0].idx < s2[w1].idx);
            }
        }
        assert(s1[0].idx <= s2[0].idx) by {
            if w2 > 0 {
                assert(s1[0].idx < s1[w2].idx);
            }
        }
        assert(s1[0] == s2[0]);
        let t1 = s1.subrange(1, s1.len() as int);
        let t2 = s2.subrange(1, s2.len() as int);
        assert(cell_list_sorted(t1, depth));
        assert(cell_list_sorted(t2, depth));
        assert forall|x: u64| list_has_idx(t1, x) == list_has_idx(t2, x) by {
            if list_has_idx(t1, x) {
                let w = choose|w: int| 0 <= w < t1.len() && t1[w].idx == x;
                assert(s1[w + 1].idx == x);
                assert(list_has_idx(s1, x));
                assert(x > s1[0].idx);
                let v = choose|v: int| 0 <= v < s2.len() && s2[v].idx == x;
                assert(v > 0) by {
                    if v == 0 {
                        assert(s2[0].idx == x);
                    }
                }
                assert(t2[v - 1].idx == x);
                assert(list_has_idx(t2, x));
            }
            if list_has_idx(t2, x) {
                let w = choose|w: int| 0 <= w < t2.len() && t2[w].idx == x;
                assert(s2[w + 1].idx == x);
                assert(list_has_idx(s2, x));
                assert(x > s2[0].idx);
                let v = choose|v: int| 0 <= v < s1.len() && s1[v].idx == x;
                assert(v > 0) by {
                    if v == 0 {
                        assert(s1[0].idx == x);
                    }
                }
                assert(t1[v - 1].idx == x);
                assert(list_has_idx(t1, x));
            }
        }
        lemma_sorted_lists_equal(t1, t2, depth);
        assert(s1 =~= s2) by {
            assert forall|i: int| 0 <= i < s1.len() implies s1[i] == s2[i] by {
                if i > 0 {
                    assert(s1[i] == t1[i - 1]);
                    assert(s2[i] == t2[i - 1]);
                }
            }
        }
    }
}

/// Two equal plain cell vectors.
fn cells_eq(a: &Vec<HEALPixCell>, b: &Vec<HEALPixCell>) -> (r: bool)
    ensures
        r == (a@ == b@),
{
    if a.len() != b.len() {
        return false;
    }
    let n = a.len();
    let mut i: usize = 0;
    while i < n
        invariant
            n == a@.len() == b@.len(),
            i <= n,
            forall|k: int| 0 <= k < i ==> a@[k] == b@[k],
        decreases n - i,
    {
        if a[i] != b[i] {
            return false;
        }
        i += 1;
    }
    proof {
        assert(a@ =~= b@);
    }
    true
}

/// The set of tessellation cells in the camera's view, with the depth they
/// are asked at, a one-frame edge trigger raised when the set changed, and
/// the motion the camera reported.
pub struct HEALPixCellsInView {
    pub depth: u8,
    pub cells: Vec<HEALPixCell>,
    pub is_new_cells_added: bool,
    pub user_action: UserAction,
}

impl HEALPixCellsInView {
    pub open spec fn inv(self) -> bool {
        cell_list_sorted(self.cells@, self.depth)
    }

    /// The viewport of the first frame; the edge trigger starts raised, so
    /// the first frame always builds its buffers.
    pub fn new(tile_size: u32, max_depth: u8, camera: &CameraFrame) -> (r: Self)
        requires
            camera.well_formed(),
            1 <= tile_size <= 0x10000,
            max_depth <= MAX_TESS_DEPTH,
        ensures
            r.inv(),
            depth_selected(tile_size, max_depth, camera.base_cell_px, r.depth),
            view_matches(r.cells@, r.depth, camera.coverage@),
            r.is_new_cells_added,
            r.user_action == camera.user_action,
    {
        let depth = depth_for_resolution(tile_size, max_depth, camera.base_cell_px);
        let cells = cells_in_coverage(depth, &camera.coverage);
        HEALPixCellsInView {
            depth,
            cells,
            is_new_cells_added: true,
            user_action: camera.user_action,
        }
    }

    /// Recomputes the depth from the camera's resolution and the cell set
    /// from its coverage, and raises the edge trigger exactly when the cell
    /// set differs from the previous frame's.
    pub fn refresh_cells(&mut self, tile_size: u32, max_depth: u8, camera: &CameraFrame)
        requires
            camera.well_formed(),
            1 <= tile_size <= 0x10000,
            max_depth <= MAX_TESS_DEPTH,
        ensures
            final(self).inv(),
            depth_selected(tile_size, max_depth, camera.base_cell_px, final(self).depth),
            view_matches(final(self).cells@, final(self).depth, camera.coverage@),
            final(self).is_new_cells_added == (final(self).cells@ != old(self).cells@),
            final(self).user_action == camera.user_action,
    {
        let depth = depth_for_resolution(tile_size, max_depth, camera.base_cell_px);
        let cells = cells_in_coverage(depth, &camera.coverage);
        let changed = !cells_eq(&cells, &self.cells);
        self.depth = depth;
        self.cells = cells;
        self.is_new_cells_added = changed;
        self.user_action = camera.user_action;
    }

    /// Clears the edge trigger without recomputation, for a frame that is
    /// redrawn for another reason.
    pub fn reset_frame(&mut self)
        ensures
            *final(self) == (HEALPixCellsInView { is_new_cells_added: false, ..*old(self) }),
    {
        self.is_new_cells_added = false;
    }

    pub fn get_cells(&self) -> (r: &Vec<HEALPixCell>)
        ensures
            r == &self.cells,
    {
        &self.cells
    }

    pub fn num_of_cells(&self) -> (r: usize)
        ensures
            r == self.cells@.len(),
    {
        self.cells.len()
    }

    pub fn get_depth(&self) -> (r: u8)
        ensures
            r == self.depth,
    {
        self.depth
    }

    pub fn is_there_new_cells_added(&self) -> (r: bool)
        ensures
            r == self.is_new_cells_added,
    {
        self.is_new_cells_added
    }

    pub fn get_user_action(&self) -> (r: UserAction)
        ensures
            r == self.user_action,
    {
        self.user_action
    }
}

/// Refreshing the viewport with an unchanged camera is idempotent: any two
/// refreshes against the same camera pick the same depth and the same cell
/// list, so the second of two consecutive refreshes finds its cells equal
/// to the first's and raises no edge trigger.
pub proof fn lemma_refresh_idempotent(
    tile_size: u32,
    max_depth: u8,
    camera: CameraFrame,
    d1: u8,
    cells1: Seq<HEALPixCell>,
    d2: u8,
    cells2: Seq<HEALPixCell>,
)
    requires
        depth_selected(tile_size, max_depth, camera.base_cell_px, d1),
        view_matches(cells1, d1, camera.coverage@),
        depth_selected(tile_size, max_depth, camera.base_cell_px, d2),
        view_matches(cells2, d2, camera.coverage@),
    ensures
        d2 == d1,
        cells2 == cells1,
{
    if d1 < d2 {
        assert((tile_size as nat) * pow2(d1 as nat) < camera.base_cell_px);
        assert(d1 == max_depth);
        assert(false);
    }
    if d2 < d1 {
        assert((tile_size as nat) * pow2(d2 as nat) < camera.base_cell_px);
        assert(d2 == max_depth);
        assert(false);
    }
    lemma_sorted_lists_equal(cells1, cells2, d1);
}

} // verus!
