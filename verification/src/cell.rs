//! Tessellation index: cell identity and the parent / child / ancestor
//! relations of the hierarchical spherical tessellation, plus the subdivision
//! heuristic used when a cell is rasterized as a mesh.

use vstd::prelude::*;

verus! {

/// Deepest depth the tessellation reaches. Cell indices at this depth still
/// fit comfortably in a `u64` (`12 * 4^29 < 2^62`).
pub const MAX_TESS_DEPTH: u8 = 29;

/// `4^n`.
pub open spec fn pow4(n: nat) -> nat
    decreases n,
{
    if n == 0 {
        1
    } else {
        4 * pow4((n - 1) as nat)
    }
}

/// Number of cells of the tessellation at a given depth: twelve base cells,
/// each split in four at every further depth.
pub open spec fn n_cells(depth: nat) -> nat {
    12 * pow4(depth)
}

pub proof fn lemma_pow4_pos(n: nat)
    ensures
        pow4(n) >= 1,
    decreases n,
{
    if n > 0 {
        lemma_pow4_pos((n - 1) as nat);
    }
}

pub proof fn lemma_pow4_adds(a: nat, b: nat)
    ensures
        pow4(a + b) == pow4(a) * pow4(b),
    decreases a,
{
    if a == 0 {
        assert(pow4(0 + b) == 1 * pow4(b));
    } else {
        lemma_pow4_adds((a - 1) as nat, b);
        assert(pow4(a + b) == 4 * pow4((a + b - 1) as nat));
        assert(4 * (pow4((a - 1) as nat) * pow4(b)) == (4 * pow4((a - 1) as nat)) * pow4(b))
            by (nonlinear_arith);
    }
}

/// `pow4` at the deepest depth, as a literal: the bound every cell index obeys.
pub proof fn lemma_pow4_29()
    ensures
        pow4(29) == 0x400_0000_0000_0000,
{
    reveal_with_fuel(pow4, 30);
}

/// One node of the tessellation, identified by its depth and its index among
/// the cells of that depth. A value identifier: cells never mutate.
#[derive(Clone, Copy, PartialEq, Eq, Structural, Debug)]
pub struct HEALPixCell {
    pub depth: u8,
    pub idx: u64,
}

impl HEALPixCell {
    pub open spec fn well_formed(self) -> bool {
        self.depth <= MAX_TESS_DEPTH && (self.idx as nat) < n_cells(self.depth as nat)
    }

    /// The ancestor of `self` at depth `d` (for `d <= self.depth`): the cell
    /// whose subtree contains `self`.
    pub open spec fn spec_ancestor_at(self, d: nat) -> HEALPixCell {
        HEALPixCell {
            depth: d as u8,
            idx: ((self.idx as nat) / pow4((self.depth - d) as nat)) as u64,
        }
    }

    pub open spec fn spec_parent(self) -> HEALPixCell {
        HEALPixCell { depth: (self.depth - 1) as u8, idx: self.idx / 4 }
    }

    /// The `k`-th of the four children of `self`, `0 <= k < 4`.
    pub open spec fn spec_child(self, k: int) -> HEALPixCell {
        HEALPixCell { depth: (self.depth + 1) as u8, idx: (4 * self.idx + k) as u64 }
    }

    /// Exactly one parent at depth - 1; undefined for the twelve base cells,
    /// which callers never ask a parent of.
    pub fn parent(&self) -> (r: HEALPixCell)
        requires
            self.well_formed(),
            self.depth > 0,
        ensures
            r == self.spec_parent(),
            r == self.spec_ancestor_at((self.depth - 1) as nat),
            r.well_formed(),
            r.depth == self.depth - 1,
    {
        proof {
            lemma_parent_well_formed(*self);
            reveal_with_fuel(pow4, 3);
        }
        HEALPixCell { depth: self.depth - 1, idx: self.idx / 4 }
    }

    /// The four children of `self` at depth + 1, in index order.
    pub fn children(&self) -> (r: [HEALPixCell; 4])
        requires
            self.well_formed(),
            self.depth < MAX_TESS_DEPTH,
        ensures
            forall|k: int| 0 <= k < 4 ==> r[k] == self.spec_child(k),
            forall|k: int| 0 <= k < 4 ==> r[k].well_formed(),
    {
        proof {
            lemma_child_well_formed(*self);
        }
        let d = self.depth + 1;
        let base = 4 * self.idx;
        [
            HEALPixCell { depth: d, idx: base },
            HEALPixCell { depth: d, idx: base + 1 },
            HEALPixCell { depth: d, idx: base + 2 },
            HEALPixCell { depth: d, idx: base + 3 },
        ]
    }
}

pub proof fn lemma_parent_well_formed(c: HEALPixCell)
    requires
        c.well_formed(),
        c.depth > 0,
    ensures
        c.spec_parent().well_formed(),
        c.spec_parent().idx == (c.idx as nat) / pow4(1),
{
    let d = c.depth as nat;
    assert(pow4(d) == 4 * pow4((d - 1) as nat));
    assert((c.idx as nat) < 12 * (4 * pow4((d - 1) as nat)));
    assert(12 * (4 * pow4((d - 1) as nat)) == 4 * (12 * pow4((d - 1) as nat))) by (nonlinear_arith);
    assert((c.idx as nat) / 4 < 12 * pow4((d - 1) as nat)) by (nonlinear_arith)
        requires
            (c.idx as nat) < 4 * (12 * pow4((d - 1) as nat)),
    ;
    reveal_with_fuel(pow4, 3);
}

pub proof fn lemma_child_well_formed(c: HEALPixCell)
    requires
        c.well_formed(),
        c.depth < MAX_TESS_DEPTH,
    ensures
        forall|k: int| 0 <= k < 4 ==> c.spec_child(k).well_formed(),
        4 * c.idx + 3 < n_cells((c.depth + 1) as nat),
        n_cells((c.depth + 1) as nat) <= n_cells(29),
        n_cells(29) == 12 * 0x400_0000_0000_0000,
{
    let d = c.depth as nat;
    assert(pow4(d + 1) == 4 * pow4(d));
    assert((c.idx as nat) < 12 * pow4(d));
    assert(4 * (c.idx as nat) + 3 < 4 * (12 * pow4(d))) by (nonlinear_arith)
        requires
            (c.idx as nat) < 12 * pow4(d),
    ;
    assert(4 * (12 * pow4(d)) == 12 * (4 * pow4(d))) by (nonlinear_arith);
    lemma_pow4_monotone(d + 1, 29);
    lemma_pow4_29();
}

pub proof fn lemma_pow4_monotone(a: nat, b: nat)
    requires
        a <= b,
    ensures
        pow4(a) <= pow4(b),
    decreases b,
{
    if a < b {
        lemma_pow4_monotone(a, (b - 1) as nat);
        lemma_pow4_pos((b - 1) as nat);
    }
}

/// Every cell at depth `d > 0` lies among the four children of its parent,
/// and that parent sits at depth `d - 1`.
pub proof fn lemma_parent_child_round_trip(c: HEALPixCell)
    requires
        c.well_formed(),
        c.depth > 0,
    ensures
        c.spec_parent().depth == c.depth - 1,
        c.spec_parent().well_formed(),
        exists|k: int| 0 <= k < 4 && c.spec_parent().spec_child(k) == c,
{
    lemma_parent_well_formed(c);
    let k = (c.idx % 4) as int;
    assert(c.idx == 4 * (c.idx / 4) + c.idx % 4);
    assert(c.spec_parent().spec_child(k) == c);
}

/// An ancestor is well formed, and taking the ancestor of an ancestor lands
/// on the ancestor at the lower depth directly.
pub proof fn lemma_ancestor_well_formed(c: HEALPixCell, d: nat)
    requires
        c.well_formed(),
        d <= c.depth,
    ensures
        c.spec_ancestor_at(d).well_formed(),
        c.spec_ancestor_at(d).depth == d,
{
    let k = (c.depth - d) as nat;
    lemma_pow4_adds(d, k);
    lemma_pow4_pos(k);
    lemma_pow4_pos(d);
    assert((c.idx as nat) < 12 * (pow4(d) * pow4(k)));
    assert(12 * (pow4(d) * pow4(k)) == (12 * pow4(d)) * pow4(k)) by (nonlinear_arith);
    assert((c.idx as nat) / pow4(k) < 12 * pow4(d)) by (nonlinear_arith)
        requires
            (c.idx as nat) < (12 * pow4(d)) * pow4(k),
            pow4(k) >= 1,
    ;
}

/// A cell is its own ancestor at its own depth.
pub proof fn lemma_ancestor_at_self(c: HEALPixCell)
    requires
        c.well_formed(),
    ensures
        c.spec_ancestor_at(c.depth as nat) == c,
{
    assert(pow4(0) == 1);
    assert((c.idx as nat) / 1 == c.idx as nat);
}

/// Walking to the parent of an ancestor is the ancestor one depth higher up.
pub proof fn lemma_ancestor_parent(c: HEALPixCell, d: nat)
    requires
        c.well_formed(),
        0 < d <= c.depth,
    ensures
        c.spec_ancestor_at(d).spec_parent() == c.spec_ancestor_at((d - 1) as nat),
{
    let k = (c.depth - d) as nat;
    let x = c.idx as nat;
    lemma_pow4_pos(k);
    vstd::arithmetic::div_mod::lemma_div_denominator(x as int, pow4(k) as int, 4);
    assert(pow4(k) * 4 == 4 * pow4(k)) by (nonlinear_arith);
    assert(pow4(k + 1) == 4 * pow4(k));
    assert((x / pow4(k)) / 4 == x / pow4(k + 1));
}

/// Taking an ancestor of an ancestor lands on the ancestor at the lower
/// depth directly.
pub proof fn lemma_ancestor_compose(c: HEALPixCell, d1: nat, d2: nat)
    requires
        c.well_formed(),
        d2 <= d1 <= c.depth,
    ensures
        c.spec_ancestor_at(d1).spec_ancestor_at(d2) == c.spec_ancestor_at(d2),
{
    lemma_ancestor_well_formed(c, d1);
    let k1 = (c.depth - d1) as nat;
    let k2 = (d1 - d2) as nat;
    let x = c.idx as nat;
    lemma_pow4_pos(k1);
    lemma_pow4_pos(k2);
    vstd::arithmetic::div_mod::lemma_div_denominator(x as int, pow4(k1) as int, pow4(k2) as int);
    lemma_pow4_adds(k1, k2);
}

/// Number of extra mesh subdivisions a rasterized cell of the given depth
/// needs: `max(5 - depth, 2)` below depth five, none from depth five on.
/// A fixed heuristic: coarse cells span a large curved patch of the sky and
/// need many segments for their quad to follow the curve; cells at depth five
/// or deeper are already below the distortion threshold.
pub open spec fn spec_num_subdivision(depth: u8) -> u8 {
    if depth < 3 {
        (5 - depth) as u8
    } else if depth < 5 {
        2
    } else {
        0
    }
}

pub fn num_subdivision(depth: u8) -> (r: u8)
    ensures
        r == spec_num_subdivision(depth),
        depth < 5 ==> r == if 5 - depth > 2 {
            (5 - depth) as u8
        } else {
            2u8
        },
        depth >= 5 ==> r == 0,
{
    if depth < 5 {
        let n = 5 - depth;
        if n > 2 {
            n
        } else {
            2
        }
    } else {
        0
    }
}

} // verus!
