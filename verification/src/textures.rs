//! Tile texture cache: a fixed-capacity atlas of texture slots keyed by
//! tessellation cell, with nearest-resident-ancestor lookup and
//! least-recently-requested eviction among slots that are neither base cells
//! nor on screen. The pixel payload itself lives on the GPU; the cache holds
//! the per-slot metadata the renderer decides with.

use vstd::prelude::*;
use crate::cell::HEALPixCell;
use crate::cell::lemma_ancestor_at_self;
use crate::cell::lemma_ancestor_parent;
use crate::cell::lemma_ancestor_well_formed;
use crate::cell::n_cells;
use crate::cell::pow4;
use crate::config::HiPSConfig;

verus! {

/// Metadata of one texture slot of the atlas: the cell the slot is bound to,
/// the time the tile arrived (the blend animation of the cell starts there),
/// the time it was requested, and whether the payload is a placeholder for a
/// tile the resolver reported missing. A missing placeholder is still a valid
/// blend source: it records "we asked and got nothing" and keeps the renderer
/// from treating the cell as a hole.
#[derive(Clone, Copy, PartialEq, Eq, Structural, Debug)]
pub struct Texture {
    pub cell: HEALPixCell,
    /// Arrival timestamp in milliseconds; kept when a placeholder is later
    /// overwritten by real data, so the blend animation does not restart.
    pub start_time: u64,
    /// Request timestamp in milliseconds; the eviction order.
    pub time_request: u64,
    pub missing: bool,
}

impl Texture {
    pub fn start_time(&self) -> (r: u64)
        ensures
            r == self.start_time,
    {
        self.start_time
    }

    pub fn is_missing(&self) -> (r: bool)
        ensures
            r == self.missing,
    {
        self.missing
    }
}

/// Some slot is bound to the cell.
pub open spec fn contains_cell(slots: Seq<Texture>, c: HEALPixCell) -> bool {
    exists|i: int| 0 <= i < slots.len() && slots[i].cell == c
}

/// No two slots are bound to the same cell.
pub open spec fn distinct_cells(slots: Seq<Texture>) -> bool {
    forall|i: int, j: int|
        0 <= i < j < slots.len() ==> slots[i].cell != slots[j].cell
}

pub open spec fn slots_well_formed(slots: Seq<Texture>) -> bool {
    forall|i: int| 0 <= i < slots.len() ==> (#[trigger] slots[i]).cell.well_formed()
}

/// The cache is ready once each of the twelve base cells has a slot.
pub open spec fn spec_ready(slots: Seq<Texture>) -> bool {
    forall|k: u64| k < 12 ==> contains_cell(slots, HEALPixCell { depth: 0, idx: k })
}

/// The walk of `get_nearest_parent`, from a candidate ancestor downwards:
/// the first cell of the parent chain with a resident slot, or the base-cell
/// ancestor when none in between is resident.
pub open spec fn spec_walk_up(slots: Seq<Texture>, a: HEALPixCell) -> HEALPixCell
    decreases a.depth,
{
    if a.depth == 0 || contains_cell(slots, a) {
        a
    } else {
        spec_walk_up(slots, a.spec_parent())
    }
}

/// The nearest strictly-closer resident ancestor of a cell; a base cell is
/// its own nearest parent.
pub open spec fn spec_nearest_parent(slots: Seq<Texture>, c: HEALPixCell) -> HEALPixCell {
    if c.depth == 0 {
        c
    } else {
        spec_walk_up(slots, c.spec_parent())
    }
}

/// The index of the slot bound to the cell; meaningful only when
/// `contains_cell` holds, and then unique as long as slots are distinct.
pub open spec fn spec_index_of(slots: Seq<Texture>, c: HEALPixCell) -> int {
    choose|i: int| 0 <= i < slots.len() && slots[i].cell == c
}

/// A slot may be reassigned only if its cell is neither a base cell (base
/// cells stay resident forever once loaded) nor in the current viewport.
pub open spec fn evictable(t: Texture, view: Seq<HEALPixCell>) -> bool {
    t.cell.depth > 0 && !view.contains(t.cell)
}

/// The eviction candidate among the first `n` slots: the first slot of
/// minimal request time among the evictable ones.
pub open spec fn spec_victim_in(slots: Seq<Texture>, view: Seq<HEALPixCell>, n: int) -> Option<
    int,
>
    decreases n,
{
    if n <= 0 {
        None::<int>
    } else {
        let prev = spec_victim_in(slots, view, n - 1);
        if !evictable(slots[n - 1], view) {
            prev
        } else {
            match prev {
                None => Some(n - 1),
                Some(j) => if slots[n - 1].time_request < slots[j].time_request {
                    Some(n - 1)
                } else {
                    Some(j)
                },
            }
        }
    }
}

pub open spec fn spec_victim(slots: Seq<Texture>, view: Seq<HEALPixCell>) -> Option<int> {
    spec_victim_in(slots, view, slots.len() as int)
}

/// What one push does to the slots: overwrite the slot of an already-bound
/// cell (keeping its arrival time), append while capacity lasts, else
/// reassign the eviction candidate; when every slot is a base or on-screen
/// cell, nothing changes.
pub open spec fn spec_push(
    slots: Seq<Texture>,
    c: HEALPixCell,
    time_request: u64,
    now: u64,
    missing: bool,
    view: Seq<HEALPixCell>,
    capacity: int,
) -> Seq<Texture> {
    if contains_cell(slots, c) {
        let i = spec_index_of(slots, c);
        slots.update(i, Texture { cell: c, start_time: slots[i].start_time, time_request, missing })
    } else if slots.len() < capacity {
        slots.push(Texture { cell: c, start_time: now, time_request, missing })
    } else {
        match spec_victim(slots, view) {
            None => slots,
            Some(j) => slots.update(
                j,
                Texture { cell: c, start_time: now, time_request, missing },
            ),
        }
    }
}

/// Membership of a cell in a plain vector of cells.
pub fn cell_in_vec(v: &Vec<HEALPixCell>, c: &HEALPixCell) -> (r: bool)
    ensures
        r == v@.contains(*c),
{
    let n = v.len();
    let mut i: usize = 0;
    while i < n
        invariant
            n == v@.len(),
            i <= n,
            forall|k: int| 0 <= k < i ==> v@[k] != *c,
        decreases n - i,
    {
        if v[i] == *c {
            assert(v@.contains(*c)) by {
                assert(v@[i as int] == *c);
            }
            return true;
        }
        i += 1;
    }
    false
}

/// The eviction candidate is evictable, of minimal request time among the
/// evictable slots, and the first slot attaining that minimum; when there is
/// none, no slot is evictable.
pub proof fn lemma_victim_in_props(slots: Seq<Texture>, view: Seq<HEALPixCell>, n: int)
    requires
        n <= slots.len(),
    ensures
        match spec_victim_in(slots, view, n) {
            Some(j) => {
                &&& 0 <= j < n
                &&& evictable(slots[j], view)
                &&& forall|k: int|
                    0 <= k < n && evictable(#[trigger] slots[k], view) ==> slots[j].time_request
                        <= slots[k].time_request
                &&& forall|k: int|
                    0 <= k < j && evictable(#[trigger] slots[k], view)
                        ==> slots[j].time_request < slots[k].time_request
            },
            None => forall|k: int| 0 <= k < n ==> !evictable(#[trigger] slots[k], view),
        },
    decreases n,
{
    if n > 0 {
        lemma_victim_in_props(slots, view, n - 1);
    }
}

/// Reassigning slot `j` to a cell not bound elsewhere keeps the slots
/// distinct and well formed; readiness survives as long as the old occupant
/// was no base cell, or was the overwritten cell itself.
proof fn lemma_update_keeps(
    slots: Seq<Texture>,
    j: int,
    t: Texture,
    c: HEALPixCell,
    view: Seq<HEALPixCell>,
)
    requires
        distinct_cells(slots),
        slots_well_formed(slots),
        0 <= j < slots.len(),
        t.cell == c,
        c.well_formed(),
        slots[j].cell == c || !contains_cell(slots, c),
    ensures
        distinct_cells(slots.update(j, t)),
        slots_well_formed(slots.update(j, t)),
        contains_cell(slots.update(j, t), c),
        (slots[j].cell.depth > 0 || slots[j].cell == c) && spec_ready(slots) ==> spec_ready(
            slots.update(j, t),
        ),
{
    let s2 = slots.update(j, t);
    assert(contains_cell(s2, c)) by {
        assert(s2[j].cell == c);
    }
    assert forall|i1: int, i2: int| 0 <= i1 < i2 < s2.len() implies s2[i1].cell != s2[i2].cell by {
        if i1 != j && i2 != j {
            assert(slots[i1].cell != slots[i2].cell);
        } else if i1 == j {
            if slots[j].cell == c {
                assert(slots[i1].cell != slots[i2].cell);
            } else {
                assert(!contains_cell(slots, c));
                assert(slots[i2].cell != c) by {
                    if slots[i2].cell == c {
                        assert(contains_cell(slots, c)) by {
                            assert(slots[i2].cell == c);
                        }
                    }
                }
            }
        } else {
            if slots[j].cell == c {
                assert(slots[i1].cell != slots[i2].cell);
            } else {
                assert(slots[i1].cell != c) by {
                    if slots[i1].cell == c {
                        assert(contains_cell(slots, c)) by {
                            assert(slots[i1].cell == c);
                        }
                    }
                }
            }
        }
    }
    if (slots[j].cell.depth > 0 || slots[j].cell == c) && spec_ready(slots) {
        assert forall|k: u64| k < 12 implies contains_cell(
            s2,
            HEALPixCell { depth: 0, idx: k },
        ) by {
            let b = HEALPixCell { depth: 0, idx: k };
            assert(contains_cell(slots, b));
            let w = choose|i: int| 0 <= i < slots.len() && slots[i].cell == b;
            if w != j {
                assert(s2[w].cell == b);
            } else {
                assert(slots[j].cell == b);
                assert(slots[j].cell.depth == 0);
                assert(slots[j].cell == c);
                assert(s2[j].cell == b);
            }
        }
    }
}

/// With distinct slots, `spec_index_of` is the one index bound to the cell.
pub proof fn lemma_index_unique(slots: Seq<Texture>, c: HEALPixCell, i: int)
    requires
        distinct_cells(slots),
        0 <= i < slots.len(),
        slots[i].cell == c,
    ensures
        spec_index_of(slots, c) == i,
{
    assert(contains_cell(slots, c)) by {
        assert(slots[i].cell == c);
    }
    let j = spec_index_of(slots, c);
    if i < j {
        assert(slots[i].cell != slots[j].cell);
    } else if j < i {
        assert(slots[j].cell != slots[i].cell);
    }
}

/// The walk towards the base cells ends on a resident, well-formed ancestor
/// as soon as the cache is ready, whatever else the cache holds.
proof fn lemma_walk_up_resident(slots: Seq<Texture>, a: HEALPixCell)
    requires
        spec_ready(slots),
        a.well_formed(),
    ensures
        spec_walk_up(slots, a).well_formed(),
        spec_walk_up(slots, a).depth <= a.depth,
        contains_cell(slots, spec_walk_up(slots, a)),
    decreases a.depth,
{
    if a.depth == 0 {
        assert(n_cells(0) == 12 * pow4(0));
        assert(pow4(0) == 1);
        assert(a == HEALPixCell { depth: 0, idx: a.idx });
        assert(contains_cell(slots, HEALPixCell { depth: 0, idx: a.idx }));
    } else if !contains_cell(slots, a) {
        crate::cell::lemma_parent_well_formed(a);
        lemma_walk_up_resident(slots, a.spec_parent());
    }
}

/// Once the cache is ready, repeated application of the nearest-parent
/// lookup terminates on a resident base cell: each step from a deeper cell
/// lands on a resident strictly shallower cell, and a base cell is a
/// resident fixed point.
pub proof fn lemma_nearest_parent_terminates(slots: Seq<Texture>, c: HEALPixCell)
    requires
        spec_ready(slots),
        c.well_formed(),
    ensures
        spec_nearest_parent(slots, c).well_formed(),
        contains_cell(slots, spec_nearest_parent(slots, c)),
        c.depth > 0 ==> spec_nearest_parent(slots, c).depth < c.depth,
        c.depth == 0 ==> spec_nearest_parent(slots, c) == c,
{
    if c.depth == 0 {
        assert(n_cells(0) == 12 * pow4(0));
        assert(pow4(0) == 1);
        assert(c == HEALPixCell { depth: 0, idx: c.idx });
        assert(contains_cell(slots, HEALPixCell { depth: 0, idx: c.idx }));
    } else {
        crate::cell::lemma_parent_well_formed(c);
        lemma_walk_up_resident(slots, c.spec_parent());
    }
}

/// Capacity invariant of the cache: a push never grows the slots past the
/// capacity, and the only cell a push can drop is a non-base cell that is
/// not in the viewport handed to the push.
pub proof fn lemma_push_respects_capacity(
    slots: Seq<Texture>,
    c: HEALPixCell,
    time_request: u64,
    now: u64,
    missing: bool,
    view: Seq<HEALPixCell>,
    capacity: int,
)
    requires
        slots.len() <= capacity,
        distinct_cells(slots),
    ensures
        spec_push(slots, c, time_request, now, missing, view, capacity).len() <= capacity,
        forall|x: HEALPixCell|
            contains_cell(slots, x) && !contains_cell(
                #[trigger] spec_push(slots, c, time_request, now, missing, view, capacity),
                x,
            ) ==> x.depth > 0 && !view.contains(x),
{
    let s2 = spec_push(slots, c, time_request, now, missing, view, capacity);
    if contains_cell(slots, c) {
        let i = spec_index_of(slots, c);
        assert(0 <= i < slots.len() && slots[i].cell == c);
        assert forall|x: HEALPixCell| contains_cell(slots, x) implies contains_cell(s2, x) by {
            let w = choose|k: int| 0 <= k < slots.len() && slots[k].cell == x;
            if w == i {
                assert(s2[i].cell == c);
            } else {
                assert(s2[w].cell == x);
            }
        }
    } else if slots.len() < capacity {
        assert forall|x: HEALPixCell| contains_cell(slots, x) implies contains_cell(s2, x) by {
            let w = choose|k: int| 0 <= k < slots.len() && slots[k].cell == x;
            assert(s2[w].cell == x);
        }
    } else {
        match spec_victim(slots, view) {
            None => {},
            Some(j) => {
                lemma_victim_in_props(slots, view, slots.len() as int);
                assert forall|x: HEALPixCell|
                    contains_cell(slots, x) && !contains_cell(s2, x) implies x.depth > 0
                    && !view.contains(x) by {
                    let w = choose|k: int| 0 <= k < slots.len() && slots[k].cell == x;
                    if w != j {
                        assert(s2[w].cell == x);
                        assert(contains_cell(s2, x));
                    } else {
                        assert(x == slots[j].cell);
                        assert(evictable(slots[j], view));
                    }
                }
            },
        }
    }
}

/// What the slot of the pushed cell holds after a push, and that pushes
/// keep the slots distinct. The arrival time of an overwritten slot is the
/// old one; a freshly bound slot records the push time as arrival.
pub proof fn lemma_push_state(
    slots: Seq<Texture>,
    c: HEALPixCell,
    time_request: u64,
    now: u64,
    missing: bool,
    view: Seq<HEALPixCell>,
    capacity: int,
)
    requires
        distinct_cells(slots),
    ensures
        distinct_cells(spec_push(slots, c, time_request, now, missing, view, capacity)),
        contains_cell(spec_push(slots, c, time_request, now, missing, view, capacity), c)
            ==> ({
            let s2 = spec_push(slots, c, time_request, now, missing, view, capacity);
            let i = spec_index_of(s2, c);
            &&& 0 <= i < s2.len()
            &&& s2[i].cell == c
            &&& s2[i].missing == missing
            &&& s2[i].time_request == time_request
            &&& (contains_cell(slots, c) ==> s2[i].start_time == slots[spec_index_of(
                slots,
                c,
            )].start_time)
            &&& (!contains_cell(slots, c) ==> s2[i].start_time == now)
        }),
        contains_cell(slots, c) ==> contains_cell(
            spec_push(slots, c, time_request, now, missing, view, capacity),
            c,
        ),
{
    let s2 = spec_push(slots, c, time_request, now, missing, view, capacity);
    if contains_cell(slots, c) {
        let i = spec_index_of(slots, c);
        assert(0 <= i < slots.len() && slots[i].cell == c);
        assert(s2 == slots.update(
            i,
            Texture { cell: c, start_time: slots[i].start_time, time_request, missing },
        ));
        assert forall|i1: int, i2: int| 0 <= i1 < i2 < s2.len() implies s2[i1].cell
            != s2[i2].cell by {
            assert(slots[i1].cell != slots[i2].cell);
            if i1 == i {
                assert(s2[i1].cell == slots[i].cell);
            }
            if i2 == i {
                assert(s2[i2].cell == slots[i].cell);
            }
        }
        assert(s2[i].cell == c);
        lemma_index_unique(s2, c, i);
    } else if slots.len() < capacity {
        assert forall|i1: int, i2: int| 0 <= i1 < i2 < s2.len() implies s2[i1].cell
            != s2[i2].cell by {
            if i2 < slots.len() {
                assert(slots[i1].cell != slots[i2].cell);
            } else {
                assert(s2[i2].cell == c);
                assert(s2[i1].cell == slots[i1].cell);
                if slots[i1].cell == c {
                    assert(contains_cell(slots, c)) by {
                        assert(slots[i1].cell == c);
                    }
                }
            }
        }
        assert(s2[slots.len() as int].cell == c);
        lemma_index_unique(s2, c, slots.len() as int);
    } else {
        match spec_victim(slots, view) {
            None => {},
            Some(j) => {
                lemma_victim_in_props(slots, view, slots.len() as int);
                assert forall|i1: int, i2: int| 0 <= i1 < i2 < s2.len() implies s2[i1].cell
                    != s2[i2].cell by {
                    assert(slots[i1].cell != slots[i2].cell);
                    if i1 == j || i2 == j {
                        if slots[i1].cell == c || slots[i2].cell == c {
                            assert(contains_cell(slots, c)) by {
                                if slots[i1].cell == c {
                                    assert(slots[i1].cell == c);
                                } else {
                                    assert(slots[i2].cell == c);
                                }
                            }
                        }
                    }
                }
                assert(s2[j].cell == c);
                lemma_index_unique(s2, c, j);
            },
        }
    }
}

/// A placeholder for a missing tile that is later resolved for real: after
/// the second push the slot of the cell no longer reads missing, and its
/// blend animation still starts at the placeholder's arrival time.
pub proof fn lemma_missing_then_found(
    slots: Seq<Texture>,
    c: HEALPixCell,
    tr1: u64,
    t1: u64,
    view1: Seq<HEALPixCell>,
    tr2: u64,
    t2: u64,
    view2: Seq<HEALPixCell>,
    capacity: int,
)
    requires
        distinct_cells(slots),
        contains_cell(spec_push(slots, c, tr1, t1, true, view1, capacity), c),
    ensures
        ({
            let s1 = spec_push(slots, c, tr1, t1, true, view1, capacity);
            let s2 = spec_push(s1, c, tr2, t2, false, view2, capacity);
            &&& s1[spec_index_of(s1, c)].missing
            &&& contains_cell(s2, c)
            &&& !s2[spec_index_of(s2, c)].missing
            &&& s2[spec_index_of(s2, c)].start_time == s1[spec_index_of(s1, c)].start_time
        }),
{
    let s1 = spec_push(slots, c, tr1, t1, true, view1, capacity);
    let s2 = spec_push(s1, c, tr2, t2, false, view2, capacity);
    lemma_push_state(slots, c, tr1, t1, true, view1, capacity);
    lemma_push_state(s1, c, tr2, t2, false, view2, capacity);
}

/// The atlas of texture slots of one survey.
pub struct ImageSurveyTextures {
    pub config: HiPSConfig,
    pub slots: Vec<Texture>,
    /// Edge trigger: some slot changed since the draw path last asked.
    pub available_tiles_flag: bool,
}

impl ImageSurveyTextures {
    pub open spec fn inv(self) -> bool {
        &&& self.config.well_formed()
        &&& self.slots@.len() <= self.config.capacity
        &&& distinct_cells(self.slots@)
        &&& slots_well_formed(self.slots@)
    }

    /// An empty cache for a survey.
    pub fn new(config: HiPSConfig) -> (r: ImageSurveyTextures)
        requires
            config.well_formed(),
        ensures
            r.inv(),
            r.config == config,
            r.slots@.len() == 0,
            !r.available_tiles_flag,
    {
        ImageSurveyTextures { config, slots: Vec::new(), available_tiles_flag: false }
    }

    pub fn config(&self) -> (r: &HiPSConfig)
        ensures
            r == &self.config,
    {
        &self.config
    }

    pub fn contains(&self, cell: &HEALPixCell) -> (r: bool)
        ensures
            r == contains_cell(self.slots@, *cell),
    {
        let n = self.slots.len();
        let mut i: usize = 0;
        while i < n
            invariant
                n == self.slots@.len(),
                i <= n,
                forall|k: int| 0 <= k < i ==> self.slots@[k].cell != *cell,
            decreases n - i,
        {
            if self.slots[i].cell == *cell {
                assert(contains_cell(self.slots@, *cell)) by {
                    assert(0 <= i < self.slots@.len() && self.slots@[i as int].cell == *cell);
                }
                return true;
            }
            i += 1;
        }
        false
    }

    /// The index of the slot bound to the cell, if any: the borrow into the
    /// cache is re-resolved each frame as an index, never persisted.
    pub fn get(&self, cell: &HEALPixCell) -> (r: Option<usize>)
        ensures
            match r {
                Some(i) => i < self.slots@.len() && self.slots@[i as int].cell == *cell,
                None => !contains_cell(self.slots@, *cell),
            },
    {
        let n = self.slots.len();
        let mut i: usize = 0;
        while i < n
            invariant
                n == self.slots@.len(),
                i <= n,
                forall|k: int| 0 <= k < i ==> self.slots@[k].cell != *cell,
            decreases n - i,
        {
            if self.slots[i].cell == *cell {
                return Some(i);
            }
            i += 1;
        }
        None
    }

    pub fn get_slot(&self, i: usize) -> (r: &Texture)
        requires
            i < self.slots@.len(),
        ensures
            r == &self.slots@[i as int],
    {
        &self.slots[i]
    }

    pub fn len(&self) -> (r: usize)
        ensures
            r == self.slots@.len(),
    {
        self.slots.len()
    }

    /// True once all twelve base cells are resident: only then may the
    /// renderer draw, and only then is `get_nearest_parent` total.
    pub fn is_ready(&self) -> (r: bool)
        ensures
            r == spec_ready(self.slots@),
    {
        let mut k: u64 = 0;
        while k < 12
            invariant
                k <= 12,
                forall|j: u64| j < k ==> contains_cell(self.slots@, HEALPixCell { depth: 0, idx: j }),
            decreases 12 - k,
        {
            if !self.contains(&HEALPixCell { depth: 0, idx: k }) {
                return false;
            }
            k += 1;
        }
        true
    }

    /// Walks the parent chain of `cell` until a resident cell is found.
    /// Callers check `is_ready` first: with the base cells resident the walk
    /// always ends on a resident cell, at worst a base cell. A base cell is
    /// returned unchanged.
    pub fn get_nearest_parent(&self, cell: &HEALPixCell) -> (r: HEALPixCell)
        requires
            cell.well_formed(),
            spec_ready(self.slots@),
        ensures
            r == spec_nearest_parent(self.slots@, *cell),
            r.well_formed(),
            contains_cell(self.slots@, r),
            r == cell.spec_ancestor_at(r.depth as nat),
            cell.depth > 0 ==> r.depth < cell.depth,
            cell.depth == 0 ==> r == *cell,
            forall|d: nat|
                r.depth < d < cell.depth ==> !contains_cell(
                    self.slots@,
                    cell.spec_ancestor_at(d),
                ),
    {
        proof {
            lemma_ancestor_at_self(*cell);
        }
        if cell.depth == 0 {
            proof {
                assert(cell.idx < 12) by {
                    assert(n_cells(0) == 12 * pow4(0));
                    assert(pow4(0) == 1);
                }
                assert(contains_cell(self.slots@, *cell)) by {
                    assert(*cell == HEALPixCell { depth: 0, idx: cell.idx });
                }
            }
            return *cell;
        }
        let mut a = cell.parent();
        proof {
            lemma_ancestor_parent(*cell, cell.depth as nat);
        }
        while a.depth > 0 && !self.contains(&a)
            invariant
                cell.well_formed(),
                spec_ready(self.slots@),
                a.well_formed(),
                a.depth < cell.depth,
                a == cell.spec_ancestor_at(a.depth as nat),
                spec_walk_up(self.slots@, a) == spec_nearest_parent(self.slots@, *cell),
                forall|d: nat|
                    a.depth < d < cell.depth ==> !contains_cell(
                        self.slots@,
                        cell.spec_ancestor_at(d),
                    ),
            decreases a.depth,
        {
            let ghost a_old = a;
            a = a.parent();
            proof {
                lemma_ancestor_parent(*cell, a_old.depth as nat);
                assert forall|d: nat| a.depth < d < cell.depth implies !contains_cell(
                    self.slots@,
                    cell.spec_ancestor_at(d),
                ) by {
                    if d == a_old.depth {
                        lemma_ancestor_at_self(a_old);
                    }
                }
            }
        }
        proof {
            if a.depth == 0 && !contains_cell(self.slots@, a) {
                lemma_ancestor_well_formed(*cell, 0);
                assert(n_cells(0) == 12 * pow4(0));
                assert(pow4(0) == 1);
                assert(a == HEALPixCell { depth: 0, idx: a.idx });
                assert(a.idx < 12);
                assert(contains_cell(self.slots@, HEALPixCell { depth: 0, idx: a.idx }));
            }
        }
        a
    }

    /// Inserts or overwrites the slot bound to `cell`; when every slot is
    /// taken, evicts the least recently requested slot whose cell is neither
    /// a base cell nor on screen. Returns whether the tile got a slot (it
    /// does not only when the atlas is full of base or on-screen cells).
    /// Overwriting keeps the original arrival time: a placeholder later
    /// replaced by real data does not restart its blend animation.
    pub fn push(
        &mut self,
        cell: &HEALPixCell,
        time_request: u64,
        now: u64,
        missing: bool,
        view: &Vec<HEALPixCell>,
    ) -> (pushed: bool)
        requires
            old(self).inv(),
            cell.well_formed(),
        ensures
            final(self).inv(),
            final(self).config == old(self).config,
            final(self).slots@ == spec_push(
                old(self).slots@,
                *cell,
                time_request,
                now,
                missing,
                view@,
                old(self).config.capacity as int,
            ),
            pushed == contains_cell(final(self).slots@, *cell),
            pushed ==> final(self).available_tiles_flag,
            !pushed ==> *final(self) == *old(self),
            spec_ready(old(self).slots@) ==> spec_ready(final(self).slots@),
    {
        let ghost slots0 = self.slots@;
        let ghost cap = self.config.capacity as int;
        match self.get(cell) {
            Some(i) => {
                let t = self.slots[i];
                proof {
                    let j = spec_index_of(slots0, *cell);
                    assert(0 <= j < slots0.len() && slots0[j].cell == *cell);
                    assert(i == j) by {
                        if i < j {
                            assert(slots0[i as int].cell != slots0[j].cell);
                        } else if j < i as int {
                            assert(slots0[j].cell != slots0[i as int].cell);
                        }
                    }
                }
                self.slots.set(
                    i,
                    Texture { cell: *cell, start_time: t.start_time, time_request, missing },
                );
                self.available_tiles_flag = true;
                proof {
                    lemma_update_keeps(slots0, i as int, self.slots@[i as int], *cell, view@);
                }
                true
            },
            None => {
                if self.slots.len() < self.config.capacity {
                    self.slots.push(
                        Texture { cell: *cell, start_time: now, time_request, missing },
                    );
                    self.available_tiles_flag = true;
                    proof {
                        assert(contains_cell(self.slots@, *cell)) by {
                            assert(self.slots@[slots0.len() as int].cell == *cell);
                        }
                        if spec_ready(slots0) {
                            assert forall|k: u64| k < 12 implies contains_cell(
                                self.slots@,
                                HEALPixCell { depth: 0, idx: k },
                            ) by {
                                assert(contains_cell(slots0, HEALPixCell { depth: 0, idx: k }));
                                let w = choose|i: int|
                                    0 <= i < slots0.len() && slots0[i].cell == HEALPixCell {
                                        depth: 0,
                                        idx: k,
                                    };
                                assert(self.slots@[w].cell == HEALPixCell { depth: 0, idx: k });
                            }
                            assert(spec_ready(self.slots@));
                        }
                    }
                    true
                } else {
                    match self.find_victim(view) {
                        Some(j) => {
                            proof {
                                lemma_victim_in_props(slots0, view@, slots0.len() as int);
                            }
                            self.slots.set(
                                j,
                                Texture {
                                    cell: *cell,
                                    start_time: now,
                                    time_request,
                                    missing,
                                },
                            );
                            self.available_tiles_flag = true;
                            proof {
                                lemma_update_keeps(slots0, j as int, self.slots@[j as int], *cell, view@);
                            }
                            true
                        },
                        None => false,
                    }
                }
            },
        }
    }

    /// The slot to reassign under capacity pressure: the first slot of
    /// minimal request time among those that are evictable.
    fn find_victim(&self, view: &Vec<HEALPixCell>) -> (r: Option<usize>)
        ensures
            match r {
                Some(j) => j < self.slots@.len() && Some(j as int) == spec_victim(
                    self.slots@,
                    view@,
                ),
                None => spec_victim(self.slots@, view@) is None,
            },
    {
        let n = self.slots.len();
        let mut best: Option<usize> = None;
        let mut i: usize = 0;
        while i < n
            invariant
                n == self.slots@.len(),
                i <= n,
                match best {
                    Some(j) => j < n && Some(j as int) == spec_victim_in(
                        self.slots@,
                        view@,
                        i as int,
                    ),
                    None => spec_victim_in(self.slots@, view@, i as int) is None,
                },
            decreases n - i,
        {
            let t = self.slots[i];
            if t.cell.depth > 0 && !cell_in_vec(view, &t.cell) {
                match best {
                    Some(j) => {
                        if t.time_request < self.slots[j].time_request {
                            best = Some(i);
                        }
                    },
                    None => {
                        best = Some(i);
                    },
                }
            }
            i += 1;
        }
        best
    }

    /// Lightweight presence marker: a tile the resolver reports as already
    /// fetched raises the availability edge trigger so the draw path rebuilds
    /// its buffers, without a full image push. Deliberately nothing more:
    /// fetch-in-flight bookkeeping lives with the resolver, and the cache
    /// binds a slot only when a tile (or its placeholder) actually arrives
    /// through `push`, so there is no stale presence to reconcile here.
    pub fn register_available_tile(&mut self, _cell: &HEALPixCell)
        ensures
            *final(self) == (ImageSurveyTextures {
                available_tiles_flag: true,
                ..*old(self)
            }),
    {
        self.available_tiles_flag = true;
    }

    /// Edge trigger, consumed by the draw path: true exactly when some slot
    /// changed since the last query; the query resets it.
    pub fn is_there_available_tiles(&mut self) -> (r: bool)
        ensures
            r == old(self).available_tiles_flag,
            !final(self).available_tiles_flag,
            final(self).slots@ == old(self).slots@,
            final(self).config == old(self).config,
    {
        let r = self.available_tiles_flag;
        self.available_tiles_flag = false;
        r
    }
}

} // verus!
