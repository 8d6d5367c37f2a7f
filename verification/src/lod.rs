//! Level-of-detail selector: per visible cell, which two cached textures
//! anchor the blend animation, keyed by the camera motion. While a cell's
//! own tile is still loading, pan and zoom-in show the two coarsest
//! available ancestor levels refining into each other; once the tile is
//! there they animate from the last-shown ancestor into it; zoom-out never
//! animates a refinement and snaps to the best available level at once.

use vstd::prelude::*;
use crate::cell::HEALPixCell;
use crate::cell::lemma_ancestor_at_self;
use crate::cell::lemma_ancestor_compose;
use crate::cell::lemma_ancestor_parent;
use crate::cell::lemma_parent_well_formed;
use crate::textures::ImageSurveyTextures;
use crate::textures::Texture;
use crate::textures::contains_cell;
use crate::textures::spec_nearest_parent;
use crate::textures::spec_ready;
use crate::textures::spec_walk_up;
use crate::view::HEALPixCellsInView;

verus! {

/// The blend anchors of one visible cell: indices of the atlas slot the
/// animation starts from and of the slot it ends on. Ephemeral: indices are
/// re-resolved from the cache every frame and never persisted.
#[derive(Clone, Copy, PartialEq, Eq, Structural, Debug)]
pub struct TextureToDraw {
    pub starting_texture: usize,
    pub ending_texture: usize,
}

impl TextureToDraw {
    pub fn new(starting_texture: usize, ending_texture: usize) -> (r: TextureToDraw)
        ensures
            r.starting_texture == starting_texture,
            r.ending_texture == ending_texture,
    {
        TextureToDraw { starting_texture, ending_texture }
    }
}

/// The blend anchors of every visible cell, aligned with the viewport's
/// cell order.
pub struct TexturesToDraw(pub Vec<TextureToDraw>);

impl TexturesToDraw {
    pub fn new(capacity: usize) -> (r: TexturesToDraw)
        ensures
            r.0@.len() == 0,
    {
        let states = Vec::with_capacity(capacity);
        TexturesToDraw(states)
    }

    pub fn len(&self) -> (r: usize)
        ensures
            r == self.0@.len(),
    {
        self.0.len()
    }

    pub fn get(&self, i: usize) -> (r: &TextureToDraw)
        requires
            i < self.0@.len(),
        ensures
            r == &self.0@[i as int],
    {
        &self.0[i]
    }
}

/// The cell whose slot a pan or zoom-in blend starts from: the nearest
/// resident ancestor of the cell when its own tile is resident, else the
/// nearest resident ancestor of that ancestor (the coarser of the two best
/// available levels).
pub open spec fn spec_start_cell_move(slots: Seq<Texture>, c: HEALPixCell) -> HEALPixCell {
    if contains_cell(slots, c) {
        spec_nearest_parent(slots, c)
    } else {
        spec_nearest_parent(slots, spec_nearest_parent(slots, c))
    }
}

/// The cell whose slot a pan or zoom-in blend ends on: the cell itself when
/// resident, else its nearest resident ancestor.
pub open spec fn spec_end_cell_move(slots: Seq<Texture>, c: HEALPixCell) -> HEALPixCell {
    if contains_cell(slots, c) {
        c
    } else {
        spec_nearest_parent(slots, c)
    }
}

/// Zoom-out snaps: start and end are the same slot, the cell's own when
/// resident, else its nearest resident ancestor.
pub open spec fn spec_cell_unzoom(slots: Seq<Texture>, c: HEALPixCell) -> HEALPixCell {
    if contains_cell(slots, c) {
        c
    } else {
        spec_nearest_parent(slots, c)
    }
}

/// One strategy per camera motion for picking the blend anchors of the
/// visible cells.
pub trait RecomputeRasterizer {
    /// The cell whose slot the blend of a visible cell starts from.
    spec fn spec_start_cell(slots: Seq<Texture>, c: HEALPixCell) -> HEALPixCell;

    /// The cell whose slot the blend of a visible cell ends on.
    spec fn spec_end_cell(slots: Seq<Texture>, c: HEALPixCell) -> HEALPixCell;

    /// One blend pair per visible cell, aligned with the viewport's cell
    /// order, each anchored on resident slots.
    fn get_textures_from_survey(view: &HEALPixCellsInView, survey: &ImageSurveyTextures) -> (r:
        TexturesToDraw)
        requires
            survey.inv(),
            spec_ready(survey.slots@),
            view.inv(),
        ensures
            r.0@.len() == view.cells@.len(),
            forall|i: int|
                0 <= i < r.0@.len() ==> (#[trigger] r.0@[i]).starting_texture
                    < survey.slots@.len() && r.0@[i].ending_texture < survey.slots@.len()
                    && survey.slots@[r.0@[i].starting_texture as int].cell
                    == Self::spec_start_cell(survey.slots@, view.cells@[i])
                    && survey.slots@[r.0@[i].ending_texture as int].cell == Self::spec_end_cell(
                    survey.slots@,
                    view.cells@[i],
                ),
    ;
}

/// Pan: the camera moved without a zoom change.
pub struct Move;

/// Zoom-in: the field of view is narrowing.
pub struct Zoom;

/// Zoom-out: the field of view is widening.
pub struct UnZoom;

impl RecomputeRasterizer for Move {
    open spec fn spec_start_cell(slots: Seq<Texture>, c: HEALPixCell) -> HEALPixCell {
        spec_start_cell_move(slots, c)
    }

    open spec fn spec_end_cell(slots: Seq<Texture>, c: HEALPixCell) -> HEALPixCell {
        spec_end_cell_move(slots, c)
    }

    fn get_textures_from_survey(view: &HEALPixCellsInView, survey: &ImageSurveyTextures) -> (r:
        TexturesToDraw)
    {
        select_blend_pairs(view, survey)
    }
}

impl RecomputeRasterizer for Zoom {
    open spec fn spec_start_cell(slots: Seq<Texture>, c: HEALPixCell) -> HEALPixCell {
        spec_start_cell_move(slots, c)
    }

    open spec fn spec_end_cell(slots: Seq<Texture>, c: HEALPixCell) -> HEALPixCell {
        spec_end_cell_move(slots, c)
    }

    fn get_textures_from_survey(view: &HEALPixCellsInView, survey: &ImageSurveyTextures) -> (r:
        TexturesToDraw)
    {
        select_blend_pairs(view, survey)
    }
}

impl RecomputeRasterizer for UnZoom {
    open spec fn spec_start_cell(slots: Seq<Texture>, c: HEALPixCell) -> HEALPixCell {
        spec_cell_unzoom(slots, c)
    }

    open spec fn spec_end_cell(slots: Seq<Texture>, c: HEALPixCell) -> HEALPixCell {
        spec_cell_unzoom(slots, c)
    }

    fn get_textures_from_survey(view: &HEALPixCellsInView, survey: &ImageSurveyTextures) -> (r:
        TexturesToDraw)
    {
        let cells = view.get_cells();
        let n = cells.len();
        let mut textures = TexturesToDraw::new(n);
        let mut i: usize = 0;
        while i < n
            invariant
                survey.inv(),
                spec_ready(survey.slots@),
                view.inv(),
                n == view.cells@.len(),
                cells == &view.cells,
                i <= n,
                textures.0@.len() == i,
                forall|k: int|
                    0 <= k < i ==> (#[trigger] textures.0@[k]).starting_texture
                        < survey.slots@.len() && textures.0@[k].ending_texture
                        < survey.slots@.len() && survey.slots@[textures.0@[
                        k].starting_texture as int].cell == spec_cell_unzoom(
                        survey.slots@,
                        view.cells@[k],
                    ) && survey.slots@[textures.0@[k].ending_texture as int].cell
                        == spec_cell_unzoom(survey.slots@, view.cells@[k]),
            decreases n - i,
        {
            let cell = cells[i];
            let pair = if survey.contains(&cell) {
                let e = slot_index_of(survey, &cell);
                TextureToDraw::new(e, e)
            } else {
                let parent_cell = survey.get_nearest_parent(&cell);
                let e = slot_index_of(survey, &parent_cell);
                TextureToDraw::new(e, e)
            };
            textures.0.push(pair);
            i += 1;
        }
        textures
    }
}

/// The slot index of a cell known to be resident.
fn slot_index_of(survey: &ImageSurveyTextures, cell: &HEALPixCell) -> (r: usize)
    requires
        contains_cell(survey.slots@, *cell),
    ensures
        r < survey.slots@.len(),
        survey.slots@[r as int].cell == *cell,
{
    match survey.get(cell) {
        Some(i) => i,
        None => {
            proof {
                assert(false);
            }
            0
        },
    }
}

/// The shared pan / zoom-in selection: ancestor into own tile when the own
/// tile is resident, else grandparent-or-further into parent-or-closer.
fn select_blend_pairs(view: &HEALPixCellsInView, survey: &ImageSurveyTextures) -> (r:
    TexturesToDraw)
    requires
        survey.inv(),
        spec_ready(survey.slots@),
        view.inv(),
    ensures
        r.0@.len() == view.cells@.len(),
        forall|i: int|
            0 <= i < r.0@.len() ==> (#[trigger] r.0@[i]).starting_texture < survey.slots@.len()
                && r.0@[i].ending_texture < survey.slots@.len() && survey.slots@[r.0@[
                i].starting_texture as int].cell == spec_start_cell_move(
                survey.slots@,
                view.cells@[i],
            ) && survey.slots@[r.0@[i].ending_texture as int].cell == spec_end_cell_move(
                survey.slots@,
                view.cells@[i],
            ),
{
    let cells = view.get_cells();
    let n = cells.len();
    let mut textures = TexturesToDraw::new(n);
    let mut i: usize = 0;
    while i < n
        invariant
            survey.inv(),
            spec_ready(survey.slots@),
            view.inv(),
            n == view.cells@.len(),
            cells == &view.cells,
            i <= n,
            textures.0@.len() == i,
            forall|k: int|
                0 <= k < i ==> (#[trigger] textures.0@[k]).starting_texture
                    < survey.slots@.len() && textures.0@[k].ending_texture
                    < survey.slots@.len() && survey.slots@[textures.0@[
                    k].starting_texture as int].cell == spec_start_cell_move(
                    survey.slots@,
                    view.cells@[k],
                ) && survey.slots@[textures.0@[k].ending_texture as int].cell
                    == spec_end_cell_move(survey.slots@, view.cells@[k]),
        decreases n - i,
    {
        let cell = cells[i];
        let pair = if survey.contains(&cell) {
            let parent_cell = survey.get_nearest_parent(&cell);
            let ending = slot_index_of(survey, &cell);
            let starting = slot_index_of(survey, &parent_cell);
            TextureToDraw::new(starting, ending)
        } else {
            let parent_cell = survey.get_nearest_parent(&cell);
            let grand_parent_cell = survey.get_nearest_parent(&parent_cell);
            let ending = slot_index_of(survey, &parent_cell);
            let starting = slot_index_of(survey, &grand_parent_cell);
            TextureToDraw::new(starting, ending)
        };
        textures.0.push(pair);
        i += 1;
    }
    textures
}

/// Motion-dependent selection for a cell whose own tile is resident: pan
/// and zoom-in blend from the nearest resident ancestor into the cell's own
/// tile, while zoom-out snaps, start equal to end, on the own tile.
pub proof fn lemma_selection_resident(slots: Seq<Texture>, c: HEALPixCell)
    requires
        contains_cell(slots, c),
    ensures
        spec_start_cell_move(slots, c) == spec_nearest_parent(slots, c),
        spec_end_cell_move(slots, c) == c,
        spec_cell_unzoom(slots, c) == c,
{
}

/// When only base cells are resident, the walk towards the base cells ends
/// on the base-cell ancestor.
proof fn lemma_walk_up_only_base(slots: Seq<Texture>, a: HEALPixCell)
    requires
        a.well_formed(),
        forall|i: int| 0 <= i < slots.len() ==> (#[trigger] slots[i]).cell.depth == 0,
    ensures
        spec_walk_up(slots, a) == a.spec_ancestor_at(0),
    decreases a.depth,
{
    if a.depth == 0 {
        lemma_ancestor_at_self(a);
    } else {
        assert(!contains_cell(slots, a)) by {
            if contains_cell(slots, a) {
                let w = choose|i: int| 0 <= i < slots.len() && slots[i].cell == a;
                assert(slots[w].cell.depth == 0);
            }
        }
        lemma_parent_well_formed(a);
        lemma_walk_up_only_base(slots, a.spec_parent());
        lemma_ancestor_at_self(a);
        lemma_ancestor_parent(a, a.depth as nat);
        lemma_ancestor_compose(a, (a.depth - 1) as nat, 0);
    }
}

/// Graceful degradation: with only base cells resident, a deeper visible
/// cell blends its base-cell ancestor into itself under pan or zoom-in,
/// since nearest parent and nearest grandparent both resolve to that same
/// base-cell ancestor.
pub proof fn lemma_selection_only_base_resident(slots: Seq<Texture>, c: HEALPixCell)
    requires
        c.well_formed(),
        c.depth > 0,
        !contains_cell(slots, c),
        forall|i: int| 0 <= i < slots.len() ==> (#[trigger] slots[i]).cell.depth == 0,
    ensures
        spec_start_cell_move(slots, c) == c.spec_ancestor_at(0),
        spec_end_cell_move(slots, c) == c.spec_ancestor_at(0),
{
    lemma_parent_well_formed(c);
    lemma_walk_up_only_base(slots, c.spec_parent());
    lemma_ancestor_parent(c, c.depth as nat);
    lemma_ancestor_at_self(c);
    lemma_ancestor_compose(c, (c.depth - 1) as nat, 0);
    assert(spec_nearest_parent(slots, c) == c.spec_ancestor_at(0));
    assert(spec_nearest_parent(slots, c.spec_ancestor_at(0)) == c.spec_ancestor_at(0));
}

} // verus!
