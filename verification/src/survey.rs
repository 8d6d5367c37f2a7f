//! One survey layer: its texture cache, its viewport cell set, and the
//! CPU-side geometry buffers of the rasterizer. Per frame the survey decides
//! whether to skip (cache not ready), ray-trace, or rasterize, and rebuilds
//! its buffers exactly when the visible cells, the cache contents, or the
//! rendering mode changed. The sink consumes the buffers and issues the GPU
//! call.

use vstd::prelude::*;
use crate::cell::spec_num_subdivision;
use crate::cell::num_subdivision;
use crate::config::HiPSConfig;
use crate::lod::Move;
use crate::lod::RecomputeRasterizer;
use crate::lod::UnZoom;
use crate::lod::Zoom;
use crate::lod::spec_start_cell_move;
use crate::lod::spec_end_cell_move;
use crate::lod::spec_cell_unzoom;
use crate::mesh::MAX_NUM_CELLS_TO_DRAW;
use crate::mesh::add_grid_indices;
use crate::mesh::add_vertices_grid;
use crate::mesh::quad_index;
use crate::mesh::spec_tile_uvw;
use crate::mesh::tile_uvw;
use crate::mesh::uv_num;
use crate::textures::ImageSurveyTextures;
use crate::textures::Texture;
use crate::textures::lemma_index_unique;
use crate::textures::spec_index_of;
use crate::textures::spec_push;
use crate::textures::spec_ready;
use crate::view::CameraFrame;
use crate::view::HEALPixCellsInView;
use crate::view::UserAction;
use crate::cell::HEALPixCell;

verus! {

/// The cell a blend starts from under the given motion.
pub open spec fn spec_start_cell_for(
    action: UserAction,
    slots: Seq<Texture>,
    c: HEALPixCell,
) -> HEALPixCell {
    match action {
        UserAction::Unzooming => spec_cell_unzoom(slots, c),
        _ => spec_start_cell_move(slots, c),
    }
}

/// The cell a blend ends on under the given motion.
pub open spec fn spec_end_cell_for(
    action: UserAction,
    slots: Seq<Texture>,
    c: HEALPixCell,
) -> HEALPixCell {
    match action {
        UserAction::Unzooming => spec_cell_unzoom(slots, c),
        _ => spec_end_cell_move(slots, c),
    }
}

/// The atlas rectangle of the slot holding the given cell.
pub open spec fn slot_uvw(slots: Seq<Texture>, c: HEALPixCell, cfg: HiPSConfig) -> TileUVWSpec {
    TileUVWSpec { idx: spec_index_of(slots, c), cfg }
}

/// A named atlas rectangle: the slot index and the atlas geometry.
pub struct TileUVWSpec {
    pub idx: int,
    pub cfg: HiPSConfig,
}

impl TileUVWSpec {
    pub open spec fn uvw(self) -> crate::mesh::TileUVW {
        spec_tile_uvw(self.idx, self.cfg.atlas_side as int, self.cfg.tile_size as int)
    }
}

/// The rasterizer's vertex buffers hold, cell block by cell block, the
/// interpolated texture coordinates of the blend pair each visible cell
/// selected under the given motion, the blend start time (the end slot's
/// arrival time), and the two placeholder flags.
pub open spec fn uv_buffers_match(s: ImageSurvey, action: UserAction) -> bool {
    let slots = s.textures.slots@;
    let cfg = s.textures.config;
    let cells = s.view.cells@;
    let ns = spec_num_subdivision(s.view.depth);
    let nv = 2 + ns as int;
    let b = nv * nv;
    let n = cells.len() as int;
    &&& s.time_tile_received@.len() == n * b
    &&& s.uv_start@.len() == 3 * (n * b)
    &&& s.uv_end@.len() == 3 * (n * b)
    &&& s.m0@.len() == n * b
    &&& s.m1@.len() == n * b
    &&& forall|k: int, i: int, j: int, comp: int|
        0 <= k < n && 0 <= i < nv && 0 <= j < nv && 0 <= comp < 3 ==> s.uv_start@[3 * (k * b + i
            * nv + j) + comp] == uv_num(
            slot_uvw(slots, spec_start_cell_for(action, slots, cells[k]), cfg).uvw(),
            ns,
            i,
            j,
            comp,
        )
    &&& forall|k: int, i: int, j: int, comp: int|
        0 <= k < n && 0 <= i < nv && 0 <= j < nv && 0 <= comp < 3 ==> s.uv_end@[3 * (k * b + i
            * nv + j) + comp] == uv_num(
            slot_uvw(slots, spec_end_cell_for(action, slots, cells[k]), cfg).uvw(),
            ns,
            i,
            j,
            comp,
        )
    &&& forall|t: int|
        0 <= t < n * b ==> s.time_tile_received@[t] == slots[spec_index_of(
            slots,
            spec_end_cell_for(action, slots, cells[t / b]),
        )].start_time
    &&& forall|t: int|
        0 <= t < n * b ==> s.m0@[t] == slots[spec_index_of(
            slots,
            spec_start_cell_for(action, slots, cells[t / b]),
        )].missing
    &&& forall|t: int|
        0 <= t < n * b ==> s.m1@[t] == slots[spec_index_of(
            slots,
            spec_end_cell_for(action, slots, cells[t / b]),
        )].missing
}

/// The element-buffer position of triangle-corner `t` of quad `(i, j)` of
/// cell block `kk`, for a block stride `blk` and `nseg` quads per row.
pub open spec fn idx_pos(kk: int, blk: int, i: int, nseg: int, j: int, t: int) -> int {
    kk * blk + 6 * (i * nseg + j) + t
}

/// The rasterizer's element buffer holds, cell block by cell block, the two
/// triangles of every grid quad of every visible cell.
pub open spec fn idx_buffer_matches(s: ImageSurvey) -> bool {
    let ns = spec_num_subdivision(s.view.depth);
    let nv = 2 + ns as int;
    let nseg = 1 + ns as int;
    let n = s.view.cells@.len() as int;
    &&& s.idx_vertices@.len() == n * (6 * (nseg * nseg))
    &&& s.num_idx == s.idx_vertices@.len()
    &&& forall|k: int, i: int, j: int, t: int|
        0 <= k < n && 0 <= i < nseg && 0 <= j < nseg && 0 <= t < 6 ==> s.idx_vertices@[#[trigger] idx_pos(
            k,
            6 * (nseg * nseg),
            i,
            nseg,
            j,
            t,
        )] == k * (nv * nv) + quad_index(ns, i, j, t)
}

/// What one survey's frame step decided: skip while the base cells are
/// still loading, draw by per-pixel ray casting, or draw the rasterized
/// mesh, saying whether the geometry buffers were rebuilt this frame.
#[derive(Clone, Copy, PartialEq, Eq, Structural, Debug)]
pub enum SurveyFrame {
    NotReady,
    Raytrace { depth: u8 },
    Rasterize { recomputed: bool, num_idx: usize },
}

/// One image survey: cache, viewport, geometry buffers.
pub struct ImageSurvey {
    pub textures: ImageSurveyTextures,
    pub view: HEALPixCellsInView,
    pub uv_start: Vec<u64>,
    pub uv_end: Vec<u64>,
    pub time_tile_received: Vec<u64>,
    pub m0: Vec<bool>,
    pub m1: Vec<bool>,
    pub idx_vertices: Vec<u16>,
    pub num_idx: usize,
}

impl ImageSurvey {
    pub open spec fn inv(self) -> bool {
        &&& self.textures.inv()
        &&& self.view.inv()
    }

    pub fn new(config: HiPSConfig, camera: &CameraFrame) -> (r: ImageSurvey)
        requires
            config.well_formed(),
            camera.well_formed(),
        ensures
            r.inv(),
            r.textures.config == config,
            r.textures.slots@.len() == 0,
            !r.textures.available_tiles_flag,
            crate::view::depth_selected(
                config.tile_size,
                config.max_depth,
                camera.base_cell_px,
                r.view.depth,
            ),
            crate::view::view_matches(r.view.cells@, r.view.depth, camera.coverage@),
            r.view.is_new_cells_added,
            r.view.user_action == camera.user_action,
            r.uv_start@.len() == 0,
            r.uv_end@.len() == 0,
            r.time_tile_received@.len() == 0,
            r.m0@.len() == 0,
            r.m1@.len() == 0,
            r.idx_vertices@.len() == 0,
            r.num_idx == 0,
    {
        let tile_size = config.tile_size;
        let max_depth = config.max_depth;
        let textures = ImageSurveyTextures::new(config);
        let view = HEALPixCellsInView::new(tile_size, max_depth, camera);
        ImageSurvey {
            textures,
            view,
            uv_start: Vec::new(),
            uv_end: Vec::new(),
            time_tile_received: Vec::new(),
            m0: Vec::new(),
            m1: Vec::new(),
            idx_vertices: Vec::new(),
            num_idx: 0,
        }
    }

    pub fn longitude_reversed(&self) -> (r: bool)
        ensures
            r == self.textures.config.longitude_reversed,
    {
        self.textures.config.longitude_reversed
    }

    pub fn reset_frame(&mut self)
        ensures
            *final(self) == (ImageSurvey {
                view: (HEALPixCellsInView { is_new_cells_added: false, ..old(self).view }),
                ..*old(self)
            }),
            old(self).inv() ==> final(self).inv(),
    {
        self.view.reset_frame();
    }

    /// Recomputes the viewport cell set from the camera.
    pub fn refresh_view(&mut self, camera: &CameraFrame)
        requires
            old(self).inv(),
            camera.well_formed(),
        ensures
            final(self).inv(),
            final(self).textures == old(self).textures,
            final(self).uv_start == old(self).uv_start,
            final(self).uv_end == old(self).uv_end,
            final(self).time_tile_received == old(self).time_tile_received,
            final(self).m0 == old(self).m0,
            final(self).m1 == old(self).m1,
            final(self).idx_vertices == old(self).idx_vertices,
            final(self).num_idx == old(self).num_idx,
            crate::view::depth_selected(
                old(self).textures.config.tile_size,
                old(self).textures.config.max_depth,
                camera.base_cell_px,
                final(self).view.depth,
            ),
            crate::view::view_matches(
                final(self).view.cells@,
                final(self).view.depth,
                camera.coverage@,
            ),
            final(self).view.is_new_cells_added == (final(self).view.cells@ != old(self).view.cells@),
            final(self).view.user_action == camera.user_action,
    {
        let tile_size = self.textures.config.tile_size;
        let max_depth = self.textures.config.max_depth;
        self.view.refresh_cells(tile_size, max_depth, camera);
    }

    pub fn get_textures(&self) -> (r: &ImageSurveyTextures)
        ensures
            r == &self.textures,
    {
        &self.textures
    }

    pub fn get_textures_mut(&mut self) -> (r: &mut ImageSurveyTextures)
        ensures
            final(self).textures == *final(r),
            final(self).view == old(self).view,
            final(self).uv_start == old(self).uv_start,
            final(self).uv_end == old(self).uv_end,
            final(self).time_tile_received == old(self).time_tile_received,
            final(self).m0 == old(self).m0,
            final(self).m1 == old(self).m1,
            final(self).idx_vertices == old(self).idx_vertices,
            final(self).num_idx == old(self).num_idx,
    {
        &mut self.textures
    }

    pub fn get_view(&self) -> (r: &HEALPixCellsInView)
        ensures
            r == &self.view,
    {
        &self.view
    }

    /// Rebuilds the texture-coordinate buffers with the blend pairs the
    /// camera's motion selects.
    pub fn set_uvs(&mut self, camera: &CameraFrame)
        requires
            old(self).inv(),
            spec_ready(old(self).textures.slots@),
            old(self).view.cells@.len() <= MAX_NUM_CELLS_TO_DRAW,
        ensures
            final(self).inv(),
            final(self).textures == old(self).textures,
            final(self).view == old(self).view,
            final(self).idx_vertices == old(self).idx_vertices,
            final(self).num_idx == old(self).num_idx,
            uv_buffers_match(*final(self), camera.user_action),
    {
        match camera.user_action {
            UserAction::Unzooming => {
                self.update_uvs::<UnZoom>(Ghost(UserAction::Unzooming));
            },
            UserAction::Zooming => {
                self.update_uvs::<Zoom>(Ghost(UserAction::Zooming));
            },
            UserAction::Moving => {
                self.update_uvs::<Move>(Ghost(UserAction::Moving));
            },
        }
    }

    /// Rebuilds the texture-coordinate buffers with the blend pairs the
    /// strategy `T` selects for the visible cells.
    fn update_uvs<T: RecomputeRasterizer>(&mut self, Ghost(action): Ghost<UserAction>)
        requires
            old(self).inv(),
            spec_ready(old(self).textures.slots@),
            old(self).view.cells@.len() <= MAX_NUM_CELLS_TO_DRAW,
            forall|c: HEALPixCell| #[trigger] T::spec_start_cell(old(self).textures.slots@, c)
                == spec_start_cell_for(action, old(self).textures.slots@, c),
            forall|c: HEALPixCell| #[trigger] T::spec_end_cell(old(self).textures.slots@, c)
                == spec_end_cell_for(action, old(self).textures.slots@, c),
        ensures
            final(self).inv(),
            final(self).textures == old(self).textures,
            final(self).view == old(self).view,
            final(self).idx_vertices == old(self).idx_vertices,
            final(self).num_idx == old(self).num_idx,
            uv_buffers_match(*final(self), action),
    {
        self.uv_start = Vec::new();
        self.uv_end = Vec::new();
        self.time_tile_received = Vec::new();
        self.m0 = Vec::new();
        self.m1 = Vec::new();
        let textures_to_draw = T::get_textures_from_survey(&self.view, &self.textures);
        let depth = self.view.get_depth();
        let ns = num_subdivision(depth);
        let nv: usize = 2 + ns as usize;
        let ghost nvi = nv as int;
        let ghost b = nvi * nvi;
        let ghost slots = self.textures.slots@;
        let ghost cells = self.view.cells@;
        let ghost cfg = self.textures.config;
        let n = self.view.num_of_cells();
        let mut k: usize = 0;
        proof {
            assert(b <= 49 && b >= 4) by (nonlinear_arith)
                requires
                    2 <= nvi <= 7,
                    b == nvi * nvi,
            ;
        }
        while k < n
            invariant
                self.textures.inv(),
                self.view.inv(),
                spec_ready(self.textures.slots@),
                slots == self.textures.slots@,
                cells == self.view.cells@,
                cfg == self.textures.config,
                self.textures == old(self).textures,
                self.view == old(self).view,
                self.idx_vertices == old(self).idx_vertices,
                self.num_idx == old(self).num_idx,
                n == cells.len(),
                n <= MAX_NUM_CELLS_TO_DRAW,
                ns == spec_num_subdivision(self.view.depth),
                ns <= 5,
                nv == 2 + ns as usize,
                nvi == nv as int,
                b == nvi * nvi,
                4 <= b <= 49,
                k <= n,
                textures_to_draw.0@.len() == n,
                forall|kk: int|
                    0 <= kk < n ==> (#[trigger] textures_to_draw.0@[kk]).starting_texture
                        < slots.len() && textures_to_draw.0@[kk].ending_texture < slots.len()
                        && slots[textures_to_draw.0@[kk].starting_texture as int].cell
                        == T::spec_start_cell(slots, cells[kk])
                        && slots[textures_to_draw.0@[kk].ending_texture as int].cell
                        == T::spec_end_cell(slots, cells[kk]),
                self.time_tile_received@.len() == k as int * b,
                self.uv_start@.len() == 3 * (k as int * b),
                self.uv_end@.len() == 3 * (k as int * b),
                self.m0@.len() == k as int * b,
                self.m1@.len() == k as int * b,
                forall|c: HEALPixCell| #[trigger] T::spec_start_cell(slots, c)
                    == spec_start_cell_for(action, slots, c),
                forall|c: HEALPixCell| #[trigger] T::spec_end_cell(slots, c)
                    == spec_end_cell_for(action, slots, c),
                forall|kk: int, i: int, j: int, comp: int|
                    0 <= kk < k && 0 <= i < nvi && 0 <= j < nvi && 0 <= comp < 3
                        ==> self.uv_start@[3 * (kk * b + i * nvi + j) + comp] == uv_num(
                        slot_uvw(slots, spec_start_cell_for(action, slots, cells[kk]), cfg).uvw(),
                        ns,
                        i,
                        j,
                        comp,
                    ),
                forall|kk: int, i: int, j: int, comp: int|
                    0 <= kk < k && 0 <= i < nvi && 0 <= j < nvi && 0 <= comp < 3
                        ==> self.uv_end@[3 * (kk * b + i * nvi + j) + comp] == uv_num(
                        slot_uvw(slots, spec_end_cell_for(action, slots, cells[kk]), cfg).uvw(),
                        ns,
                        i,
                        j,
                        comp,
                    ),
                forall|t: int|
                    0 <= t < k as int * b ==> self.time_tile_received@[t] == slots[spec_index_of(
                        slots,
                        spec_end_cell_for(action, slots, cells[t / b]),
                    )].start_time,
                forall|t: int|
                    0 <= t < k as int * b ==> self.m0@[t] == slots[spec_index_of(
                        slots,
                        spec_start_cell_for(action, slots, cells[t / b]),
                    )].missing,
                forall|t: int|
                    0 <= t < k as int * b ==> self.m1@[t] == slots[spec_index_of(
                        slots,
                        spec_end_cell_for(action, slots, cells[t / b]),
                    )].missing,
            decreases n - k,
        {
            let pair = *textures_to_draw.get(k);
            let start_slot = pair.starting_texture;
            let end_slot = pair.ending_texture;
            proof {
                lemma_index_unique(slots, slots[start_slot as int].cell, start_slot as int);
                lemma_index_unique(slots, slots[end_slot as int].cell, end_slot as int);
                assert(T::spec_start_cell(slots, cells[k as int]) == spec_start_cell_for(
                    action,
                    slots,
                    cells[k as int],
                ));
                assert(T::spec_end_cell(slots, cells[k as int]) == spec_end_cell_for(
                    action,
                    slots,
                    cells[k as int],
                ));
                assert(k as int * b <= 768 * 49) by (nonlinear_arith)
                    requires
                        0 <= k as int <= 768,
                        0 <= b <= 49,
                ;
            }
            let uv_0 = tile_uvw(start_slot, &self.textures.config);
            let uv_1 = tile_uvw(end_slot, &self.textures.config);
            let start_texture = *self.textures.get_slot(start_slot);
            let end_texture = *self.textures.get_slot(end_slot);
            let miss_0 = start_texture.is_missing();
            let miss_1 = end_texture.is_missing();
            let alpha = end_texture.start_time();
            let ghost base = self.time_tile_received@.len() as int;
            add_vertices_grid(
                ns,
                &mut self.uv_start,
                &mut self.uv_end,
                &mut self.time_tile_received,
                &mut self.m0,
                &mut self.m1,
                &uv_0,
                &uv_1,
                miss_0,
                miss_1,
                alpha,
            );
            proof {
                assert((k as int + 1) * b == k as int * b + b) by (nonlinear_arith);
                assert forall|kk: int, i: int, j: int, comp: int|
                    0 <= kk < k + 1 && 0 <= i < nvi && 0 <= j < nvi && 0 <= comp < 3
                    implies self.uv_start@[3 * (kk * b + i * nvi + j) + comp] == uv_num(
                    slot_uvw(slots, spec_start_cell_for(action, slots, cells[kk]), cfg).uvw(),
                    ns,
                    i,
                    j,
                    comp,
                ) && self.uv_end@[3 * (kk * b + i * nvi + j) + comp] == uv_num(
                    slot_uvw(slots, spec_end_cell_for(action, slots, cells[kk]), cfg).uvw(),
                    ns,
                    i,
                    j,
                    comp,
                ) by {
                    if kk < k {
                        lemma_block_below(kk, k as int, i, j, comp, nvi, b);
                    } else {
                        assert(kk == k);
                        assert(3 * (kk * b + i * nvi + j) + comp == 3 * (base + i * nvi + j)
                            + comp);
                    }
                }
                assert forall|t: int| 0 <= t < (k as int + 1) * b
                    implies self.time_tile_received@[t] == slots[spec_index_of(
                    slots,
                    spec_end_cell_for(action, slots, cells[t / b]),
                )].start_time && self.m0@[t] == slots[spec_index_of(
                    slots,
                    spec_start_cell_for(action, slots, cells[t / b]),
                )].missing && self.m1@[t] == slots[spec_index_of(
                    slots,
                    spec_end_cell_for(action, slots, cells[t / b]),
                )].missing by {
                    if t < k as int * b {
                        lemma_div_in_block(t, b);
                        assert(t / b < k as int) by {
                            if t / b >= k as int {
                                lemma_mul_le_mono(k as int, t / b, b);
                            }
                        }
                    } else {
                        lemma_div_block(t, k as int, b);
                        assert(t == base + (t - base));
                    }
                }
            }
            k += 1;
        }
        proof {
            assert(n as int * b == k as int * b) by {
                assert(k == n);
            }
        }
    }

    /// Rebuilds the triangle index buffer for the visible cells.
    pub fn set_positions(&mut self)
        requires
            old(self).inv(),
            old(self).view.cells@.len() <= MAX_NUM_CELLS_TO_DRAW,
        ensures
            final(self).inv(),
            final(self).textures == old(self).textures,
            final(self).view == old(self).view,
            final(self).uv_start == old(self).uv_start,
            final(self).uv_end == old(self).uv_end,
            final(self).time_tile_received == old(self).time_tile_received,
            final(self).m0 == old(self).m0,
            final(self).m1 == old(self).m1,
            idx_buffer_matches(*final(self)),
    {
        self.idx_vertices = Vec::new();
        let depth = self.view.get_depth();
        let ns = num_subdivision(depth);
        let nv: usize = 2 + ns as usize;
        let nseg: usize = 1 + ns as usize;
        let ghost nvi = nv as int;
        let ghost nsi = nseg as int;
        let ghost blk = 6 * (nsi * nsi);
        let ghost vb = nvi * nvi;
        let n = self.view.num_of_cells();
        let mut k: usize = 0;
        proof {
            assert(blk <= 6 * 36 && blk >= 6 && 4 <= vb <= 49) by (nonlinear_arith)
                requires
                    1 <= nsi <= 6,
                    2 <= nvi <= 7,
                    blk == 6 * (nsi * nsi),
                    vb == nvi * nvi,
            ;
        }
        while k < n
            invariant
                self.textures.inv(),
                self.view.inv(),
                self.textures == old(self).textures,
                self.view == old(self).view,
                self.uv_start == old(self).uv_start,
                self.uv_end == old(self).uv_end,
                self.time_tile_received == old(self).time_tile_received,
                self.m0 == old(self).m0,
                self.m1 == old(self).m1,
                n == self.view.cells@.len(),
                n <= MAX_NUM_CELLS_TO_DRAW,
                ns == spec_num_subdivision(self.view.depth),
                ns <= 5,
                nv == 2 + ns as usize,
                nseg == 1 + ns as usize,
                nvi == nv as int,
                nsi == nseg as int,
                blk == 6 * (nsi * nsi),
                vb == nvi * nvi,
                6 <= blk <= 216,
                4 <= vb <= 49,
                k <= n,
                self.idx_vertices@.len() == k as int * blk,
                forall|kk: int, i: int, j: int, t: int|
                    0 <= kk < k && 0 <= i < nsi && 0 <= j < nsi && 0 <= t < 6
                        ==> self.idx_vertices@[#[trigger] idx_pos(kk, blk, i, nsi, j, t)] == kk
                        * vb + quad_index(ns, i, j, t),
            decreases n - k,
        {
            proof {
                assert(k as int * vb <= 768 * 49 && k as int * vb >= 0 && k as int * blk <= 768
                    * 216) by (nonlinear_arith)
                    requires
                        0 <= k as int <= 768,
                        4 <= vb <= 49,
                        6 <= blk <= 216,
                ;
            }
            proof {
                assert(k as int * (nv as int) <= 768 * 7 && k as int * (nv as int) >= 0)
                    by (nonlinear_arith)
                    requires
                        0 <= k as int,
                        k as int <= 768,
                        0 <= nv as int,
                        nv as int <= 7,
                ;
                assert((k as int * (nv as int)) * (nv as int) <= 5376 * 7 && (k as int * (
                nv as int)) * (nv as int) >= 0) by (nonlinear_arith)
                    requires
                        0 <= k as int * (nv as int),
                        k as int * (nv as int) <= 5376,
                        0 <= nv as int,
                        nv as int <= 7,
                ;
                assert((k as int * (nv as int)) * (nv as int) == k as int * vb)
                    by (nonlinear_arith)
                    requires
                        nvi == nv as int,
                        vb == nvi * nvi,
                ;
                assert((k as int + 1) * vb <= 768 * 49 && (k as int + 1) * vb == k as int * vb
                    + vb) by (nonlinear_arith)
                    requires
                        0 <= k as int + 1,
                        k as int + 1 <= 768,
                        0 <= vb,
                        vb <= 49,
                ;
            }
            let off: u16 = ((k * nv) * nv) as u16;
            let ghost base = self.idx_vertices@.len() as int;
            let ghost v0 = self.idx_vertices@;
            add_grid_indices(&mut self.idx_vertices, ns, off);
            proof {
                assert((k as int + 1) * blk == k as int * blk + blk) by (nonlinear_arith);
                assert(6 * (1 + ns as int) * (1 + ns as int) == blk) by (nonlinear_arith)
                    requires
                        nsi == 1 + ns as int,
                        blk == 6 * (nsi * nsi),
                ;
                assert forall|kk: int, i: int, j: int, t: int|
                    0 <= kk < k + 1 && 0 <= i < nsi && 0 <= j < nsi && 0 <= t < 6
                    implies self.idx_vertices@[#[trigger] idx_pos(kk, blk, i, nsi, j, t)] == kk
                    * vb + quad_index(ns, i, j, t) by {
                    assert(idx_pos(kk, blk, i, nsi, j, t) == kk * blk + 6 * (i * nsi + j) + t);
                    if kk < k {
                        lemma_idx_block_below(kk, k as int, i, j, t, nsi, blk);
                        let w = idx_pos(kk, blk, i, nsi, j, t);
                        assert(w < base);
                        assert(self.idx_vertices@[w] == v0[w]);
                        assert(v0[idx_pos(kk, blk, i, nsi, j, t)] == kk * vb + quad_index(
                            ns,
                            i,
                            j,
                            t,
                        ));
                    } else {
                        assert(kk == k);
                        assert(kk * blk + 6 * (i * nsi + j) + t == base + 6 * (i * nsi + j) + t);
                        assert(off == kk * vb);
                        assert(self.idx_vertices@[base + 6 * (i * nsi + j) + t] == off
                            + quad_index(ns, i, j, t));
                    }
                }
            }
            k += 1;
        }
        self.num_idx = self.idx_vertices.len();
        proof {
            assert(n as int * blk == k as int * blk) by {
                assert(k == n);
            }
            assert(blk == 6 * ((1 + spec_num_subdivision(self.view.depth) as int) * (1
                + spec_num_subdivision(self.view.depth) as int)));
        }
    }

    /// Pushes one resolved tile into this survey's cache; eviction under
    /// capacity pressure spares the cells of this survey's current viewport.
    pub fn push_tile(
        &mut self,
        cell: &HEALPixCell,
        time_request: u64,
        now: u64,
        missing: bool,
    ) -> (pushed: bool)
        requires
            old(self).inv(),
            cell.well_formed(),
        ensures
            final(self).inv(),
            final(self).view == old(self).view,
            final(self).textures.config == old(self).textures.config,
            final(self).textures.slots@ == spec_push(
                old(self).textures.slots@,
                *cell,
                time_request,
                now,
                missing,
                old(self).view.cells@,
                old(self).textures.config.capacity as int,
            ),
            pushed == crate::textures::contains_cell(final(self).textures.slots@, *cell),
            spec_ready(old(self).textures.slots@) ==> spec_ready(final(self).textures.slots@),
            old(self).textures.available_tiles_flag ==> final(self).textures.available_tiles_flag,
    {
        self.textures.push(cell, time_request, now, missing, &self.view.cells)
    }

    /// One survey's frame step. While the base cells are loading nothing is
    /// drawn. A wide field of view ray-traces. Otherwise the survey
    /// rasterizes, rebuilding its geometry exactly when the visible cells
    /// changed, the cache changed, or the frame switched back from
    /// ray-tracing (both edge triggers are consumed here); a frame showing
    /// more cells than the rasterizer's budget keeps its previous buffers
    /// and leaves the triggers pending, so the change is not lost.
    pub fn draw(
        &mut self,
        camera: &CameraFrame,
        raytracing: bool,
        switch_from_raytrace_to_raster: bool,
    ) -> (r: SurveyFrame)
        requires
            old(self).inv(),
            camera.well_formed(),
        ensures
            final(self).inv(),
            final(self).textures.slots@ == old(self).textures.slots@,
            final(self).textures.config == old(self).textures.config,
            final(self).view.cells@ == old(self).view.cells@,
            final(self).view.depth == old(self).view.depth,
            !spec_ready(old(self).textures.slots@) <==> r == SurveyFrame::NotReady,
            r == SurveyFrame::NotReady ==> *final(self) == *old(self),
            spec_ready(old(self).textures.slots@) && raytracing ==> r == (SurveyFrame::Raytrace {
                depth: old(self).view.depth,
            }) && *final(self) == *old(self),
            spec_ready(old(self).textures.slots@) && !raytracing ==> ({
                let recompute = old(self).view.is_new_cells_added || old(self).textures.available_tiles_flag || switch_from_raytrace_to_raster;
                let within = old(self).view.cells@.len() <= MAX_NUM_CELLS_TO_DRAW;
                &&& r == (SurveyFrame::Rasterize {
                    recomputed: recompute && within,
                    num_idx: final(self).num_idx,
                })
                &&& within ==> !final(self).textures.available_tiles_flag
                &&& !within ==> *final(self) == *old(self)
                &&& recompute && within ==> idx_buffer_matches(*final(self))
                    && uv_buffers_match(*final(self), camera.user_action)
                &&& !(recompute && within) ==> final(self).num_idx == old(self).num_idx
                    && final(self).idx_vertices == old(self).idx_vertices
                    && final(self).uv_start == old(self).uv_start
                    && final(self).uv_end == old(self).uv_end
                    && final(self).time_tile_received == old(self).time_tile_received
                    && final(self).m0 == old(self).m0
                    && final(self).m1 == old(self).m1
                    && final(self).view == old(self).view
            }),
    {
        if !self.textures.is_ready() {
            return SurveyFrame::NotReady;
        }
        if raytracing {
            return SurveyFrame::Raytrace { depth: self.view.get_depth() };
        }
        if self.view.num_of_cells() > MAX_NUM_CELLS_TO_DRAW {
            // over the rasterizer's budget: keep the previous buffers and
            // leave both change triggers pending for a smaller frame
            return SurveyFrame::Rasterize { recomputed: false, num_idx: self.num_idx };
        }
        let new_cells = self.view.is_there_new_cells_added();
        let available = self.textures.is_there_available_tiles();
        let recompute = new_cells || available || switch_from_raytrace_to_raster;
        if recompute {
            self.set_positions();
            self.set_uvs(camera);
            SurveyFrame::Rasterize { recomputed: true, num_idx: self.num_idx }
        } else {
            SurveyFrame::Rasterize { recomputed: false, num_idx: self.num_idx }
        }
    }
}

/// An earlier cell's vertex entry lies below the current cell's block.
proof fn lemma_block_below(kk: int, k: int, i: int, j: int, comp: int, nvi: int, b: int)
    requires
        0 <= kk < k,
        0 <= i < nvi,
        0 <= j < nvi,
        0 <= comp < 3,
        b == nvi * nvi,
    ensures
        3 * (kk * b + i * nvi + j) + comp < 3 * (k * b),
        kk * b + i * nvi + j >= 0,
{
    assert(kk * b + b <= k * b) by (nonlinear_arith)
        requires
            kk + 1 <= k,
            b >= 0,
    ;
    assert(i * nvi + j < b) by (nonlinear_arith)
        requires
            0 <= i < nvi,
            0 <= j < nvi,
            b == nvi * nvi,
    ;
    assert(kk * b >= 0 && i * nvi >= 0) by (nonlinear_arith)
        requires
            kk >= 0,
            b >= 0,
            i >= 0,
            nvi >= 0,
    ;
}

/// Multiplying both sides of an inequality by a positive block size.
proof fn lemma_mul_le_mono(a: int, c: int, b: int)
    requires
        a <= c,
        b >= 1,
    ensures
        a * b <= c * b,
{
    assert(a * b <= c * b) by (nonlinear_arith)
        requires
            a <= c,
            b >= 1,
    ;
}

/// A flat index keeps a well-defined block number.
proof fn lemma_div_in_block(t: int, b: int)
    requires
        0 <= t,
        b >= 1,
    ensures
        t / b >= 0,
        (t / b) * b <= t < (t / b) * b + b,
{
    vstd::arithmetic::div_mod::lemma_fundamental_div_mod(t, b);
    vstd::arithmetic::div_mod::lemma_mod_bound(t, b);
    assert(b * (t / b) == (t / b) * b) by (nonlinear_arith);
    vstd::arithmetic::div_mod::lemma_div_pos_is_pos(t, b);
}

/// A flat index inside block `k` has block number `k`.
proof fn lemma_div_block(t: int, k: int, b: int)
    requires
        0 <= k,
        b >= 1,
        k * b <= t < (k + 1) * b,
    ensures
        t / b == k,
{
    assert((k + 1) * b == k * b + b) by (nonlinear_arith);
    assert(t == k * b + (t - k * b));
    assert(k * b == b * k) by (nonlinear_arith);
    vstd::arithmetic::div_mod::lemma_fundamental_div_mod_converse(t, b, k, t - k * b);
}

/// An earlier cell's index entry lies below the current cell's block.
proof fn lemma_idx_block_below(kk: int, k: int, i: int, j: int, t: int, nsi: int, blk: int)
    requires
        0 <= kk < k,
        0 <= i < nsi,
        0 <= j < nsi,
        0 <= t < 6,
        blk == 6 * (nsi * nsi),
    ensures
        kk * blk + 6 * (i * nsi + j) + t < k * blk,
        kk * blk + 6 * (i * nsi + j) >= 0,
{
    assert(kk * blk + blk <= k * blk) by (nonlinear_arith)
        requires
            kk + 1 <= k,
            blk >= 0,
    ;
    assert(6 * (i * nsi + j) + t < blk) by (nonlinear_arith)
        requires
            0 <= i < nsi,
            0 <= j < nsi,
            0 <= t < 6,
            blk == 6 * (nsi * nsi),
    ;
    assert(kk * blk >= 0 && i * nsi >= 0) by (nonlinear_arith)
        requires
            kk >= 0,
            blk >= 0,
            i >= 0,
            nsi >= 0,
    ;
}

} // verus!
