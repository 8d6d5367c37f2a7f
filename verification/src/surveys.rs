//! The survey collection: layer ordering and metadata, one cache and
//! viewport per survey, the frame-wide rendering-mode switch, and the
//! reconciliation of resolved tiles into the caches. The collection decides;
//! the sink executes the per-layer draw calls it is handed.

use vstd::prelude::*;
use crate::cell::HEALPixCell;
use crate::config::ConfigError;
use crate::config::HiPSConfig;
use crate::config::ImageSurveyMeta;
use crate::config::SimpleHiPS;
use crate::shader::ShaderKind;
use crate::shader::get_raster_shader;
use crate::shader::get_raytracer_shader;
use crate::shader::spec_shader_kind;
use crate::survey::ImageSurvey;
use crate::survey::SurveyFrame;
use crate::textures::Texture;
use crate::textures::spec_push;
use crate::textures::spec_ready;
use crate::view::CameraFrame;
use crate::view::HEALPixCellsInView;

verus! {

/// One tile identity: the survey it belongs to and the cell it covers.
#[derive(Clone, Debug)]
pub struct Tile {
    pub root_url: String,
    pub cell: HEALPixCell,
}

/// The decoded payload kind of a fetched tile; the pixel data itself lives
/// with the sink.
#[derive(Clone, Copy, PartialEq, Eq, Structural, Debug)]
pub enum RetrievedImageType {
    FitsR32,
    PngRgba8,
    JpgRgb8,
}

/// What the asynchronous resolver reported for one requested tile. A failed
/// fetch is a first-class `Missing` outcome, not an error: it installs a
/// placeholder so the cell never renders as a hole.
#[derive(Clone, Copy, PartialEq, Eq, Structural, Debug)]
pub enum TileResolved {
    Missing { time_req: u64 },
    Found { image: RetrievedImageType, time_req: u64 },
}

pub open spec fn res_time_req(r: TileResolved) -> u64 {
    match r {
        TileResolved::Missing { time_req } => time_req,
        TileResolved::Found { time_req, .. } => time_req,
    }
}

pub open spec fn res_is_missing(r: TileResolved) -> bool {
    r is Missing
}

/// How the frame is rendered: per-pixel ray casting for wide fields of
/// view, a rasterized mesh otherwise.
#[derive(Clone, Copy, PartialEq, Eq, Structural, Debug)]
pub enum RenderingMode {
    Raytrace,
    Rasterize,
}

/// One survey keyed by its root URL.
pub struct SurveyEntry {
    pub url: String,
    pub survey: ImageSurvey,
}

/// One layer's metadata, keyed by the layer name.
pub struct MetaEntry {
    pub layer: String,
    pub meta: ImageSurveyMeta,
}

/// Which survey a layer draws, keyed by the layer name.
pub struct UrlEntry {
    pub layer: String,
    pub url: String,
}

pub open spec fn survey_keys_distinct(s: Seq<SurveyEntry>) -> bool {
    forall|i: int, j: int| 0 <= i < j < s.len() ==> s[i].url@ != s[j].url@
}

pub open spec fn survey_has(s: Seq<SurveyEntry>, key: Seq<char>) -> bool {
    exists|i: int| 0 <= i < s.len() && s[i].url@ == key
}

pub open spec fn survey_index(s: Seq<SurveyEntry>, key: Seq<char>) -> int {
    choose|i: int| 0 <= i < s.len() && s[i].url@ == key
}

pub open spec fn meta_keys_distinct(s: Seq<MetaEntry>) -> bool {
    forall|i: int, j: int| 0 <= i < j < s.len() ==> s[i].layer@ != s[j].layer@
}

pub open spec fn meta_has(s: Seq<MetaEntry>, key: Seq<char>) -> bool {
    exists|i: int| 0 <= i < s.len() && s[i].layer@ == key
}

pub open spec fn meta_index(s: Seq<MetaEntry>, key: Seq<char>) -> int {
    choose|i: int| 0 <= i < s.len() && s[i].layer@ == key
}

pub open spec fn url_keys_distinct(s: Seq<UrlEntry>) -> bool {
    forall|i: int, j: int| 0 <= i < j < s.len() ==> s[i].layer@ != s[j].layer@
}

pub open spec fn url_has(s: Seq<UrlEntry>, key: Seq<char>) -> bool {
    exists|i: int| 0 <= i < s.len() && s[i].layer@ == key
}

pub open spec fn url_index(s: Seq<UrlEntry>, key: Seq<char>) -> int {
    choose|i: int| 0 <= i < s.len() && s[i].layer@ == key
}

/// The survey collection.
pub struct ImageSurveys {
    pub surveys: Vec<SurveyEntry>,
    pub meta: Vec<MetaEntry>,
    pub urls: Vec<UrlEntry>,
    /// Layer names in draw order.
    pub layers: Vec<String>,
    /// The survey publishing the deepest tiles; its viewport stands for the
    /// whole collection.
    pub most_precise_survey: String,
    pub past_rendering_mode: RenderingMode,
    pub current_rendering_mode: RenderingMode,
}

impl ImageSurveys {
    pub open spec fn inv(self) -> bool {
        &&& survey_keys_distinct(self.surveys@)
        &&& forall|i: int|
            0 <= i < self.surveys@.len() ==> (#[trigger] self.surveys@[i]).survey.inv()
        &&& meta_keys_distinct(self.meta@)
        &&& url_keys_distinct(self.urls@)
        &&& forall|k: int|
            0 <= k < self.layers@.len() ==> meta_has(self.meta@, (#[trigger] self.layers@[k])@)
                && url_has(self.urls@, self.layers@[k]@)
        &&& forall|i: int|
            0 <= i < self.urls@.len() ==> survey_has(self.surveys@, (#[trigger] self.urls@[i]).url@)
        &&& self.surveys@.len() > 0 ==> survey_has(self.surveys@, self.most_precise_survey@)
    }

    /// An empty collection; nothing is drawn until layers are configured,
    /// and the frame starts in ray-tracing mode as a very wide default view
    /// does.
    pub fn new() -> (r: ImageSurveys)
        ensures
            r.inv(),
            r.surveys@.len() == 0,
            r.meta@.len() == 0,
            r.urls@.len() == 0,
            r.layers@.len() == 0,
            r.past_rendering_mode == RenderingMode::Raytrace,
            r.current_rendering_mode == RenderingMode::Raytrace,
    {
        ImageSurveys {
            surveys: Vec::new(),
            meta: Vec::new(),
            urls: Vec::new(),
            layers: Vec::new(),
            most_precise_survey: String::new(),
            past_rendering_mode: RenderingMode::Raytrace,
            current_rendering_mode: RenderingMode::Raytrace,
        }
    }

    fn find_survey(&self, url: &String) -> (r: Option<usize>)
        requires
            survey_keys_distinct(self.surveys@),
        ensures
            match r {
                Some(i) => i < self.surveys@.len() && self.surveys@[i as int].url@ == url@
                    && i as int == survey_index(self.surveys@, url@),
                None => !survey_has(self.surveys@, url@),
            },
    {
        let n = self.surveys.len();
        let mut i: usize = 0;
        while i < n
            invariant
                n == self.surveys@.len(),
                i <= n,
                survey_keys_distinct(self.surveys@),
                forall|k: int| 0 <= k < i ==> (#[trigger] self.surveys@[k]).url@ != url@,
            decreases n - i,
        {
            if self.surveys[i].url == *url {
                proof {
                    let j = survey_index(self.surveys@, url@);
                    assert(survey_has(self.surveys@, url@)) by {
                        assert(self.surveys@[i as int].url@ == url@);
                    }
                    if i < j {
                        assert(self.surveys@[i as int].url@ != self.surveys@[j].url@);
                    } else if j < i {
                        assert(self.surveys@[j].url@ != self.surveys@[i as int].url@);
                    }
                }
                return Some(i);
            }
            i += 1;
        }
        None
    }

    fn find_meta(&self, layer: &String) -> (r: Option<usize>)
        requires
            meta_keys_distinct(self.meta@),
        ensures
            match r {
                Some(i) => i < self.meta@.len() && self.meta@[i as int].layer@ == layer@
                    && i as int == meta_index(self.meta@, layer@),
                None => !meta_has(self.meta@, layer@),
            },
    {
        let n = self.meta.len();
        let mut i: usize = 0;
        while i < n
            invariant
                n == self.meta@.len(),
                i <= n,
                meta_keys_distinct(self.meta@),
                forall|k: int| 0 <= k < i ==> (#[trigger] self.meta@[k]).layer@ != layer@,
            decreases n - i,
        {
            if self.meta[i].layer == *layer {
                proof {
                    let j = meta_index(self.meta@, layer@);
                    assert(meta_has(self.meta@, layer@)) by {
                        assert(self.meta@[i as int].layer@ == layer@);
                    }
                    if i < j {
                        assert(self.meta@[i as int].layer@ != self.meta@[j].layer@);
                    } else if j < i {
                        assert(self.meta@[j].layer@ != self.meta@[i as int].layer@);
                    }
                }
                return Some(i);
            }
            i += 1;
        }
        None
    }

    fn find_url(&self, layer: &String) -> (r: Option<usize>)
        requires
            url_keys_distinct(self.urls@),
        ensures
            match r {
                Some(i) => i < self.urls@.len() && self.urls@[i as int].layer@ == layer@
                    && i as int == url_index(self.urls@, layer@),
                None => !url_has(self.urls@, layer@),
            },
    {
        let n = self.urls.len();
        let mut i: usize = 0;
        while i < n
            invariant
                n == self.urls@.len(),
                i <= n,
                url_keys_distinct(self.urls@),
                forall|k: int| 0 <= k < i ==> (#[trigger] self.urls@[k]).layer@ != layer@,
            decreases n - i,
        {
            if self.urls[i].layer == *layer {
                proof {
                    let j = url_index(self.urls@, layer@);
                    assert(url_has(self.urls@, layer@)) by {
                        assert(self.urls@[i as int].layer@ == layer@);
                    }
                    if i < j {
                        assert(self.urls@[i as int].layer@ != self.urls@[j].layer@);
                    } else if j < i {
                        assert(self.urls@[j].layer@ != self.urls@[i as int].layer@);
                    }
                }
                return Some(i);
            }
            i += 1;
        }
        None
    }

    /// The survey loaded from the given root URL.
    pub fn get(&self, root_url: &String) -> (r: Option<&ImageSurvey>)
        requires
            survey_keys_distinct(self.surveys@),
        ensures
            match r {
                Some(s) => survey_has(self.surveys@, root_url@) && s == &self.surveys@[survey_index(
                    self.surveys@,
                    root_url@,
                )].survey,
                None => !survey_has(self.surveys@, root_url@),
            },
    {
        match self.find_survey(root_url) {
            Some(i) => Some(&self.surveys[i].survey),
            None => None,
        }
    }

    /// The survey of the layer drawn last, on top of the others.
    pub fn last(&self) -> (r: Option<&ImageSurvey>)
        requires
            self.inv(),
        ensures
            r is None <==> self.layers@.len() == 0,
            self.layers@.len() > 0 ==> r == Some(
                &self.surveys@[survey_index(
                    self.surveys@,
                    self.urls@[url_index(self.urls@, self.layers@[self.layers@.len() - 1]@)].url@,
                )].survey,
            ),
    {
        let n = self.layers.len();
        if n == 0 {
            return None;
        }
        let last_layer = &self.layers[n - 1];
        match self.find_url(last_layer) {
            Some(ui) => {
                let url = &self.urls[ui].url;
                match self.find_survey(url) {
                    Some(si) => Some(&self.surveys[si].survey),
                    None => {
                        proof {
                            assert(false);
                        }
                        None
                    },
                }
            },
            None => {
                proof {
                    assert(false);
                }
                None
            },
        }
    }

    /// Clears every survey's one-frame edge trigger.
    pub fn reset_frame(&mut self)
        requires
            old(self).inv(),
        ensures
            final(self).inv(),
            final(self).surveys@.len() == old(self).surveys@.len(),
            forall|k: int|
                0 <= k < final(self).surveys@.len() ==> {
                    let e = #[trigger] final(self).surveys@[k];
                    let o = old(self).surveys@[k];
                    &&& e.url == o.url
                    &&& e.survey == (ImageSurvey {
                        view: (crate::view::HEALPixCellsInView {
                            is_new_cells_added: false,
                            ..o.survey.view
                        }),
                        ..o.survey
                    })
                },
            final(self).meta == old(self).meta,
            final(self).urls == old(self).urls,
            final(self).layers == old(self).layers,
            final(self).most_precise_survey == old(self).most_precise_survey,
    {
        let n = self.surveys.len();
        let mut i: usize = 0;
        while i < n
            invariant
                old(self).inv(),
                n == self.surveys@.len(),
                n == old(self).surveys@.len(),
                i <= n,
                self.meta == old(self).meta,
                self.urls == old(self).urls,
                self.layers == old(self).layers,
                self.most_precise_survey == old(self).most_precise_survey,
                self.past_rendering_mode == old(self).past_rendering_mode,
                self.current_rendering_mode == old(self).current_rendering_mode,
                forall|k: int|
                    i <= k < n ==> #[trigger] self.surveys@[k] == old(self).surveys@[k],
                forall|k: int|
                    0 <= k < i ==> {
                        let e = #[trigger] self.surveys@[k];
                        let o = old(self).surveys@[k];
                        &&& e.url == o.url
                        &&& e.survey == (ImageSurvey {
                            view: (crate::view::HEALPixCellsInView {
                                is_new_cells_added: false,
                                ..o.survey.view
                            }),
                            ..o.survey
                        })
                        &&& e.survey.inv()
                    },
            decreases n - i,
        {
            self.surveys[i].survey.reset_frame();
            i += 1;
        }
        proof {
            lemma_same_keys_preserve(old(self).surveys@, self.surveys@);
        }
    }

    /// Recomputes every survey's viewport from the camera.
    pub fn refresh_views(&mut self, camera: &CameraFrame)
        requires
            old(self).inv(),
            camera.well_formed(),
        ensures
            final(self).inv(),
            final(self).surveys@.len() == old(self).surveys@.len(),
            forall|k: int|
                0 <= k < final(self).surveys@.len() ==> {
                    let e = #[trigger] final(self).surveys@[k];
                    let o = old(self).surveys@[k];
                    &&& e.url == o.url
                    &&& e.survey.textures == o.survey.textures
                    &&& e.survey.uv_start == o.survey.uv_start
                    &&& e.survey.uv_end == o.survey.uv_end
                    &&& e.survey.time_tile_received == o.survey.time_tile_received
                    &&& e.survey.m0 == o.survey.m0
                    &&& e.survey.m1 == o.survey.m1
                    &&& e.survey.idx_vertices == o.survey.idx_vertices
                    &&& e.survey.num_idx == o.survey.num_idx
                    &&& crate::view::depth_selected(
                        o.survey.textures.config.tile_size,
                        o.survey.textures.config.max_depth,
                        camera.base_cell_px,
                        e.survey.view.depth,
                    )
                    &&& crate::view::view_matches(
                        e.survey.view.cells@,
                        e.survey.view.depth,
                        camera.coverage@,
                    )
                    &&& e.survey.view.is_new_cells_added == (e.survey.view.cells@
                        != o.survey.view.cells@)
                    &&& e.survey.view.user_action == camera.user_action
                },
            final(self).meta == old(self).meta,
            final(self).urls == old(self).urls,
            final(self).layers == old(self).layers,
            final(self).most_precise_survey == old(self).most_precise_survey,
    {
        let n = self.surveys.len();
        let mut i: usize = 0;
        while i < n
            invariant
                old(self).inv(),
                camera.well_formed(),
                n == self.surveys@.len(),
                n == old(self).surveys@.len(),
                i <= n,
                self.meta == old(self).meta,
                self.urls == old(self).urls,
                self.layers == old(self).layers,
                self.most_precise_survey == old(self).most_precise_survey,
                self.past_rendering_mode == old(self).past_rendering_mode,
                self.current_rendering_mode == old(self).current_rendering_mode,
                forall|k: int|
                    i <= k < n ==> #[trigger] self.surveys@[k] == old(self).surveys@[k],
                forall|k: int|
                    0 <= k < i ==> {
                        let e = #[trigger] self.surveys@[k];
                        let o = old(self).surveys@[k];
                        &&& e.url == o.url
                        &&& e.survey.inv()
                        &&& e.survey.textures == o.survey.textures
                        &&& e.survey.uv_start == o.survey.uv_start
                        &&& e.survey.uv_end == o.survey.uv_end
                        &&& e.survey.time_tile_received == o.survey.time_tile_received
                        &&& e.survey.m0 == o.survey.m0
                        &&& e.survey.m1 == o.survey.m1
                        &&& e.survey.idx_vertices == o.survey.idx_vertices
                        &&& e.survey.num_idx == o.survey.num_idx
                        &&& crate::view::depth_selected(
                            o.survey.textures.config.tile_size,
                            o.survey.textures.config.max_depth,
                            camera.base_cell_px,
                            e.survey.view.depth,
                        )
                        &&& crate::view::view_matches(
                            e.survey.view.cells@,
                            e.survey.view.depth,
                            camera.coverage@,
                        )
                        &&& e.survey.view.is_new_cells_added == (e.survey.view.cells@
                            != o.survey.view.cells@)
                        &&& e.survey.view.user_action == camera.user_action
                    },
            decreases n - i,
        {
            self.surveys[i].survey.refresh_view(camera);
            i += 1;
        }
        proof {
            lemma_same_keys_preserve(old(self).surveys@, self.surveys@);
        }
    }

    /// True once every loaded survey has its base cells resident.
    pub fn is_ready(&self) -> (r: bool)
        ensures
            r == forall|k: int|
                0 <= k < self.surveys@.len() ==> spec_ready(
                    (#[trigger] self.surveys@[k]).survey.textures.slots@,
                ),
    {
        let n = self.surveys.len();
        let mut i: usize = 0;
        while i < n
            invariant
                n == self.surveys@.len(),
                i <= n,
                forall|k: int|
                    0 <= k < i ==> spec_ready((#[trigger] self.surveys@[k]).survey.textures.slots@),
            decreases n - i,
        {
            if !self.surveys[i].survey.textures.is_ready() {
                return false;
            }
            i += 1;
        }
        true
    }

    /// The viewport of the most precise survey, which the collection's
    /// callers treat as the viewport of the scene; nothing before a survey
    /// is loaded.
    pub fn get_view(&self) -> (r: Option<&HEALPixCellsInView>)
        requires
            self.inv(),
        ensures
            r is None <==> self.surveys@.len() == 0,
            self.surveys@.len() > 0 ==> r == Some(
                &self.surveys@[survey_index(
                    self.surveys@,
                    self.most_precise_survey@,
                )].survey.view,
            ),
    {
        if self.surveys.len() == 0 {
            return None;
        }
        let mps = self.most_precise_survey.clone();
        match self.find_survey(&mps) {
            Some(i) => Some(&self.surveys[i].survey.view),
            None => {
                proof {
                    assert(false);
                }
                None
            },
        }
    }

    /// The metadata of a layer; an unknown layer name is a recoverable
    /// lookup failure.
    pub fn get_image_survey_color_cfg(&self, layer: &String) -> (r: Result<
        ImageSurveyMeta,
        ConfigError,
    >)
        requires
            meta_keys_distinct(self.meta@),
        ensures
            match r {
                Ok(m) => meta_has(self.meta@, layer@) && m == self.meta@[meta_index(
                    self.meta@,
                    layer@,
                )].meta,
                Err(e) => e == ConfigError::LayerNotFound && !meta_has(self.meta@, layer@),
            },
    {
        match self.find_meta(layer) {
            Some(i) => Ok(self.meta[i].meta),
            None => Err(ConfigError::LayerNotFound),
        }
    }

    /// Replaces the metadata of an existing layer; an unknown layer name is
    /// rejected with nothing changed.
    pub fn set_image_survey_color_cfg(&mut self, layer: &String, meta: ImageSurveyMeta) -> (r:
        Result<(), ConfigError>)
        requires
            old(self).inv(),
        ensures
            final(self).inv(),
            match r {
                Ok(()) => meta_has(old(self).meta@, layer@) && final(self).meta@ == old(self).meta@.update(
                    meta_index(old(self).meta@, layer@),
                    (MetaEntry { layer: old(self).meta@[meta_index(old(self).meta@, layer@)].layer, meta }),
                ),
                Err(e) => e == ConfigError::LayerNotFound && !meta_has(old(self).meta@, layer@)
                    && *final(self) == *old(self),
            },
            final(self).surveys == old(self).surveys,
            final(self).urls == old(self).urls,
            final(self).layers == old(self).layers,
    {
        match self.find_meta(layer) {
            Some(i) => {
                let key = self.meta[i].layer.clone();
                self.meta.set(i, MetaEntry { layer: key, meta });
                proof {
                    assert forall|a: int, b: int|
                        0 <= a < b < self.meta@.len() implies self.meta@[a].layer@
                        != self.meta@[b].layer@ by {
                        assert(old(self).meta@[a].layer@ != old(self).meta@[b].layer@);
                    }
                    assert forall|k: int|
                        0 <= k < self.layers@.len() implies meta_has(
                        self.meta@,
                        (#[trigger] self.layers@[k])@,
                    ) && url_has(self.urls@, self.layers@[k]@) by {
                        assert(meta_has(old(self).meta@, self.layers@[k]@));
                        let w = meta_index(old(self).meta@, self.layers@[k]@);
                        let w2 = choose|w2: int|
                            0 <= w2 < old(self).meta@.len() && old(self).meta@[w2].layer@
                                == self.layers@[k]@;
                        assert(self.meta@[w2].layer@ == self.layers@[k]@);
                    }
                }
                Ok(())
            },
            None => Err(ConfigError::LayerNotFound),
        }
    }
}

/// What a sequence of resolved tiles does to one survey's cache: the
/// entries addressed to the survey are pushed in order, each installing a
/// real tile or a missing placeholder; the rest leave it alone.
pub open spec fn fold_resolved(
    slots: Seq<Texture>,
    view: Seq<HEALPixCell>,
    cap: int,
    key: Seq<char>,
    entries: Seq<(Tile, TileResolved)>,
    now: u64,
) -> Seq<Texture>
    decreases entries.len(),
{
    if entries.len() == 0 {
        slots
    } else {
        let s1 = if entries[0].0.root_url@ == key {
            spec_push(
                slots,
                entries[0].0.cell,
                res_time_req(entries[0].1),
                now,
                res_is_missing(entries[0].1),
                view,
                cap,
            )
        } else {
            slots
        };
        fold_resolved(s1, view, cap, key, entries.drop_first(), now)
    }
}

/// Folding one more entry applies that entry to the folded state.
proof fn lemma_fold_snoc(
    slots: Seq<Texture>,
    view: Seq<HEALPixCell>,
    cap: int,
    key: Seq<char>,
    entries: Seq<(Tile, TileResolved)>,
    x: (Tile, TileResolved),
    now: u64,
)
    ensures
        fold_resolved(slots, view, cap, key, entries.push(x), now) == ({
            let s = fold_resolved(slots, view, cap, key, entries, now);
            if x.0.root_url@ == key {
                spec_push(s, x.0.cell, res_time_req(x.1), now, res_is_missing(x.1), view, cap)
            } else {
                s
            }
        }),
    decreases entries.len(),
{
    reveal_with_fuel(fold_resolved, 3);
    if entries.len() == 0 {
        assert(entries.push(x)[0] == x);
        assert(entries.push(x).drop_first() =~= Seq::<(Tile, TileResolved)>::empty());
    } else {
        assert(entries.push(x)[0] == entries[0]);
        assert(entries.push(x).drop_first() =~= entries.drop_first().push(x));
        let s1 = if entries[0].0.root_url@ == key {
            spec_push(
                slots,
                entries[0].0.cell,
                res_time_req(entries[0].1),
                now,
                res_is_missing(entries[0].1),
                view,
                cap,
            )
        } else {
            slots
        };
        lemma_fold_snoc(s1, view, cap, key, entries.drop_first(), x, now);
    }
}

/// Some tile of the set belongs to the survey with the given root URL.
pub open spec fn tile_names(tiles: Seq<Tile>, url: Seq<char>) -> bool {
    exists|t: int| 0 <= t < tiles.len() && tiles[t].root_url@ == url
}

impl ImageSurveys {
    /// Marks tiles the resolver reports as already fetched: each named
    /// survey's availability edge trigger is raised; caches do not change.
    /// Every named survey must be loaded.
    pub fn set_available_tiles(&mut self, available_tiles: &Vec<Tile>)
        requires
            old(self).inv(),
            forall|t: int|
                0 <= t < available_tiles@.len() ==> survey_has(
                    old(self).surveys@,
                    (#[trigger] available_tiles@[t]).root_url@,
                ),
        ensures
            final(self).inv(),
            final(self).surveys@.len() == old(self).surveys@.len(),
            forall|k: int|
                0 <= k < final(self).surveys@.len() ==> {
                    let e = #[trigger] final(self).surveys@[k];
                    let o = old(self).surveys@[k];
                    &&& e.url == o.url
                    &&& e.survey == (ImageSurvey {
                        textures: (crate::textures::ImageSurveyTextures {
                            available_tiles_flag: o.survey.textures.available_tiles_flag
                                || tile_names(available_tiles@, o.url@),
                            ..o.survey.textures
                        }),
                        ..o.survey
                    })
                },
            final(self).meta == old(self).meta,
            final(self).urls == old(self).urls,
            final(self).layers == old(self).layers,
            final(self).most_precise_survey == old(self).most_precise_survey,
    {
        let n = available_tiles.len();
        let mut t: usize = 0;
        while t < n
            invariant
                old(self).inv(),
                n == available_tiles@.len(),
                t <= n,
                forall|e: int|
                    0 <= e < n ==> survey_has(
                        old(self).surveys@,
                        (#[trigger] available_tiles@[e]).root_url@,
                    ),
                self.meta == old(self).meta,
                self.urls == old(self).urls,
                self.layers == old(self).layers,
                self.most_precise_survey == old(self).most_precise_survey,
                self.past_rendering_mode == old(self).past_rendering_mode,
                self.current_rendering_mode == old(self).current_rendering_mode,
                self.surveys@.len() == old(self).surveys@.len(),
                forall|k: int|
                    0 <= k < self.surveys@.len() ==> {
                        let e = #[trigger] self.surveys@[k];
                        let o = old(self).surveys@[k];
                        &&& e.url == o.url
                        &&& e.survey.inv()
                        &&& e.survey == (ImageSurvey {
                            textures: (crate::textures::ImageSurveyTextures {
                                available_tiles_flag: o.survey.textures.available_tiles_flag
                                    || tile_names(available_tiles@.take(t as int), o.url@),
                                ..o.survey.textures
                            }),
                            ..o.survey
                        })
                    },
            decreases n - t,
        {
            let tile = &available_tiles[t];
            proof {
                lemma_same_keys_preserve(old(self).surveys@, self.surveys@);
                assert(survey_has(self.surveys@, tile.root_url@));
            }
            let ghost pre = self.surveys@;
            match self.find_survey(&tile.root_url) {
                Some(si) => {
                    self.surveys[si].survey.textures.register_available_tile(&tile.cell);
                    proof {
                        assert(available_tiles@.take(t as int + 1) =~= available_tiles@.take(
                            t as int,
                        ).push(available_tiles@[t as int]));
                        assert forall|k: int| 0 <= k < self.surveys@.len() implies {
                            let e = #[trigger] self.surveys@[k];
                            let o = old(self).surveys@[k];
                            &&& e.url == o.url
                            &&& e.survey.inv()
                            &&& e.survey == (ImageSurvey {
                                textures: (crate::textures::ImageSurveyTextures {
                                    available_tiles_flag:
                                        o.survey.textures.available_tiles_flag || tile_names(
                                        available_tiles@.take(t as int + 1),
                                        o.url@,
                                    ),
                                    ..o.survey.textures
                                }),
                                ..o.survey
                            })
                        } by {
                            let o = old(self).surveys@[k];
                            if k == si {
                                assert(tile_names(available_tiles@.take(t as int + 1), o.url@))
                                    by {
                                    assert(available_tiles@.take(t as int + 1)[t as int].root_url@
                                        == o.url@);
                                }
                            } else {
                                assert(self.surveys@[k] == pre[k]);
                                assert(pre[si as int].url@ == tile.root_url@);
                                if pre[k].url@ == tile.root_url@ {
                                    if k < si {
                                        assert(pre[k].url@ != pre[si as int].url@);
                                    } else {
                                        assert(pre[si as int].url@ != pre[k].url@);
                                    }
                                }
                                assert(tile_names(available_tiles@.take(t as int + 1), o.url@)
                                    == tile_names(available_tiles@.take(t as int), o.url@)) by {
                                    if tile_names(available_tiles@.take(t as int + 1), o.url@)
                                        && !tile_names(
                                        available_tiles@.take(t as int),
                                        o.url@,
                                    ) {
                                        let w = choose|w: int|
                                            0 <= w < t + 1 && (#[trigger] available_tiles@.take(
                                                t as int + 1,
                                            )[w]).root_url@ == o.url@;
                                        assert(w == t as int);
                                        assert(available_tiles@[t as int].root_url@ == o.url@);
                                    }
                                    if tile_names(available_tiles@.take(t as int), o.url@) {
                                        let w = choose|w: int|
                                            0 <= w < t && (#[trigger] available_tiles@.take(
                                                t as int,
                                            )[w]).root_url@ == o.url@;
                                        assert(available_tiles@.take(t as int + 1)[w].root_url@
                                            == o.url@);
                                    }
                                }
                            }
                        }
                    }
                },
                None => {
                    proof {
                        assert(false);
                    }
                },
            }
            t += 1;
        }
        proof {
            assert(available_tiles@.take(n as int) =~= available_tiles@);
            lemma_same_keys_preserve(old(self).surveys@, self.surveys@);
        }
    }

    /// Applies the tiles the resolver finished this frame, in order, before
    /// any draw call consults the caches: a `Found` tile installs real data,
    /// a `Missing` one installs a placeholder, both under the same push; a
    /// tile of a survey that is no longer loaded is dropped.
    pub fn add_resolved_tiles(&mut self, resolved_tiles: &Vec<(Tile, TileResolved)>, now: u64)
        requires
            old(self).inv(),
            forall|e: int|
                0 <= e < resolved_tiles@.len() ==> (#[trigger] resolved_tiles@[e]).0.cell.well_formed(),
        ensures
            final(self).inv(),
            final(self).surveys@.len() == old(self).surveys@.len(),
            forall|k: int|
                0 <= k < final(self).surveys@.len() ==> {
                    let e = #[trigger] final(self).surveys@[k];
                    let o = old(self).surveys@[k];
                    &&& e.url == o.url
                    &&& e.survey.view == o.survey.view
                    &&& e.survey.textures.config == o.survey.textures.config
                    &&& e.survey.textures.slots@ == fold_resolved(
                        o.survey.textures.slots@,
                        o.survey.view.cells@,
                        o.survey.textures.config.capacity as int,
                        o.url@,
                        resolved_tiles@,
                        now,
                    )
                },
            final(self).meta == old(self).meta,
            final(self).urls == old(self).urls,
            final(self).layers == old(self).layers,
            final(self).most_precise_survey == old(self).most_precise_survey,
    {
        let n = resolved_tiles.len();
        let mut t: usize = 0;
        while t < n
            invariant
                old(self).inv(),
                n == resolved_tiles@.len(),
                t <= n,
                forall|e: int|
                    0 <= e < n ==> (#[trigger] resolved_tiles@[e]).0.cell.well_formed(),
                self.meta == old(self).meta,
                self.urls == old(self).urls,
                self.layers == old(self).layers,
                self.most_precise_survey == old(self).most_precise_survey,
                self.past_rendering_mode == old(self).past_rendering_mode,
                self.current_rendering_mode == old(self).current_rendering_mode,
                self.surveys@.len() == old(self).surveys@.len(),
                forall|k: int|
                    0 <= k < self.surveys@.len() ==> {
                        let e = #[trigger] self.surveys@[k];
                        let o = old(self).surveys@[k];
                        &&& e.url == o.url
                        &&& e.survey.inv()
                        &&& e.survey.view == o.survey.view
                        &&& e.survey.textures.config == o.survey.textures.config
                        &&& e.survey.textures.slots@ == fold_resolved(
                            o.survey.textures.slots@,
                            o.survey.view.cells@,
                            o.survey.textures.config.capacity as int,
                            o.url@,
                            resolved_tiles@.take(t as int),
                            now,
                        )
                    },
            decreases n - t,
        {
            let entry = &resolved_tiles[t];
            let cell = entry.0.cell;
            proof {
                lemma_same_keys_preserve(old(self).surveys@, self.surveys@);
            }
            let found = self.find_survey(&entry.0.root_url);
            let ghost pre = self.surveys@;
            match found {
                Some(si) => {
                    match &entry.1 {
                        TileResolved::Missing { time_req } => {
                            let tr = *time_req;
                            self.surveys[si].survey.push_tile(&cell, tr, now, true);
                        },
                        TileResolved::Found { time_req, .. } => {
                            let tr = *time_req;
                            self.surveys[si].survey.push_tile(&cell, tr, now, false);
                        },
                    }
                },
                None => {},
            }
            proof {
                assert(resolved_tiles@.take(t as int + 1) =~= resolved_tiles@.take(t as int).push(
                    resolved_tiles@[t as int],
                ));
                assert forall|k: int| 0 <= k < self.surveys@.len() implies {
                    let e = #[trigger] self.surveys@[k];
                    let o = old(self).surveys@[k];
                    &&& e.url == o.url
                    &&& e.survey.inv()
                    &&& e.survey.view == o.survey.view
                    &&& e.survey.textures.config == o.survey.textures.config
                    &&& e.survey.textures.slots@ == fold_resolved(
                        o.survey.textures.slots@,
                        o.survey.view.cells@,
                        o.survey.textures.config.capacity as int,
                        o.url@,
                        resolved_tiles@.take(t as int + 1),
                        now,
                    )
                } by {
                    let o = old(self).surveys@[k];
                    lemma_fold_snoc(
                        o.survey.textures.slots@,
                        o.survey.view.cells@,
                        o.survey.textures.config.capacity as int,
                        o.url@,
                        resolved_tiles@.take(t as int),
                        resolved_tiles@[t as int],
                        now,
                    );
                    match found {
                        Some(si) => {
                            if k != si {
                                assert(self.surveys@[k] == pre[k]);
                                assert(pre[si as int].url@ == resolved_tiles@[t as int].0.root_url@);
                                assert(o.url@ == pre[k].url@);
                                if k < si {
                                    assert(pre[k].url@ != pre[si as int].url@);
                                } else {
                                    assert(pre[si as int].url@ != pre[k].url@);
                                }
                            }
                        },
                        None => {
                            assert(!survey_has(pre, resolved_tiles@[t as int].0.root_url@));
                            assert(pre[k].url@ != resolved_tiles@[t as int].0.root_url@) by {
                                if pre[k].url@ == resolved_tiles@[t as int].0.root_url@ {
                                    assert(survey_has(pre, resolved_tiles@[t as int].0.root_url@))
                                        by {
                                        assert(pre[k].url@ == resolved_tiles@[t as int].0.root_url@);
                                    }
                                }
                            }
                        },
                    }
                }
            }
            t += 1;
        }
        proof {
            assert(resolved_tiles@.take(n as int) =~= resolved_tiles@);
            lemma_same_keys_preserve(old(self).surveys@, self.surveys@);
        }
    }
}

/// Some requested layer carries the URL.
pub open spec fn requested_url(hipses: Seq<SimpleHiPS>, url: Seq<char>) -> bool {
    exists|i: int| 0 <= i < hipses.len() && hipses[i].properties.url@ == url
}

/// Two requested layers carry the same layer name.
pub open spec fn has_duplicate_layer(hipses: Seq<SimpleHiPS>) -> bool {
    exists|i: int, j: int| 0 <= i < j < hipses.len() && hipses[i].layer@ == hipses[j].layer@
}

/// Every requested survey is within the handled ranges.
pub open spec fn all_props_valid(hipses: Seq<SimpleHiPS>) -> bool {
    forall|i: int|
        0 <= i < hipses.len() ==> 1 <= (#[trigger] hipses[i]).properties.tile_size <= 0x10000
            && hipses[i].properties.max_order <= crate::cell::MAX_TESS_DEPTH
}

/// Whether two requested layers carry the same layer name.
fn find_duplicate_layers(hipses: &Vec<SimpleHiPS>) -> (r: bool)
    ensures
        r == has_duplicate_layer(hipses@),
{
    let n = hipses.len();
    let mut i: usize = 0;
    while i < n
        invariant
            n == hipses@.len(),
            i <= n,
            forall|a: int, b: int| 0 <= a < b < i ==> hipses@[a].layer@ != hipses@[b].layer@,
        decreases n - i,
    {
        let mut j: usize = 0;
        while j < i
            invariant
                n == hipses@.len(),
                j <= i < n,
                forall|a: int, b: int| 0 <= a < b < i ==> hipses@[a].layer@ != hipses@[b].layer@,
                forall|b: int| 0 <= b < j ==> hipses@[b].layer@ != hipses@[i as int].layer@,
            decreases i - j,
        {
            if hipses[i].layer == hipses[j].layer {
                proof {
                    assert(has_duplicate_layer(hipses@)) by {
                        assert(hipses@[j as int].layer@ == hipses@[i as int].layer@);
                    }
                }
                return true;
            }
            j += 1;
        }
        i += 1;
    }
    false
}

/// Whether every requested survey's published properties are in range.
fn check_props_in_range(hipses: &Vec<SimpleHiPS>) -> (r: bool)
    ensures
        r == all_props_valid(hipses@),
{
    let n = hipses.len();
    let mut i: usize = 0;
    while i < n
        invariant
            n == hipses@.len(),
            i <= n,
            forall|k: int|
                0 <= k < i ==> 1 <= (#[trigger] hipses@[k]).properties.tile_size <= 0x10000
                    && hipses@[k].properties.max_order <= crate::cell::MAX_TESS_DEPTH,
        decreases n - i,
    {
        let p = &hipses[i].properties;
        if p.tile_size < 1 || p.tile_size > 0x10000 || p.max_order
            > crate::cell::MAX_TESS_DEPTH {
            proof {
                if all_props_valid(hipses@) {
                    assert(1 <= (#[trigger] hipses@[i as int]).properties.tile_size <= 0x10000
                        && hipses@[i as int].properties.max_order
                        <= crate::cell::MAX_TESS_DEPTH);
                }
            }
            return false;
        }
        i += 1;
    }
    true
}

/// One plain LayerCmd per configured layer, in draw order; the sink draws
/// the visible ones.
pub struct LayerCmd {
    pub layer: String,
    pub url: String,
    pub visible: bool,
    /// The first visible layer paints the opaque background whatever its
    /// opacity asks; only it carries this mark.
    pub opaque: bool,
    pub opacity: u8,
    pub blend_cfg: crate::config::BlendCfg,
    pub shader: ShaderKind,
    /// Cull front faces for a rasterized survey stored with reversed
    /// longitude; back faces otherwise.
    pub cull_front: bool,
    /// The survey's frame decision; only taken for a visible layer.
    pub frame: Option<SurveyFrame>,
}

/// The command of layer `li` against the collection state `s0` at the start
/// of the frame: the layer's own metadata and survey configuration, the
/// shading variant and cull face, the first-visible opacity mark, and the
/// survey's frame decision (present exactly for a visible layer: not-ready
/// while the survey's base cells load, ray-traced for a wide view, else
/// rasterized).
pub open spec fn layer_cmd_matches(s0: ImageSurveys, raytracing: bool, li: int, cmd: LayerCmd) -> bool {
    let m = s0.meta@[meta_index(s0.meta@, s0.layers@[li]@)];
    let osv = s0.surveys@[survey_index(s0.surveys@, cmd.url@)].survey;
    &&& cmd.layer@ == s0.layers@[li]@
    &&& cmd.visible == m.meta.visible
    &&& cmd.opacity == m.meta.opacity
    &&& cmd.blend_cfg == m.meta.blend_cfg
    &&& cmd.url@ == s0.urls@[url_index(s0.urls@, s0.layers@[li]@)].url@
    &&& (cmd.frame is Some <==> cmd.visible)
    &&& cmd.shader == spec_shader_kind(
        m.meta.color,
        osv.textures.config.tex_storing_integers,
        osv.textures.config.tex_storing_unsigned_int,
    )
    &&& cmd.cull_front == (!raytracing && osv.textures.config.longitude_reversed)
    &&& cmd.visible ==> ((cmd.frame == Some(SurveyFrame::NotReady)) <==> !spec_ready(
        osv.textures.slots@,
    ))
    &&& cmd.visible && spec_ready(osv.textures.slots@) && raytracing ==> cmd.frame == Some(
        SurveyFrame::Raytrace { depth: osv.view.depth },
    )
    &&& cmd.visible && spec_ready(osv.textures.slots@) && !raytracing ==> (cmd.frame matches Some(
        SurveyFrame::Rasterize { .. },
    ))
    &&& cmd.opaque == (m.meta.visible && (forall|p: int|
        0 <= p < li ==> !s0.meta@[meta_index(s0.meta@, (#[trigger] s0.layers@[p])@)].meta.visible))
}

/// What the frame draws: the mode, the one-frame rebuild trigger of a
/// switch back from ray tracing, and one command per layer in order.
pub struct DrawPlan {
    pub raytracing: bool,
    pub switch_from_raytrace_to_raster: bool,
    pub layers: Vec<LayerCmd>,
}

impl ImageSurveys {
    /// Replaces the configured layers. Rejected, with nothing changed, when
    /// two layers share a name or a survey's published properties are out
    /// of the handled range. Caches of surveys still referenced are kept
    /// (their tiles need no second fetch); surveys no longer referenced are
    /// dropped; the returned URLs are the surveys newly created.
    #[verifier::rlimit(100)]
    #[verifier::spinoff_prover]
    pub fn set_image_surveys(&mut self, hipses: &Vec<SimpleHiPS>, camera: &CameraFrame) -> (r:
        Result<Vec<String>, ConfigError>)
        requires
            old(self).inv(),
            camera.well_formed(),
        ensures
            final(self).inv(),
            r is Ok <==> !has_duplicate_layer(hipses@) && all_props_valid(hipses@),
            match r {
                Err(e) => {
                    &&& *final(self) == *old(self)
                    &&& (e == ConfigError::DuplicateLayer <==> has_duplicate_layer(hipses@))
                    &&& (e == ConfigError::InvalidSurveyProperties ==> !all_props_valid(hipses@))
                },
                Ok(new_urls) => {
                    &&& !has_duplicate_layer(hipses@)
                    &&& all_props_valid(hipses@)
                    &&& hipses@.len() == 0 ==> final(self).most_precise_survey == old(self).most_precise_survey
                    &&& hipses@.len() > 0 ==> exists|q: int|
                        0 <= q < hipses@.len() && (#[trigger] hipses@[q].properties.url@) == final(self).most_precise_survey@ && (forall|p: int|
                            0 <= p < hipses@.len() ==> (#[trigger] hipses@[p]).properties.max_order
                                <= hipses@[q].properties.max_order) && (forall|p: int|
                            0 <= p < q ==> (#[trigger] hipses@[p]).properties.max_order
                                < hipses@[q].properties.max_order)
                    &&& final(self).layers@.len() == hipses@.len()
                    &&& forall|k: int|
                        0 <= k < hipses@.len() ==> (#[trigger] final(self).layers@[k])@
                            == hipses@[k].layer@
                    &&& final(self).meta@.len() == hipses@.len()
                    &&& forall|k: int|
                        0 <= k < hipses@.len() ==> (#[trigger] final(self).meta@[k]).layer@
                            == hipses@[k].layer@ && final(self).meta@[k].meta == hipses@[k].meta
                    &&& final(self).urls@.len() == hipses@.len()
                    &&& forall|k: int|
                        0 <= k < hipses@.len() ==> (#[trigger] final(self).urls@[k]).layer@
                            == hipses@[k].layer@ && final(self).urls@[k].url@
                            == hipses@[k].properties.url@
                    &&& forall|k: int|
                        0 <= k < final(self).surveys@.len() ==> requested_url(
                            hipses@,
                            (#[trigger] final(self).surveys@[k]).url@,
                        )
                    &&& forall|k: int|
                        0 <= k < old(self).surveys@.len() && requested_url(
                            hipses@,
                            (#[trigger] old(self).surveys@[k]).url@,
                        ) ==> survey_has(final(self).surveys@, old(self).surveys@[k].url@)
                            && final(self).surveys@[survey_index(
                            final(self).surveys@,
                            old(self).surveys@[k].url@,
                        )].survey.textures.slots@ == old(self).surveys@[k].survey.textures.slots@
                    &&& forall|k: int|
                        0 <= k < hipses@.len() ==> survey_has(
                            final(self).surveys@,
                            (#[trigger] hipses@[k]).properties.url@,
                        )
                    &&& forall|t: int|
                        0 <= t < new_urls@.len() ==> requested_url(
                            hipses@,
                            (#[trigger] new_urls@[t])@,
                        ) && !survey_has(old(self).surveys@, new_urls@[t]@) && survey_has(
                            final(self).surveys@,
                            new_urls@[t]@,
                        )
                    &&& forall|k: int|
                        0 <= k < hipses@.len() && !survey_has(
                            old(self).surveys@,
                            (#[trigger] hipses@[k]).properties.url@,
                        ) ==> exists|t: int|
                            0 <= t < new_urls@.len() && (#[trigger] new_urls@[t])@
                                == hipses@[k].properties.url@
                },
            },
    {
        let n = hipses.len();
        // validate before committing, so a rejected request changes nothing
        if find_duplicate_layers(hipses) {
            return Err(ConfigError::DuplicateLayer);
        }
        if !check_props_in_range(hipses) {
            return Err(ConfigError::InvalidSurveyProperties);
        }
        // drop the caches of surveys no longer referenced by any layer
        let ghost surveys0 = self.surveys@;
        let mut kept: Vec<SurveyEntry> = Vec::new();
        while self.surveys.len() > 0
            invariant
                n == hipses@.len(),
                self.meta == old(self).meta,
                self.urls == old(self).urls,
                self.layers == old(self).layers,
                self.most_precise_survey == old(self).most_precise_survey,
                self.past_rendering_mode == old(self).past_rendering_mode,
                self.current_rendering_mode == old(self).current_rendering_mode,
                self.surveys@ == surveys0.take(self.surveys@.len() as int),
                self.surveys@.len() <= surveys0.len(),
                survey_keys_distinct(surveys0),
                forall|k: int| 0 <= k < surveys0.len() ==> (#[trigger] surveys0[k]).survey.inv(),
                forall|t: int|
                    0 <= t < kept@.len() ==> exists|oi: int|
                        self.surveys@.len() <= oi < surveys0.len() && (#[trigger] kept@[t])
                            == surveys0[oi],
                forall|t: int|
                    0 <= t < kept@.len() ==> requested_url(hipses@, (#[trigger] kept@[t]).url@),
                forall|oi: int|
                    self.surveys@.len() <= oi < surveys0.len() && requested_url(
                        hipses@,
                        (#[trigger] surveys0[oi]).url@,
                    ) ==> survey_has(kept@, surveys0[oi].url@),
                survey_keys_distinct(kept@),
            decreases self.surveys@.len(),
        {
            let ghost m = self.surveys@.len() - 1;
            let e = match self.surveys.pop() {
                Some(e) => e,
                None => {
                    proof {
                        assert(false);
                    }
                    return Err(ConfigError::DuplicateLayer);
                },
            };
            proof {
                assert(self.surveys@ =~= surveys0.take(m as int));
                assert(e == surveys0[m as int]);
            }
            let mut requested = false;
            let mut k: usize = 0;
            while k < n
                invariant
                    n == hipses@.len(),
                    k <= n,
                    requested ==> requested_url(hipses@, e.url@),
                    !requested ==> forall|q: int|
                        0 <= q < k ==> (#[trigger] hipses@[q]).properties.url@ != e.url@,
                decreases n - k,
            {
                if hipses[k].properties.url == e.url {
                    requested = true;
                    proof {
                        assert(requested_url(hipses@, e.url@)) by {
                            assert(hipses@[k as int].properties.url@ == e.url@);
                        }
                    }
                }
                k += 1;
            }
            if requested {
                let ghost kept0 = kept@;
                kept.push(e);
                proof {
                    assert forall|t: int| 0 <= t < kept@.len() implies exists|oi: int|
                        m <= oi < surveys0.len() && (#[trigger] kept@[t]) == surveys0[oi] by {
                        if t < kept0.len() {
                            let oi = choose|oi: int|
                                m + 1 <= oi < surveys0.len() && kept0[t] == surveys0[oi];
                            assert(kept@[t] == surveys0[oi]);
                        } else {
                            assert(kept@[t] == surveys0[m as int]);
                        }
                    }
                    assert forall|t1: int, t2: int| 0 <= t1 < t2 < kept@.len() implies kept@[
                        t1].url@ != kept@[t2].url@ by {
                        if t2 == kept0.len() {
                            let oi = choose|oi: int|
                                m + 1 <= oi < surveys0.len() && kept0[t1] == surveys0[oi];
                            assert(surveys0[m as int].url@ != surveys0[oi].url@);
                        }
                    }
                    assert forall|oi: int|
                        m <= oi < surveys0.len() && requested_url(
                            hipses@,
                            (#[trigger] surveys0[oi]).url@,
                        ) implies survey_has(kept@, surveys0[oi].url@) by {
                        if oi == m {
                            assert(kept@[kept0.len() as int].url@ == surveys0[m as int].url@);
                        } else {
                            assert(survey_has(kept0, surveys0[oi].url@));
                            let w = choose|w: int|
                                0 <= w < kept0.len() && kept0[w].url@ == surveys0[oi].url@;
                            assert(kept@[w].url@ == surveys0[oi].url@);
                        }
                    }
                }
            } else {
                proof {
                    assert(!requested_url(hipses@, e.url@));
                    assert forall|oi: int|
                        m <= oi < surveys0.len() && requested_url(
                            hipses@,
                            (#[trigger] surveys0[oi]).url@,
                        ) implies survey_has(kept@, surveys0[oi].url@) by {
                        assert(oi != m);
                    }
                }
            }
        }
        self.surveys = kept;
        // commit the new layer set
        self.meta = Vec::new();
        self.urls = Vec::new();
        self.layers = Vec::new();
        let mut new_survey_urls: Vec<String> = Vec::new();
        let mut max_depth_among_surveys: u8 = 0;
        let mut most_precise_set = false;
        let ghost kept_final = self.surveys@;
        let mut k: usize = 0;
        while k < n
            invariant
                n == hipses@.len(),
                k <= n,
                camera.well_formed(),
                forall|a: int, b: int| 0 <= a < b < n ==> hipses@[a].layer@ != hipses@[b].layer@,
                all_props_valid(hipses@),
                survey_keys_distinct(self.surveys@),
                forall|i2: int|
                    0 <= i2 < self.surveys@.len() ==> (#[trigger] self.surveys@[i2]).survey.inv(),
                // surveys grow from the kept ones by fresh requested ones
                kept_final.len() <= self.surveys@.len(),
                forall|i2: int|
                    0 <= i2 < kept_final.len() ==> #[trigger] self.surveys@[i2] == kept_final[i2],
                forall|i2: int|
                    kept_final.len() <= i2 < self.surveys@.len() ==> requested_url(
                        hipses@,
                        (#[trigger] self.surveys@[i2]).url@,
                    ) && self.surveys@[i2].survey.textures.slots@.len() == 0 && exists|t: int|
                        0 <= t < new_survey_urls@.len() && (#[trigger] new_survey_urls@[t])@
                            == self.surveys@[i2].url@,
                forall|t: int|
                    0 <= t < kept_final.len() ==> requested_url(
                        hipses@,
                        (#[trigger] kept_final[t]).url@,
                    ),
                forall|q: int|
                    0 <= q < k ==> survey_has(
                        self.surveys@,
                        (#[trigger] hipses@[q]).properties.url@,
                    ),
                // the new-URL report
                forall|t: int|
                    0 <= t < new_survey_urls@.len() ==> requested_url(
                        hipses@,
                        (#[trigger] new_survey_urls@[t])@,
                    ) && !survey_has(kept_final, new_survey_urls@[t]@) && survey_has(
                        self.surveys@,
                        new_survey_urls@[t]@,
                    ),
                forall|q: int|
                    0 <= q < k && !survey_has(
                        kept_final,
                        (#[trigger] hipses@[q]).properties.url@,
                    ) ==> exists|t: int|
                        0 <= t < new_survey_urls@.len() && (#[trigger] new_survey_urls@[t])@
                            == hipses@[q].properties.url@,
                // the layer tables are the processed prefix
                self.meta@.len() == k,
                forall|q: int|
                    0 <= q < k ==> (#[trigger] self.meta@[q]).layer@ == hipses@[q].layer@
                        && self.meta@[q].meta == hipses@[q].meta,
                self.urls@.len() == k,
                forall|q: int|
                    0 <= q < k ==> (#[trigger] self.urls@[q]).layer@ == hipses@[q].layer@
                        && self.urls@[q].url@ == hipses@[q].properties.url@,
                self.layers@.len() == k,
                forall|q: int| 0 <= q < k ==> (#[trigger] self.layers@[q])@ == hipses@[q].layer@,
                // most precise survey of the processed prefix
                self.past_rendering_mode == old(self).past_rendering_mode,
                self.current_rendering_mode == old(self).current_rendering_mode,
                !most_precise_set ==> k == 0 && self.most_precise_survey == old(self).most_precise_survey,
                most_precise_set ==> exists|q: int|
                    0 <= q < k && (#[trigger] hipses@[q].properties.url@)
                        == self.most_precise_survey@ && hipses@[q].properties.max_order
                        == max_depth_among_surveys && (forall|p: int|
                        0 <= p < k ==> (#[trigger] hipses@[p]).properties.max_order
                            <= max_depth_among_surveys) && (forall|p: int|
                        0 <= p < q ==> (#[trigger] hipses@[p]).properties.max_order
                            < max_depth_among_surveys),
            decreases n - k,
        {
            let hips = &hipses[k];
            let config = match HiPSConfig::new(&hips.properties) {
                Ok(c) => c,
                Err(_) => {
                    proof {
                        assert(false);
                    }
                    return Err(ConfigError::InvalidSurveyProperties);
                },
            };
            let url = hips.properties.url.clone();
            let max_order = hips.properties.max_order;
            if !most_precise_set || max_order > max_depth_among_surveys {
                max_depth_among_surveys = max_order;
                self.most_precise_survey = url.clone();
                most_precise_set = true;
            }
            let ghost pre = self.surveys@;
            let ghost new_urls0 = new_survey_urls@;
            match self.find_survey(&url) {
                Some(si) => {
                    proof {
                        assert(self.surveys@[si as int].url@ == url@);
                        assert(survey_has(self.surveys@, url@)) by {
                            assert(self.surveys@[si as int].url@ == url@);
                        }
                        if !survey_has(kept_final, url@) {
                            assert(si as int >= kept_final.len()) by {
                                if (si as int) < kept_final.len() {
                                    assert(kept_final[si as int].url@ == url@);
                                    assert(survey_has(kept_final, url@)) by {
                                        assert(kept_final[si as int].url@ == url@);
                                    }
                                }
                            }
                        }
                    }
                },
                None => {
                    let survey = ImageSurvey::new(config, camera);
                    self.surveys.push(SurveyEntry { url: url.clone(), survey });
                    new_survey_urls.push(url.clone());
                    proof {
                        assert(requested_url(hipses@, url@)) by {
                            assert(hipses@[k as int].properties.url@ == url@);
                        }
                        assert forall|i2: int, j2: int|
                            0 <= i2 < j2 < self.surveys@.len() implies self.surveys@[i2].url@
                            != self.surveys@[j2].url@ by {
                            if j2 == pre.len() {
                                assert(!survey_has(pre, url@));
                                if self.surveys@[i2].url@ == url@ {
                                    assert(survey_has(pre, url@)) by {
                                        assert(pre[i2].url@ == url@);
                                    }
                                }
                            }
                        }
                        assert(!survey_has(kept_final, url@)) by {
                            if survey_has(kept_final, url@) {
                                let w = choose|w: int|
                                    0 <= w < kept_final.len() && kept_final[w].url@ == url@;
                                assert(pre[w].url@ == url@);
                                assert(survey_has(pre, url@)) by {
                                    assert(pre[w].url@ == url@);
                                }
                            }
                        }
                        assert(self.surveys@[pre.len() as int].url@ == url@);
                        assert(survey_has(self.surveys@, url@)) by {
                            assert(self.surveys@[pre.len() as int].url@ == url@);
                        }
                        assert(new_survey_urls@[new_urls0.len() as int]@ == url@);
                        assert forall|i2: int|
                            kept_final.len() <= i2 < self.surveys@.len() implies requested_url(
                            hipses@,
                            (#[trigger] self.surveys@[i2]).url@,
                        ) && self.surveys@[i2].survey.textures.slots@.len() == 0 && exists|t: int|
                            0 <= t < new_survey_urls@.len() && (#[trigger] new_survey_urls@[t])@
                                == self.surveys@[i2].url@ by {
                            if i2 < pre.len() {
                                assert(self.surveys@[i2] == pre[i2]);
                                let t0 = choose|t0: int|
                                    0 <= t0 < new_urls0.len() && (new_urls0[t0])@ == pre[i2].url@;
                                assert(new_survey_urls@[t0]@ == self.surveys@[i2].url@);
                            } else {
                                assert(i2 == pre.len());
                                assert(new_survey_urls@[new_urls0.len() as int]@
                                    == self.surveys@[i2].url@);
                            }
                        }
                    }
                },
            }
            proof {
                assert forall|q: int| 0 <= q < k + 1 implies survey_has(
                    self.surveys@,
                    (#[trigger] hipses@[q]).properties.url@,
                ) by {
                    if q < k {
                        assert(survey_has(pre, hipses@[q].properties.url@));
                        let w = choose|w: int|
                            0 <= w < pre.len() && pre[w].url@ == hipses@[q].properties.url@;
                        assert(self.surveys@[w].url@ == hipses@[q].properties.url@);
                    } else {
                        assert(survey_has(self.surveys@, hipses@[k as int].properties.url@));
                    }
                }
                assert forall|t: int| 0 <= t < new_survey_urls@.len() implies requested_url(
                    hipses@,
                    (#[trigger] new_survey_urls@[t])@,
                ) && !survey_has(kept_final, new_survey_urls@[t]@) && survey_has(
                    self.surveys@,
                    new_survey_urls@[t]@,
                ) by {
                    if t < new_urls0.len() {
                        assert(survey_has(pre, new_urls0[t]@));
                        let w = choose|w: int|
                            0 <= w < pre.len() && pre[w].url@ == new_urls0[t]@;
                        assert(self.surveys@[w].url@ == new_urls0[t]@);
                    }
                }
                assert forall|q: int|
                    0 <= q < k + 1 && !survey_has(
                        kept_final,
                        (#[trigger] hipses@[q]).properties.url@,
                    ) implies exists|t: int|
                        0 <= t < new_survey_urls@.len() && (#[trigger] new_survey_urls@[t])@
                            == hipses@[q].properties.url@ by {
                    if q < k {
                        let t0 = choose|t0: int|
                            0 <= t0 < new_urls0.len() && (new_urls0[t0])@
                                == hipses@[q].properties.url@;
                        assert(new_survey_urls@[t0]@ == hipses@[q].properties.url@);
                    } else {
                        assert(survey_has(self.surveys@, url@));
                        let w = choose|w: int| 0 <= w < self.surveys@.len()
                            && self.surveys@[w].url@ == url@;
                        if w < kept_final.len() {
                            assert(self.surveys@[w] == kept_final[w]);
                            assert(survey_has(kept_final, url@)) by {
                                assert(kept_final[w].url@ == url@);
                            }
                        } else if w < pre.len() {
                            let t0 = choose|t0: int|
                                0 <= t0 < new_urls0.len() && (new_urls0[t0])@ == pre[w].url@;
                            assert(new_survey_urls@[t0]@ == hipses@[q].properties.url@);
                        } else {
                            assert(new_survey_urls@[new_urls0.len() as int]@ == url@);
                            assert(new_survey_urls@[new_urls0.len() as int]@
                                == hipses@[q].properties.url@);
                        }
                    }
                }
            }
            self.meta.push(MetaEntry { layer: hips.layer.clone(), meta: hips.meta });
            self.urls.push(UrlEntry { layer: hips.layer.clone(), url });
            self.layers.push(hips.layer.clone());
            k += 1;
        }
        proof {
            assert forall|i2: int|
                0 <= i2 < self.urls@.len() implies survey_has(
                self.surveys@,
                (#[trigger] self.urls@[i2]).url@,
            ) by {
                assert(survey_has(self.surveys@, hipses@[i2].properties.url@));
            }
            assert forall|i2: int|
                0 <= i2 < self.layers@.len() implies meta_has(
                self.meta@,
                (#[trigger] self.layers@[i2])@,
            ) && url_has(self.urls@, self.layers@[i2]@) by {
                assert(self.meta@[i2].layer@ == self.layers@[i2]@);
                assert(self.urls@[i2].layer@ == self.layers@[i2]@);
            }
            assert forall|a: int, b: int| 0 <= a < b < self.meta@.len() implies self.meta@[
                a].layer@ != self.meta@[b].layer@ by {
                assert(hipses@[a].layer@ != hipses@[b].layer@);
            }
            assert forall|a: int, b: int| 0 <= a < b < self.urls@.len() implies self.urls@[
                a].layer@ != self.urls@[b].layer@ by {
                assert(hipses@[a].layer@ != hipses@[b].layer@);
            }
            if n == 0 && self.surveys@.len() > 0 {
                assert(requested_url(hipses@, self.surveys@[0].url@));
                assert(false);
            }
            if self.surveys@.len() > 0 {
                if n > 0 {
                    assert(survey_has(self.surveys@, self.most_precise_survey@)) by {
                        let q = choose|q: int|
                            0 <= q < n && (#[trigger] hipses@[q].properties.url@)
                                == self.most_precise_survey@ && hipses@[q].properties.max_order
                                == max_depth_among_surveys && (forall|p: int|
                                0 <= p < n ==> (#[trigger] hipses@[p]).properties.max_order
                                    <= max_depth_among_surveys) && (forall|p: int|
                                0 <= p < q ==> (#[trigger] hipses@[p]).properties.max_order
                                    < max_depth_among_surveys);
                        assert(survey_has(self.surveys@, hipses@[q].properties.url@));
                    }
                }
            }
            assert forall|k2: int|
                0 <= k2 < old(self).surveys@.len() && requested_url(
                    hipses@,
                    (#[trigger] old(self).surveys@[k2]).url@,
                ) implies survey_has(final(self).surveys@, old(self).surveys@[k2].url@) && final(self).surveys@[survey_index(final(self).surveys@, old(self).surveys@[k2].url@)].survey.textures.slots@
                == old(self).surveys@[k2].survey.textures.slots@ by {
                assert(surveys0[k2] == old(self).surveys@[k2]);
                assert(survey_has(kept_final, surveys0[k2].url@));
                let w = choose|w: int|
                    0 <= w < kept_final.len() && kept_final[w].url@ == surveys0[k2].url@;
                let oi = choose|oi: int|
                    0 <= oi < surveys0.len() && kept_final[w] == surveys0[oi];
                assert(oi == k2) by {
                    if oi < k2 {
                        assert(surveys0[oi].url@ != surveys0[k2].url@);
                    } else if k2 < oi {
                        assert(surveys0[k2].url@ != surveys0[oi].url@);
                    }
                }
                assert(self.surveys@[w] == kept_final[w]);
                let w2 = survey_index(self.surveys@, surveys0[k2].url@);
                assert(survey_has(self.surveys@, surveys0[k2].url@)) by {
                    assert(self.surveys@[w].url@ == surveys0[k2].url@);
                }
                if w < w2 {
                    assert(self.surveys@[w].url@ != self.surveys@[w2].url@);
                } else if w2 < w {
                    assert(self.surveys@[w2].url@ != self.surveys@[w].url@);
                }
            }
        }
        Ok(new_survey_urls)
    }

    /// One frame of the whole collection. The rendering mode is decided
    /// once for the frame: ray casting when the projection reports a wide
    /// field of view, the rasterized mesh otherwise, with a one-frame flag
    /// forcing geometry rebuilds on the switch back from ray casting. Each
    /// layer yields one command in configured order; invisible layers are
    /// marked and not stepped.
    pub fn draw(&mut self, camera: &CameraFrame, raytracing: bool) -> (plan: DrawPlan)
        requires
            old(self).inv(),
            camera.well_formed(),
        ensures
            final(self).inv(),
            final(self).current_rendering_mode == (if raytracing {
                RenderingMode::Raytrace
            } else {
                RenderingMode::Rasterize
            }),
            final(self).past_rendering_mode == final(self).current_rendering_mode,
            plan.raytracing == raytracing,
            plan.switch_from_raytrace_to_raster == (!raytracing && old(self).past_rendering_mode
                == RenderingMode::Raytrace),
            plan.layers@.len() == final(self).layers@.len(),
            final(self).layers == old(self).layers,
            final(self).meta == old(self).meta,
            final(self).urls == old(self).urls,
            final(self).most_precise_survey == old(self).most_precise_survey,
            final(self).surveys@.len() == old(self).surveys@.len(),
            forall|k: int|
                0 <= k < final(self).surveys@.len() ==> {
                    let e = #[trigger] final(self).surveys@[k];
                    let o = old(self).surveys@[k];
                    &&& e.url == o.url
                    &&& e.survey.textures.slots@ == o.survey.textures.slots@
                    &&& e.survey.textures.config == o.survey.textures.config
                    &&& e.survey.view.cells@ == o.survey.view.cells@
                    &&& e.survey.view.depth == o.survey.view.depth
                },
            forall|li: int|
                0 <= li < plan.layers@.len() ==> layer_cmd_matches(
                    *old(self),
                    raytracing,
                    li,
                    #[trigger] plan.layers@[li],
                ),
    {
        let mut switch_from_raytrace_to_raster = false;
        if raytracing {
            self.current_rendering_mode = RenderingMode::Raytrace;
        } else {
            self.current_rendering_mode = RenderingMode::Rasterize;
            if self.past_rendering_mode == RenderingMode::Raytrace {
                switch_from_raytrace_to_raster = true;
            }
        }
        let n = self.layers.len();
        let mut cmds: Vec<LayerCmd> = Vec::new();
        let mut seen_visible = false;
        let mut li: usize = 0;
        while li < n
            invariant
                old(self).inv(),
                camera.well_formed(),
                n == self.layers@.len(),
                li <= n,
                self.layers == old(self).layers,
                self.meta == old(self).meta,
                self.urls == old(self).urls,
                self.most_precise_survey == old(self).most_precise_survey,
                self.past_rendering_mode == old(self).past_rendering_mode,
                self.current_rendering_mode == (if raytracing {
                    RenderingMode::Raytrace
                } else {
                    RenderingMode::Rasterize
                }),
                switch_from_raytrace_to_raster == (!raytracing && old(self).past_rendering_mode
                    == RenderingMode::Raytrace),
                self.surveys@.len() == old(self).surveys@.len(),
                forall|k: int|
                    0 <= k < self.surveys@.len() ==> {
                        let e = #[trigger] self.surveys@[k];
                        let o = old(self).surveys@[k];
                        &&& e.url == o.url
                        &&& e.survey.inv()
                        &&& e.survey.textures.slots@ == o.survey.textures.slots@
                        &&& e.survey.textures.config == o.survey.textures.config
                        &&& e.survey.view.cells@ == o.survey.view.cells@
                        &&& e.survey.view.depth == o.survey.view.depth
                    },
                cmds@.len() == li,
                forall|q: int|
                    0 <= q < li ==> layer_cmd_matches(
                        *old(self),
                        raytracing,
                        q,
                        #[trigger] cmds@[q],
                    ),
                seen_visible == exists|p: int|
                    0 <= p < li && old(self).meta@[meta_index(
                        old(self).meta@,
                        (#[trigger] old(self).layers@[p])@,
                    )].meta.visible,
            decreases n - li,
        {
            let layer = self.layers[li].clone();
            let mi = match self.find_meta(&layer) {
                Some(mi) => mi,
                None => {
                    proof {
                        assert(meta_has(self.meta@, self.layers@[li as int]@));
                        assert(false);
                    }
                    return DrawPlan {
                        raytracing,
                        switch_from_raytrace_to_raster,
                        layers: cmds,
                    };
                },
            };
            let meta = self.meta[mi].meta;
            let ui = match self.find_url(&layer) {
                Some(ui) => ui,
                None => {
                    proof {
                        assert(url_has(self.urls@, self.layers@[li as int]@));
                        assert(false);
                    }
                    return DrawPlan {
                        raytracing,
                        switch_from_raytrace_to_raster,
                        layers: cmds,
                    };
                },
            };
            let url = self.urls[ui].url.clone();
            proof {
                lemma_same_keys_preserve(old(self).surveys@, self.surveys@);
                assert(survey_has(old(self).surveys@, url@)) by {
                    assert(self.urls@[ui as int].url@ == url@);
                }
            }
            let si = match self.find_survey(&url) {
                Some(si) => si,
                None => {
                    proof {
                        assert(false);
                    }
                    return DrawPlan {
                        raytracing,
                        switch_from_raytrace_to_raster,
                        layers: cmds,
                    };
                },
            };
            let ghost pre = self.surveys@;
            let cfg_integers = self.surveys[si].survey.textures.config.tex_storing_integers;
            let cfg_unsigned = self.surveys[si].survey.textures.config.tex_storing_unsigned_int;
            let longitude_reversed = self.surveys[si].survey.longitude_reversed();
            let shader = if raytracing {
                get_raytracer_shader(&meta.color, cfg_integers, cfg_unsigned)
            } else {
                get_raster_shader(&meta.color, cfg_integers, cfg_unsigned)
            };
            let cull_front = !raytracing && longitude_reversed;
            let opaque = meta.visible() && !seen_visible;
            let ghost seen0 = seen_visible;
            if meta.visible() {
                seen_visible = true;
            }
            let frame = if meta.visible() {
                Some(
                    self.surveys[si].survey.draw(
                        camera,
                        raytracing,
                        switch_from_raytrace_to_raster,
                    ),
                )
            } else {
                None
            };
            proof {
                assert(survey_index(old(self).surveys@, url@) == si as int) by {
                    let w = survey_index(old(self).surveys@, url@);
                    assert(old(self).surveys@[w].url@ == url@);
                    assert(old(self).surveys@[si as int].url@ == url@);
                    if w < si as int {
                        assert(old(self).surveys@[w].url@ != old(self).surveys@[si as int].url@);
                    } else if si < w {
                        assert(old(self).surveys@[si as int].url@ != old(self).surveys@[w].url@);
                    }
                }
            }
            proof {
                let m = old(self).meta@[meta_index(old(self).meta@, old(self).layers@[li as int]@)];
                assert(m == old(self).meta@[mi as int]);
                if meta.visible {
                    assert(seen_visible == exists|p: int|
                        0 <= p < li + 1 && old(self).meta@[meta_index(
                            old(self).meta@,
                            (#[trigger] old(self).layers@[p])@,
                        )].meta.visible) by {
                        assert(old(self).meta@[meta_index(
                            old(self).meta@,
                            old(self).layers@[li as int]@,
                        )].meta.visible);
                    }
                } else {
                    assert(seen_visible == exists|p: int|
                        0 <= p < li + 1 && old(self).meta@[meta_index(
                            old(self).meta@,
                            (#[trigger] old(self).layers@[p])@,
                        )].meta.visible) by {
                        if !seen0 {
                            if exists|p: int|
                                0 <= p < li + 1 && old(self).meta@[meta_index(
                                    old(self).meta@,
                                    (#[trigger] old(self).layers@[p])@,
                                )].meta.visible {
                                let p = choose|p: int|
                                    0 <= p < li + 1 && old(self).meta@[meta_index(
                                        old(self).meta@,
                                        (#[trigger] old(self).layers@[p])@,
                                    )].meta.visible;
                                assert(p < li);
                            }
                        }
                    }
                }
                assert(opaque == (m.meta.visible && (forall|p: int|
                    0 <= p < li ==> !old(self).meta@[meta_index(
                        old(self).meta@,
                        (#[trigger] old(self).layers@[p])@,
                    )].meta.visible))) by {
                    if seen0 {
                        let p = choose|p: int|
                            0 <= p < li && old(self).meta@[meta_index(
                                old(self).meta@,
                                (#[trigger] old(self).layers@[p])@,
                            )].meta.visible;
                        assert(!(forall|p2: int|
                            0 <= p2 < li ==> !old(self).meta@[meta_index(
                                old(self).meta@,
                                (#[trigger] old(self).layers@[p2])@,
                            )].meta.visible)) by {
                            assert(old(self).meta@[meta_index(
                                old(self).meta@,
                                old(self).layers@[p]@,
                            )].meta.visible);
                        }
                    }
                }
            }
            cmds.push(
                LayerCmd {
                    layer,
                    url,
                    visible: meta.visible,
                    opaque,
                    opacity: meta.opacity,
                    blend_cfg: meta.blend_cfg,
                    shader,
                    cull_front,
                    frame,
                },
            );
            li += 1;
        }
        self.past_rendering_mode = self.current_rendering_mode;
        proof {
            lemma_same_keys_preserve(old(self).surveys@, self.surveys@);
        }
        DrawPlan { raytracing, switch_from_raytrace_to_raster, layers: cmds }
    }
}

/// Two survey lists with equal keys at each index carry the same key set.
proof fn lemma_same_keys_preserve(a: Seq<SurveyEntry>, b: Seq<SurveyEntry>)
    requires
        a.len() == b.len(),
        forall|k: int| 0 <= k < a.len() ==> (#[trigger] b[k]).url@ == a[k].url@,
    ensures
        survey_keys_distinct(a) ==> survey_keys_distinct(b),
        forall|key: Seq<char>| survey_has(a, key) ==> #[trigger] survey_has(b, key),
{
    assert forall|key: Seq<char>| survey_has(a, key) implies #[trigger] survey_has(b, key) by {
        let w = choose|i: int| 0 <= i < a.len() && a[i].url@ == key;
        assert(b[w].url@ == key);
    }
}

} // verus!
