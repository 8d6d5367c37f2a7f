use hips_core::cell::HEALPixCell;
use hips_core::config::{BlendCfg, HiPSColor, HiPSConfig, HiPSProperties, ImageSurveyMeta, SimpleHiPS};
use hips_core::config::ConfigError;
use hips_core::shader::ShaderKind;
use hips_core::survey::{ImageSurvey, SurveyFrame};
use hips_core::surveys::{ImageSurveys, RenderingMode, RetrievedImageType, Tile, TileResolved};
use hips_core::view::{CameraFrame, CellRange, UserAction};

const BASE_SPAN: u64 = 288230376151711744;

fn camera() -> CameraFrame {
    CameraFrame {
        base_cell_px: 100,
        coverage: vec![CellRange { start: 0, end: 12 * BASE_SPAN }],
        user_action: UserAction::Moving,
    }
}

fn props(url: &str, max_order: u8) -> HiPSProperties {
    HiPSProperties {
        url: url.to_string(),
        max_order,
        tile_size: 512,
        longitude_reversed: false,
        tex_storing_integers: false,
        tex_storing_unsigned_int: false,
    }
}

fn meta(visible: bool) -> ImageSurveyMeta {
    ImageSurveyMeta {
        color: HiPSColor::Color,
        opacity: 255,
        blend_cfg: BlendCfg::SourceOver,
        visible,
    }
}

fn hips(layer: &str, url: &str, max_order: u8, visible: bool) -> SimpleHiPS {
    SimpleHiPS { layer: layer.to_string(), properties: props(url, max_order), meta: meta(visible) }
}

fn cell(depth: u8, idx: u64) -> HEALPixCell {
    HEALPixCell { depth, idx }
}

fn ready_survey(url: &str) -> ImageSurvey {
    let config = HiPSConfig::new(&props(url, 5)).unwrap();
    let mut survey = ImageSurvey::new(config, &camera());
    for k in 0..12u64 {
        survey.push_tile(&cell(0, k), k, 777, false);
    }
    survey
}

#[test]
fn survey_skips_while_base_cells_load() {
    let config = HiPSConfig::new(&props("u", 5)).unwrap();
    let mut survey = ImageSurvey::new(config, &camera());
    assert_eq!(survey.draw(&camera(), false, false), SurveyFrame::NotReady);
}

#[test]
fn survey_raytraces_wide_fields_of_view() {
    let mut survey = ready_survey("u");
    assert_eq!(survey.draw(&camera(), true, false), SurveyFrame::Raytrace { depth: 0 });
}

#[test]
fn survey_rebuilds_geometry_once_per_change() {
    let mut survey = ready_survey("u");
    // first frame: the viewport and the cache both changed
    let frame = survey.draw(&camera(), false, false);
    // 12 base cells, 6 segments per side, 36 quads, 6 indices each
    assert_eq!(frame, SurveyFrame::Rasterize { recomputed: true, num_idx: 12 * 216 });
    // the frame ends by clearing the one-frame viewport trigger
    survey.reset_frame();
    // nothing changed: the buffers stay
    let frame = survey.draw(&camera(), false, false);
    assert_eq!(frame, SurveyFrame::Rasterize { recomputed: false, num_idx: 12 * 216 });
    // the switch back from ray tracing alone forces a rebuild
    let frame = survey.draw(&camera(), false, true);
    assert_eq!(frame, SurveyFrame::Rasterize { recomputed: true, num_idx: 12 * 216 });
}

#[test]
fn survey_buffers_carry_the_blend_data() {
    let mut survey = ready_survey("u");
    survey.draw(&camera(), false, false);
    // 49 grid vertices per cell at depth zero
    assert_eq!(survey.time_tile_received.len(), 12 * 49);
    assert_eq!(survey.uv_start.len(), 3 * 12 * 49);
    assert_eq!(survey.uv_end.len(), 3 * 12 * 49);
    // the blend of a resident base cell starts at its own arrival time
    assert_eq!(survey.time_tile_received[0], 777);
    assert!(!survey.m0[0]);
    assert!(!survey.m1[0]);
    // cell 0 occupies slot 0, the atlas origin: vertex (0, 0) is texel
    // (0, 0), vertex (0, 1) one grid step, 512 / 6 texels, to the right
    assert_eq!(survey.uv_start[0..3].to_vec(), vec![0u64, 0, 0]);
    assert_eq!(survey.uv_start[3..6].to_vec(), vec![512u64, 0, 0]);
    // first quad of the element buffer, on a 7-vertex-per-row grid
    assert_eq!(survey.idx_vertices[0..6].to_vec(), vec![0u16, 1, 7, 1, 8, 7]);
}

#[test]
fn duplicate_layer_names_are_rejected() {
    let mut surveys = ImageSurveys::new();
    let request = vec![hips("a", "u1", 3, true), hips("a", "u2", 4, true)];
    assert_eq!(
        surveys.set_image_surveys(&request, &camera()),
        Err(ConfigError::DuplicateLayer)
    );
    assert_eq!(surveys.layers.len(), 0);
}

#[test]
fn out_of_range_properties_are_rejected() {
    let mut surveys = ImageSurveys::new();
    let mut bad = hips("a", "u1", 3, true);
    bad.properties.tile_size = 0;
    assert_eq!(
        surveys.set_image_surveys(&vec![bad], &camera()),
        Err(ConfigError::InvalidSurveyProperties)
    );
}

#[test]
fn configuring_layers_reports_the_new_surveys() {
    let mut surveys = ImageSurveys::new();
    let request = vec![hips("base", "u1", 3, true), hips("overlay", "u2", 5, true)];
    let new_urls = surveys.set_image_surveys(&request, &camera()).unwrap();
    assert_eq!(new_urls, vec!["u1".to_string(), "u2".to_string()]);
    assert_eq!(surveys.layers.len(), 2);
    assert!(surveys.get(&"u1".to_string()).is_some());
    assert!(surveys.get(&"u2".to_string()).is_some());
    // the survey with the deepest tiles carries the scene's viewport
    assert_eq!(surveys.most_precise_survey, "u2".to_string());
    assert!(surveys.get_view().is_some());
    assert!(surveys.last().is_some());
}

#[test]
fn reconfiguring_keeps_the_caches_still_referenced() {
    let mut surveys = ImageSurveys::new();
    let request = vec![hips("base", "u1", 3, true), hips("overlay", "u2", 5, true)];
    surveys.set_image_surveys(&request, &camera()).unwrap();
    let tiles: Vec<(Tile, TileResolved)> = (0..12u64)
        .map(|k| {
            (
                Tile { root_url: "u2".to_string(), cell: cell(0, k) },
                TileResolved::Found { image: RetrievedImageType::PngRgba8, time_req: k },
            )
        })
        .collect();
    surveys.add_resolved_tiles(&tiles, 500);
    assert!(surveys.get(&"u2".to_string()).unwrap().textures.is_ready());
    // drop the base layer, keep the overlay: its cache must survive
    let request = vec![hips("overlay", "u2", 5, true)];
    let new_urls = surveys.set_image_surveys(&request, &camera()).unwrap();
    assert!(new_urls.is_empty());
    assert!(surveys.get(&"u1".to_string()).is_none());
    assert!(surveys.get(&"u2".to_string()).unwrap().textures.is_ready());
}

#[test]
fn missing_resolution_installs_a_placeholder() {
    let mut surveys = ImageSurveys::new();
    surveys.set_image_surveys(&vec![hips("base", "u1", 3, true)], &camera()).unwrap();
    let entries = vec![(
        Tile { root_url: "u1".to_string(), cell: cell(1, 2) },
        TileResolved::Missing { time_req: 42 },
    )];
    surveys.add_resolved_tiles(&entries, 900);
    let survey = surveys.get(&"u1".to_string()).unwrap();
    let slot = survey.textures.get(&cell(1, 2)).unwrap();
    assert!(survey.textures.get_slot(slot).is_missing());
    assert_eq!(survey.textures.get_slot(slot).start_time(), 900);
    // a tile of a survey that is no longer loaded is dropped silently
    let stray = vec![(
        Tile { root_url: "gone".to_string(), cell: cell(1, 3) },
        TileResolved::Missing { time_req: 43 },
    )];
    surveys.add_resolved_tiles(&stray, 901);
}

#[test]
fn available_tiles_raise_the_rebuild_trigger() {
    let mut surveys = ImageSurveys::new();
    surveys.set_image_surveys(&vec![hips("base", "u1", 3, true)], &camera()).unwrap();
    // a fresh survey has no pending-change trigger
    let tiles = vec![Tile { root_url: "u1".to_string(), cell: cell(0, 3) }];
    surveys.set_available_tiles(&tiles);
    assert!(surveys.get(&"u1".to_string()).unwrap().textures.available_tiles_flag);
}

#[test]
fn collection_is_ready_when_every_survey_is() {
    let mut surveys = ImageSurveys::new();
    surveys.set_image_surveys(&vec![hips("base", "u1", 3, true)], &camera()).unwrap();
    assert!(!surveys.is_ready());
    let tiles: Vec<(Tile, TileResolved)> = (0..12u64)
        .map(|k| {
            (
                Tile { root_url: "u1".to_string(), cell: cell(0, k) },
                TileResolved::Found { image: RetrievedImageType::JpgRgb8, time_req: k },
            )
        })
        .collect();
    surveys.add_resolved_tiles(&tiles, 100);
    assert!(surveys.is_ready());
}

#[test]
fn layer_metadata_can_be_read_and_replaced() {
    let mut surveys = ImageSurveys::new();
    surveys.set_image_surveys(&vec![hips("base", "u1", 3, true)], &camera()).unwrap();
    let m = surveys.get_image_survey_color_cfg(&"base".to_string()).unwrap();
    assert!(m.visible);
    let mut m2 = m;
    m2.visible = false;
    m2.opacity = 128;
    surveys.set_image_survey_color_cfg(&"base".to_string(), m2).unwrap();
    let m3 = surveys.get_image_survey_color_cfg(&"base".to_string()).unwrap();
    assert!(!m3.visible);
    assert_eq!(m3.opacity, 128);
    assert_eq!(
        surveys.get_image_survey_color_cfg(&"nope".to_string()),
        Err(ConfigError::LayerNotFound)
    );
    assert_eq!(
        surveys.set_image_survey_color_cfg(&"nope".to_string(), meta(true)),
        Err(ConfigError::LayerNotFound)
    );
}

#[test]
fn frame_plan_follows_layer_order_and_visibility() {
    let mut surveys = ImageSurveys::new();
    let request = vec![hips("base", "u1", 3, true), hips("hidden", "u2", 5, false)];
    surveys.set_image_surveys(&request, &camera()).unwrap();
    let plan = surveys.draw(&camera(), true);
    assert!(plan.raytracing);
    assert!(!plan.switch_from_raytrace_to_raster);
    assert_eq!(plan.layers.len(), 2);
    assert_eq!(plan.layers[0].layer, "base".to_string());
    assert_eq!(plan.layers[0].url, "u1".to_string());
    assert!(plan.layers[0].visible);
    // the survey has no tiles yet: its step reports not-ready
    assert_eq!(plan.layers[0].frame, Some(SurveyFrame::NotReady));
    assert_eq!(plan.layers[0].shader, ShaderKind::Color);
    assert!(!plan.layers[0].cull_front);
    // the first visible layer carries the opaque-background mark
    assert!(plan.layers[0].opaque);
    // invisible layers are marked and not stepped
    assert!(!plan.layers[1].visible);
    assert!(plan.layers[1].frame.is_none());
    assert!(!plan.layers[1].opaque);
    assert_eq!(surveys.current_rendering_mode, RenderingMode::Raytrace);
}

#[test]
fn switching_from_raytrace_to_raster_raises_the_one_frame_flag() {
    let mut surveys = ImageSurveys::new();
    surveys.set_image_surveys(&vec![hips("base", "u1", 3, true)], &camera()).unwrap();
    let plan = surveys.draw(&camera(), true);
    assert!(!plan.switch_from_raytrace_to_raster);
    let plan = surveys.draw(&camera(), false);
    assert!(plan.switch_from_raytrace_to_raster);
    assert_eq!(surveys.past_rendering_mode, RenderingMode::Rasterize);
    let plan = surveys.draw(&camera(), false);
    assert!(!plan.switch_from_raytrace_to_raster);
}

#[test]
fn reset_frame_clears_every_viewport_trigger() {
    let mut surveys = ImageSurveys::new();
    surveys.set_image_surveys(&vec![hips("base", "u1", 3, true)], &camera()).unwrap();
    surveys.refresh_views(&camera());
    surveys.reset_frame();
    let survey = surveys.get(&"u1".to_string()).unwrap();
    assert!(!survey.view.is_there_new_cells_added());
}

#[test]
fn first_maximum_order_wins_the_viewport() {
    let mut surveys = ImageSurveys::new();
    let request = vec![
        hips("a", "u1", 5, true),
        hips("b", "u2", 5, true),
        hips("c", "u3", 3, true),
    ];
    surveys.set_image_surveys(&request, &camera()).unwrap();
    assert_eq!(surveys.most_precise_survey, "u1".to_string());
}

#[test]
fn the_first_visible_layer_carries_the_opaque_mark() {
    let mut surveys = ImageSurveys::new();
    let request = vec![hips("hidden", "u1", 3, false), hips("shown", "u2", 3, true)];
    surveys.set_image_surveys(&request, &camera()).unwrap();
    let plan = surveys.draw(&camera(), true);
    assert!(!plan.layers[0].opaque);
    assert!(plan.layers[1].opaque);
}

#[test]
fn ready_survey_frames_follow_the_mode() {
    let mut surveys = ImageSurveys::new();
    surveys.set_image_surveys(&vec![hips("base", "u1", 3, true)], &camera()).unwrap();
    let tiles: Vec<(Tile, TileResolved)> = (0..12u64)
        .map(|k| {
            (
                Tile { root_url: "u1".to_string(), cell: cell(0, k) },
                TileResolved::Found { image: RetrievedImageType::PngRgba8, time_req: k },
            )
        })
        .collect();
    surveys.add_resolved_tiles(&tiles, 50);
    let plan = surveys.draw(&camera(), true);
    assert_eq!(plan.layers[0].frame, Some(SurveyFrame::Raytrace { depth: 0 }));
    let plan = surveys.draw(&camera(), false);
    assert!(matches!(
        plan.layers[0].frame,
        Some(SurveyFrame::Rasterize { recomputed: true, .. })
    ));
}

#[test]
fn over_budget_frames_keep_the_change_triggers() {
    // a viewport of 12288 depth-five cells exceeds the rasterizer's budget
    let wide = CameraFrame {
        base_cell_px: u64::MAX,
        coverage: vec![CellRange { start: 0, end: 12 * BASE_SPAN }],
        user_action: UserAction::Moving,
    };
    let config = HiPSConfig::new(&props("u", 5)).unwrap();
    let mut survey = ImageSurvey::new(config, &wide);
    for k in 0..12u64 {
        survey.push_tile(&cell(0, k), k, 777, false);
    }
    assert!(survey.view.num_of_cells() > 768);
    let frame = survey.draw(&wide, false, false);
    assert_eq!(frame, SurveyFrame::Rasterize { recomputed: false, num_idx: 0 });
    // the pending cache change was not consumed by the skipped rebuild
    assert!(survey.textures.available_tiles_flag);
    // once the viewport shrinks, the pending change rebuilds the buffers
    survey.refresh_view(&camera());
    let frame = survey.draw(&camera(), false, false);
    assert!(matches!(frame, SurveyFrame::Rasterize { recomputed: true, .. }));
}
