use hips_core::cell::HEALPixCell;
use hips_core::config::{HiPSConfig, HiPSProperties};
use hips_core::lod::{Move, RecomputeRasterizer, TextureToDraw, TexturesToDraw, UnZoom, Zoom};
use hips_core::textures::ImageSurveyTextures;
use hips_core::view::{HEALPixCellsInView, UserAction};

fn props(url: &str) -> HiPSProperties {
    HiPSProperties {
        url: url.to_string(),
        max_order: 5,
        tile_size: 512,
        longitude_reversed: false,
        tex_storing_integers: false,
        tex_storing_unsigned_int: false,
    }
}

fn config(url: &str) -> HiPSConfig {
    HiPSConfig::new(&props(url)).unwrap()
}

fn cell(depth: u8, idx: u64) -> HEALPixCell {
    HEALPixCell { depth, idx }
}

fn empty_view() -> Vec<HEALPixCell> {
    Vec::new()
}

/// A cache with the twelve base cells resident, pushed in index order so
/// they take slots 0 through 11.
fn ready_cache(url: &str) -> ImageSurveyTextures {
    let mut cache = ImageSurveyTextures::new(config(url));
    for k in 0..12u64 {
        assert!(cache.push(&cell(0, k), k, 1000 + k, false, &empty_view()));
    }
    cache
}

fn view_of(depth: u8, cells: Vec<HEALPixCell>) -> HEALPixCellsInView {
    HEALPixCellsInView {
        depth,
        cells,
        is_new_cells_added: true,
        user_action: UserAction::Moving,
    }
}

#[test]
fn ready_needs_all_twelve_base_cells() {
    let mut cache = ImageSurveyTextures::new(config("s"));
    for k in 0..11u64 {
        cache.push(&cell(0, k), k, k, false, &empty_view());
        assert!(!cache.is_ready());
    }
    cache.push(&cell(0, 11), 11, 11, false, &empty_view());
    assert!(cache.is_ready());
}

#[test]
fn contains_and_get_agree() {
    let cache = ready_cache("s");
    assert!(cache.contains(&cell(0, 7)));
    assert_eq!(cache.get(&cell(0, 7)), Some(7));
    assert!(!cache.contains(&cell(1, 7)));
    assert_eq!(cache.get(&cell(1, 7)), None);
}

#[test]
fn nearest_parent_walks_to_the_base_cell() {
    let cache = ready_cache("s");
    // no intermediate depth is resident: depth 3 resolves to its base cell
    assert_eq!(cache.get_nearest_parent(&cell(3, 37)), cell(0, 0));
    // a base cell is its own nearest parent
    assert_eq!(cache.get_nearest_parent(&cell(0, 4)), cell(0, 4));
}

#[test]
fn nearest_parent_stops_at_the_closest_resident_ancestor() {
    let mut cache = ready_cache("s");
    cache.push(&cell(2, 9), 50, 2000, false, &empty_view());
    assert_eq!(cache.get_nearest_parent(&cell(3, 37)), cell(2, 9));
    // the cell itself being resident does not shortcut the walk
    cache.push(&cell(3, 37), 51, 2001, false, &empty_view());
    assert_eq!(cache.get_nearest_parent(&cell(3, 37)), cell(2, 9));
}

#[test]
fn missing_then_found_keeps_the_arrival_time() {
    let mut cache = ready_cache("s");
    let c = cell(1, 3);
    cache.push(&c, 5, 100, true, &empty_view());
    let i = cache.get(&c).unwrap();
    assert!(cache.get_slot(i).is_missing());
    assert_eq!(cache.get_slot(i).start_time(), 100);
    // the real tile arrives later: the placeholder flag clears, the blend
    // animation still starts at the placeholder's arrival time
    cache.push(&c, 6, 200, false, &empty_view());
    let i = cache.get(&c).unwrap();
    assert!(!cache.get_slot(i).is_missing());
    assert_eq!(cache.get_slot(i).start_time(), 100);
}

#[test]
fn capacity_is_never_exceeded() {
    let mut cache = ready_cache("s");
    // the default atlas holds 64 slots; 60 more pushes must overflow it
    for i in 0..60u64 {
        cache.push(&cell(1, i), 100 + i, 3000 + i, false, &empty_view());
        assert!(cache.len() <= 64);
    }
    assert_eq!(cache.len(), 64);
    assert!(cache.is_ready());
}

#[test]
fn eviction_takes_the_least_recently_requested_off_screen_slot() {
    let mut cache = ready_cache("s");
    for i in 0..52u64 {
        // later pushes carry older request times
        cache.push(&cell(1, i), 1000 - i, 5000 + i, false, &empty_view());
    }
    assert_eq!(cache.len(), 64);
    // cell (1, 51) holds the oldest request time and is off screen
    let on_screen = vec![cell(1, 40)];
    assert!(cache.push(&cell(2, 7), 2000, 9000, false, &on_screen));
    assert_eq!(cache.len(), 64);
    assert!(!cache.contains(&cell(1, 51)));
    assert!(cache.contains(&cell(2, 7)));
    // base cells and on-screen cells survive
    assert!(cache.is_ready());
    assert!(cache.contains(&cell(1, 40)));
}

#[test]
fn eviction_spares_the_viewport() {
    let mut cache = ready_cache("s");
    for i in 0..52u64 {
        cache.push(&cell(1, i), 1000 - i, 5000 + i, false, &empty_view());
    }
    // the oldest-requested cell is on screen: its younger neighbour goes
    let on_screen = vec![cell(1, 51)];
    assert!(cache.push(&cell(2, 8), 2000, 9100, false, &on_screen));
    assert!(cache.contains(&cell(1, 51)));
    assert!(!cache.contains(&cell(1, 50)));
}

#[test]
fn available_tiles_flag_is_edge_triggered() {
    let mut cache = ImageSurveyTextures::new(config("s"));
    assert!(!cache.is_there_available_tiles());
    cache.push(&cell(0, 0), 0, 0, false, &empty_view());
    assert!(cache.is_there_available_tiles());
    // consumed by the query
    assert!(!cache.is_there_available_tiles());
    cache.register_available_tile(&cell(0, 1));
    assert!(cache.is_there_available_tiles());
}

#[test]
fn move_blends_ancestor_into_resident_tile() {
    let mut cache = ready_cache("s");
    cache.push(&cell(3, 37), 50, 2000, false, &empty_view()); // slot 12
    cache.push(&cell(2, 9), 51, 2001, false, &empty_view());  // slot 13
    let view = view_of(3, vec![cell(3, 37)]);
    let pairs = Move::get_textures_from_survey(&view, &cache);
    assert_eq!(pairs.len(), 1);
    let p = *pairs.get(0);
    assert_eq!(p.starting_texture, 13); // nearest resident ancestor (2, 9)
    assert_eq!(p.ending_texture, 12); // the cell's own tile
}

#[test]
fn zoom_uses_the_same_rule_as_move() {
    let mut cache = ready_cache("s");
    cache.push(&cell(3, 37), 50, 2000, false, &empty_view());
    cache.push(&cell(2, 9), 51, 2001, false, &empty_view());
    let view = view_of(3, vec![cell(3, 37)]);
    let pairs = Zoom::get_textures_from_survey(&view, &cache);
    let p = *pairs.get(0);
    assert_eq!(p.starting_texture, 13);
    assert_eq!(p.ending_texture, 12);
}

#[test]
fn unzoom_snaps_on_the_resident_tile() {
    let mut cache = ready_cache("s");
    cache.push(&cell(3, 37), 50, 2000, false, &empty_view()); // slot 12
    let view = view_of(3, vec![cell(3, 37)]);
    let pairs = UnZoom::get_textures_from_survey(&view, &cache);
    let p = *pairs.get(0);
    assert_eq!(p.starting_texture, 12);
    assert_eq!(p.ending_texture, 12);
}

#[test]
fn absent_tile_blends_between_the_two_best_ancestors() {
    let mut cache = ready_cache("s");
    cache.push(&cell(2, 9), 51, 2001, false, &empty_view()); // slot 12
    let view = view_of(3, vec![cell(3, 37)]);
    let pairs = Move::get_textures_from_survey(&view, &cache);
    let p = *pairs.get(0);
    // end on the nearest ancestor (2, 9), start from its base-cell ancestor
    assert_eq!(p.ending_texture, 12);
    assert_eq!(p.starting_texture, 0);
}

#[test]
fn only_base_cells_resident_degrades_to_a_snap() {
    // viewport shows one depth-3 cell; nothing but base cells is resident:
    // nearest parent and grandparent both resolve to the same base cell
    let cache = ready_cache("s");
    let view = view_of(3, vec![cell(3, 37)]);
    let pairs = Move::get_textures_from_survey(&view, &cache);
    let p = *pairs.get(0);
    assert_eq!(p.starting_texture, 0);
    assert_eq!(p.ending_texture, 0);
}

#[test]
fn selector_follows_a_found_tile_on_the_next_frame() {
    let mut cache = ready_cache("s");
    let c = cell(3, 37);
    let view = view_of(3, vec![c]);
    cache.push(&c, 5, 100, true, &empty_view());
    let before = *Move::get_textures_from_survey(&view, &cache).get(0);
    assert_eq!(before.ending_texture, 12); // the placeholder anchors the blend
    cache.push(&c, 6, 200, false, &empty_view());
    let after = *Move::get_textures_from_survey(&view, &cache).get(0);
    assert_eq!(after.ending_texture, 12);
    let i = cache.get(&c).unwrap();
    assert!(!cache.get_slot(i).is_missing());
}

#[test]
fn textures_to_draw_starts_empty() {
    let t = TexturesToDraw::new(16);
    assert_eq!(t.len(), 0);
    let p = TextureToDraw::new(3, 5);
    assert_eq!(p.starting_texture, 3);
    assert_eq!(p.ending_texture, 5);
}
