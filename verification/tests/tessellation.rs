use hips_core::cell::{num_subdivision, HEALPixCell, MAX_TESS_DEPTH};
use hips_core::view::{
    cells_in_coverage, depth_for_resolution, CameraFrame, CellRange, HEALPixCellsInView,
    UserAction,
};

/// Number of deepest-depth cells a base cell spans: 4^29.
const BASE_SPAN: u64 = 288230376151711744;

fn full_sky() -> Vec<CellRange> {
    vec![CellRange { start: 0, end: 12 * BASE_SPAN }]
}

#[test]
fn num_subdivision_table() {
    let depths = [0u8, 1, 2, 3, 4, 5, 10];
    let expected = [5u8, 4, 3, 2, 2, 0, 0];
    for (d, e) in depths.iter().zip(expected.iter()) {
        assert_eq!(num_subdivision(*d), *e);
    }
}

#[test]
fn parent_is_one_depth_up() {
    let c = HEALPixCell { depth: 3, idx: 37 };
    let p = c.parent();
    assert_eq!(p, HEALPixCell { depth: 2, idx: 9 });
    let gp = p.parent();
    assert_eq!(gp, HEALPixCell { depth: 1, idx: 2 });
    assert_eq!(gp.parent(), HEALPixCell { depth: 0, idx: 0 });
}

#[test]
fn cell_is_among_parent_children() {
    let c = HEALPixCell { depth: 3, idx: 37 };
    let p = c.parent();
    let children = p.children();
    assert_eq!(children.len(), 4);
    assert!(children.contains(&c));
    for ch in children.iter() {
        assert_eq!(ch.depth, 3);
    }
    assert_eq!(children[0].idx, 36);
    assert_eq!(children[3].idx, 39);
}

#[test]
fn depth_matches_screen_resolution() {
    // one tile of 512 px exactly covers a 512 px base cell
    assert_eq!(depth_for_resolution(512, 10, 512), 0);
    // one more pixel forces the next depth
    assert_eq!(depth_for_resolution(512, 10, 513), 1);
    assert_eq!(depth_for_resolution(512, 10, 1024), 1);
    assert_eq!(depth_for_resolution(512, 10, 1025), 2);
    // clamped to the survey's deepest depth
    assert_eq!(depth_for_resolution(512, 3, u64::MAX), 3);
    assert_eq!(depth_for_resolution(512, 0, u64::MAX), 0);
}

#[test]
fn full_sky_coverage_is_all_base_cells() {
    let cells = cells_in_coverage(0, &full_sky());
    assert_eq!(cells.len(), 12);
    for (k, c) in cells.iter().enumerate() {
        assert_eq!(*c, HEALPixCell { depth: 0, idx: k as u64 });
    }
}

#[test]
fn disjoint_ranges_give_disjoint_cells() {
    let coverage = vec![
        CellRange { start: 0, end: BASE_SPAN },
        CellRange { start: 2 * BASE_SPAN, end: 3 * BASE_SPAN },
    ];
    let cells = cells_in_coverage(0, &coverage);
    assert_eq!(cells.len(), 2);
    assert_eq!(cells[0], HEALPixCell { depth: 0, idx: 0 });
    assert_eq!(cells[1], HEALPixCell { depth: 0, idx: 2 });
}

#[test]
fn one_texel_of_sky_still_selects_its_cell() {
    // a single deepest-depth cell still selects one cell per depth
    let coverage = vec![CellRange { start: 5 * BASE_SPAN + 17, end: 5 * BASE_SPAN + 18 }];
    let cells = cells_in_coverage(0, &coverage);
    assert_eq!(cells.len(), 1);
    assert_eq!(cells[0], HEALPixCell { depth: 0, idx: 5 });
    let deep = cells_in_coverage(MAX_TESS_DEPTH, &coverage);
    assert_eq!(deep.len(), 1);
    assert_eq!(deep[0], HEALPixCell { depth: 29, idx: 5 * BASE_SPAN + 17 });
}

#[test]
fn touching_ranges_do_not_duplicate_a_cell() {
    // both ranges intersect base cell 1
    let coverage = vec![
        CellRange { start: 0, end: BASE_SPAN + 5 },
        CellRange { start: BASE_SPAN + 10, end: 2 * BASE_SPAN },
    ];
    let cells = cells_in_coverage(0, &coverage);
    assert_eq!(cells.len(), 2);
    assert_eq!(cells[0].idx, 0);
    assert_eq!(cells[1].idx, 1);
}

#[test]
fn refresh_with_unchanged_camera_is_idempotent() {
    let camera = CameraFrame {
        base_cell_px: 1000,
        coverage: full_sky(),
        user_action: UserAction::Moving,
    };
    let mut view = HEALPixCellsInView::new(512, 5, &camera);
    assert!(view.is_there_new_cells_added());
    assert_eq!(view.get_depth(), 1);
    let cells_first = view.get_cells().clone();
    view.refresh_cells(512, 5, &camera);
    assert!(!view.is_there_new_cells_added());
    assert_eq!(view.get_cells().clone(), cells_first);
    view.refresh_cells(512, 5, &camera);
    assert!(!view.is_there_new_cells_added());
}

#[test]
fn refresh_detects_a_moved_camera() {
    let camera = CameraFrame {
        base_cell_px: 100,
        coverage: vec![CellRange { start: 0, end: BASE_SPAN }],
        user_action: UserAction::Moving,
    };
    let mut view = HEALPixCellsInView::new(512, 5, &camera);
    assert_eq!(view.num_of_cells(), 1);
    let moved = CameraFrame {
        base_cell_px: 100,
        coverage: vec![CellRange { start: BASE_SPAN, end: 2 * BASE_SPAN }],
        user_action: UserAction::Moving,
    };
    view.refresh_cells(512, 5, &moved);
    assert!(view.is_there_new_cells_added());
    assert_eq!(view.get_cells()[0], HEALPixCell { depth: 0, idx: 1 });
    view.reset_frame();
    assert!(!view.is_there_new_cells_added());
}
