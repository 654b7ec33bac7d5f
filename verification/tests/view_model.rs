use nodes::fixed::ONE;
use nodes::geometry::{Aabb2, Vec2};
use nodes::model::{Color, Model, NodeId};
use nodes::projection::GraphProjection;
use nodes::simulation::LayoutConfig;
use nodes::view_model::{
    hit_test, scale_of, scale_ratio, Mat2x3, ViewModel, FRAME_STEPS, NODE_HALF_EXTENT, NODE_SIZE,
    WARM_START_STEPS, ZOOM_LIMIT,
};
use rand::rngs::StdRng;
use rand::SeedableRng;

fn chain() -> (Model, NodeId, NodeId, NodeId) {
    let mut model = Model::new();
    let a = model.add_node(Color::white()).unwrap();
    let b = model.add_node(Color::white()).unwrap();
    let c = model.add_node(Color::white()).unwrap();
    assert!(model.add_edge(a, b));
    assert!(model.add_edge(b, c));
    (model, a, b, c)
}

fn view_of(model: &Model) -> ViewModel {
    let mut rng = StdRng::seed_from_u64(9);
    ViewModel::new(model, &mut rng)
}

#[test]
fn the_numbers_of_the_view() {
    assert_eq!(NODE_SIZE, ONE / 4);
    assert_eq!(NODE_HALF_EXTENT, ONE / 8);
    assert_eq!(WARM_START_STEPS, 200);
    assert_eq!(FRAME_STEPS, 20);
    assert_eq!(ZOOM_LIMIT, 126);
}

#[test]
fn the_scale_doubles_every_three_ticks() {
    assert_eq!(scale_of(0), 1_000_000);
    assert_eq!(scale_of(1), 1_259_921);
    assert_eq!(scale_of(2), 1_587_401);
    assert_eq!(scale_of(3), 2_000_000);
    assert_eq!(scale_of(4), 2_519_842);
    assert_eq!(scale_of(6), 4_000_000);
    assert_eq!(scale_of(-1), 793_700);
    assert_eq!(scale_of(-2), 629_960);
    assert_eq!(scale_of(-3), 500_000);
    assert_eq!(scale_of(-6), 250_000);
}

#[test]
fn the_scale_reaches_to_the_ends_of_the_zoom_range() {
    assert_eq!(scale_of(48), 65_536_000_000);
    assert_eq!(scale_of(60), 1_048_576_000_000);
    assert_eq!(scale_of(63), 2_097_152_000_000);
    assert_eq!(scale_of(125), 3_490_731_714_886_500_352);
    assert_eq!(scale_of(126), 4_398_046_511_104_000_000);
    assert_eq!(scale_of(-48), 15);
    assert_eq!(scale_of(-126), 0);
}

#[test]
fn the_scale_is_an_exact_ratio() {
    assert_eq!(scale_ratio(0), (1_000_000, 1_000_000));
    assert_eq!(scale_ratio(1), (1_259_921, 1_000_000));
    assert_eq!(scale_ratio(2), (1_587_401, 1_000_000));
    assert_eq!(scale_ratio(3), (2_000_000, 1_000_000));
    assert_eq!(scale_ratio(4), (2_519_842, 1_000_000));
    assert_eq!(scale_ratio(60), (1_048_576_000_000, 1_000_000));
    assert_eq!(scale_ratio(126), (4_398_046_511_104_000_000, 1_000_000));
    assert_eq!(scale_ratio(-1), (1_587_401, 2_000_000));
    assert_eq!(scale_ratio(-2), (1_259_921, 2_000_000));
    assert_eq!(scale_ratio(-3), (1_000_000, 2_000_000));
    assert_eq!(scale_ratio(-48), (1_000_000, 65_536_000_000));
    assert_eq!(scale_ratio(-126), (1_000_000, 4_398_046_511_104_000_000));
}

#[test]
fn every_tick_changes_the_scale() {
    for zoom in -126..126 {
        let (n0, d0) = scale_ratio(zoom);
        let (n1, d1) = scale_ratio(zoom + 1);
        assert!((n0 as i128) * (d1 as i128) < (n1 as i128) * (d0 as i128), "zoom {}", zoom);
    }
}

#[test]
fn far_zoomed_out_the_view_still_follows_the_zoom() {
    let (model, _, _, _) = chain();
    let mut view = view_of(&model);
    view.zoom_camera(-60);
    assert_eq!(view.camera_zoom(), 60);
    let far = Vec2::new(1_048_576 * ONE, -2 * 1_048_576 * ONE);
    assert_eq!(view.view_matrix().transform(far), Vec2::new(ONE, -2 * ONE));
    assert_eq!(view.inverse_view_matrix().transform(Vec2::new(ONE, -2 * ONE)), far);
    view.zoom_camera(3);
    assert_eq!(view.view_matrix().transform(far), Vec2::new(2 * ONE, -4 * ONE));
}

#[test]
fn far_zoomed_in_the_view_still_follows_the_zoom() {
    let (model, _, _, _) = chain();
    let mut view = view_of(&model);
    view.zoom_camera(60);
    assert_eq!(view.camera_zoom(), -60);
    assert_eq!(view.view_matrix().transform(Vec2::new(1, -3)), Vec2::new(1_048_576, -3_145_728));
    assert_eq!(view.view_to_world(Vec2::new(1_048_576, -3_145_728)), Vec2::new(1, -3));
}

#[test]
fn a_new_view_shows_the_whole_graph() {
    let (model, a, b, c) = chain();
    let view = view_of(&model);
    assert_eq!(view.projection().len(), 3);
    assert!(view.position(a).is_some());
    assert!(view.position(b).is_some());
    assert!(view.position(c).is_some());
    assert_eq!(view.camera_pos(), Vec2::zero());
    assert_eq!(view.camera_zoom(), 0);
    assert_eq!(view.scale_factor(), ONE);
    assert_eq!(view.hovered_node(), None);
}

#[test]
fn a_new_view_is_settled_by_the_warm_start() {
    let (model, a, b, c) = chain();
    let mut rng = StdRng::seed_from_u64(9);
    let view = ViewModel::new(&model, &mut rng);
    let mut by_hand = GraphProjection::from_graph(&model);
    let mut rng = StdRng::seed_from_u64(9);
    nodes::simulation::relax(&mut by_hand, &model, &LayoutConfig::default(), &mut rng, 200);
    assert_eq!(view.projection().iter(), by_hand.iter());
    assert!(view.position(a).unwrap().x < view.position(b).unwrap().x);
    assert!(view.position(b).unwrap().x < view.position(c).unwrap().x);
}

#[test]
fn an_update_runs_the_steps_of_a_frame() {
    let (model, _, _, _) = chain();
    let mut rng = StdRng::seed_from_u64(9);
    let mut view = ViewModel::new(&model, &mut rng);
    let mut by_hand = GraphProjection::from_graph(&model);
    by_hand.copy_projections_from(view.projection());
    let mut rng_a = StdRng::seed_from_u64(4);
    let mut rng_b = StdRng::seed_from_u64(4);
    view.update(&model, &mut rng_a);
    nodes::simulation::relax(&mut by_hand, &model, &LayoutConfig::default(), &mut rng_b, 20);
    assert_eq!(view.projection().iter(), by_hand.iter());
}

#[test]
fn a_view_with_its_own_settings() {
    let (model, a, _, _) = chain();
    let still = LayoutConfig { time_step: 0, ..LayoutConfig::default() };
    let mut rng = StdRng::seed_from_u64(9);
    let view = ViewModel::with_config(&model, still, &mut rng);
    assert_eq!(view.position(a), Some(Vec2::zero()));
}

#[test]
fn a_reset_lays_the_graph_out_afresh() {
    let (mut model, a, _, _) = chain();
    let mut rng = StdRng::seed_from_u64(9);
    let mut view = ViewModel::new(&model, &mut rng);
    view.zoom_camera(2);
    view.pan_camera(Vec2::new(1, 1));
    let pan = view.camera_pos();
    let d = model.add_node(Color::white()).unwrap();
    assert_eq!(view.position(d), None);
    let mut rng = StdRng::seed_from_u64(9);
    view.reset(&model, &mut rng);
    assert_eq!(view.projection().len(), 4);
    assert!(view.position(d).is_some());
    assert!(view.position(a).is_some());
    assert_eq!(view.camera_zoom(), -2);
    assert_eq!(view.camera_pos(), pan);
    let mut by_hand = GraphProjection::from_graph(&model);
    let mut rng = StdRng::seed_from_u64(9);
    nodes::simulation::relax(&mut by_hand, &model, &LayoutConfig::default(), &mut rng, 200);
    assert_eq!(view.projection().iter(), by_hand.iter());
}

#[test]
fn a_new_projection_keeps_known_positions() {
    let (mut model, a, b, c) = chain();
    let mut view = view_of(&model);
    let before_a = view.position(a);
    let before_c = view.position(c);
    assert!(model.remove_node(b));
    let d = model.add_node(Color::white()).unwrap();
    view.set_projection(GraphProjection::from_graph(&model));
    assert_eq!(view.position(a), before_a);
    assert_eq!(view.position(c), before_c);
    assert_eq!(view.position(b), None);
    assert_eq!(view.position(d), Some(Vec2::zero()));
    assert_eq!(view.projection().len(), 3);
}

#[test]
fn zooming_in_and_out_restores_the_zoom() {
    let (model, _, _, _) = chain();
    let mut view = view_of(&model);
    for start in [0, 5, -7, 47, -48, 60, 126, -125] {
        view.zoom_camera(view.camera_zoom() - start);
        assert_eq!(view.camera_zoom(), start);
        view.zoom_camera(1);
        assert_eq!(view.camera_zoom(), start - 1);
        view.zoom_camera(-1);
        assert_eq!(view.camera_zoom(), start);
    }
}

#[test]
fn three_ticks_halve_the_scale() {
    let (model, _, _, _) = chain();
    let mut view = view_of(&model);
    view.zoom_camera(3);
    assert_eq!(view.camera_zoom(), -3);
    assert_eq!(view.scale_factor(), ONE / 2);
    view.zoom_camera(-6);
    assert_eq!(view.camera_zoom(), 3);
    assert_eq!(view.scale_factor(), 2 * ONE);
}

#[test]
fn the_zoom_stops_at_the_end_of_its_range() {
    let (model, _, _, _) = chain();
    let mut view = view_of(&model);
    view.zoom_camera(i32::MAX);
    assert_eq!(view.camera_zoom(), -126);
    let at_the_end = view.view_matrix();
    view.zoom_camera(1);
    assert_eq!(view.camera_zoom(), -126);
    assert_eq!(view.view_matrix(), at_the_end);
    view.zoom_camera(-1);
    assert_eq!(view.camera_zoom(), -125);
    assert_ne!(view.view_matrix(), at_the_end);
    view.zoom_camera(i32::MIN);
    assert_eq!(view.camera_zoom(), 126);
    view.zoom_camera(-5);
    assert_eq!(view.camera_zoom(), 126);
    assert_eq!(view.scale_factor(), 4_398_046_511_104_000_000);
    view.zoom_camera(1);
    assert_eq!(view.camera_zoom(), 125);
}

#[test]
fn panning_moves_the_camera_against_the_drag() {
    let (model, _, _, _) = chain();
    let mut view = view_of(&model);
    view.pan_camera(Vec2::new(100_000, -50_000));
    assert_eq!(view.camera_pos(), Vec2::new(-200_000, 100_000));
    view.pan_camera(Vec2::new(100_000, -50_000));
    assert_eq!(view.camera_pos(), Vec2::new(-400_000, 200_000));
    view.zoom_camera(-3);
    view.pan_camera(Vec2::new(-100_000, 0));
    assert_eq!(view.camera_pos(), Vec2::new(0, 200_000));
    assert_eq!(view.camera_zoom(), 3);
}

#[test]
fn the_view_matrix_scales_and_shifts() {
    let (model, _, _, _) = chain();
    let mut view = view_of(&model);
    view.zoom_camera(-3);
    view.pan_camera(Vec2::new(-250_000, -500_000));
    assert_eq!(view.camera_pos(), Vec2::new(1_000_000, 2_000_000));
    let m = view.view_matrix();
    assert_eq!(
        m,
        Mat2x3 { num: ONE, den: 2 * ONE, offset: Vec2::new(-500_000, -1_000_000) }
    );
    assert_eq!(m.transform(Vec2::new(3_000_000, 2_000_000)), Vec2::new(1_000_000, 0));
    assert_eq!(m.transform(Vec2::new(1_000_000, 2_000_000)), Vec2::zero());
}

#[test]
fn the_inverse_view_matrix_undoes_the_view_matrix() {
    let (model, _, _, _) = chain();
    let mut view = view_of(&model);
    view.zoom_camera(-3);
    view.pan_camera(Vec2::new(-250_000, -500_000));
    let inverse = view.inverse_view_matrix();
    assert_eq!(
        inverse,
        Mat2x3 { num: 2 * ONE, den: ONE, offset: Vec2::new(1_000_000, 2_000_000) }
    );
    assert_eq!(inverse, view.view_matrix().inverse());
    assert_eq!(inverse.transform(Vec2::new(1_000_000, 0)), Vec2::new(3_000_000, 2_000_000));
    assert_eq!(view.view_to_world(Vec2::new(1_000_000, 0)), Vec2::new(3_000_000, 2_000_000));
}

#[test]
fn view_and_back_is_the_identity_up_to_rounding() {
    let (model, _, _, _) = chain();
    let mut view = view_of(&model);
    let points = [
        Vec2::new(0, 0),
        Vec2::new(1, -1),
        Vec2::new(123_456_789, -987_654_321),
        Vec2::new(-1_000_000_000_000, 1_000_000_000_000),
        Vec2::new(333_333, 777_777),
    ];
    for zoom in [-48, -47, -10, -1, 0, 1, 2, 3, 7, 30, 48] {
        view.zoom_camera(view.camera_zoom() - zoom);
        view.pan_camera(Vec2::new(12_345, -67_891));
        let tolerance = view.scale_factor() / ONE + 2;
        let m = view.view_matrix();
        let back = view.inverse_view_matrix();
        for p in points {
            let q = back.transform(m.transform(p));
            assert!((q.x - p.x).abs() <= tolerance, "zoom {} point {:?} gave {:?}", zoom, p, q);
            assert!((q.y - p.y).abs() <= tolerance, "zoom {} point {:?} gave {:?}", zoom, p, q);
        }
    }
}

#[test]
fn back_and_view_is_the_identity_up_to_rounding() {
    let (model, _, _, _) = chain();
    let mut view = view_of(&model);
    let points = [
        Vec2::new(0, 0),
        Vec2::new(1, -1),
        Vec2::new(123_456_789, -987_654_321),
        Vec2::new(333_333, 777_777),
    ];
    for zoom in [-60, -47, -10, -1, 0, 1, 2, 3, 7, 30, 60] {
        view.zoom_camera(view.camera_zoom() - zoom);
        view.pan_camera(Vec2::new(12, -67));
        let (num, den) = scale_ratio(zoom);
        let tolerance = 2 * den / num + 1;
        let m = view.view_matrix();
        let back = view.inverse_view_matrix();
        for q in points {
            let r = m.transform(back.transform(q));
            assert!((r.x - q.x).abs() <= tolerance, "zoom {} point {:?} gave {:?}", zoom, q, r);
            assert!((r.y - q.y).abs() <= tolerance, "zoom {} point {:?} gave {:?}", zoom, q, r);
        }
    }
}

#[test]
fn a_node_at_the_end_of_the_range_is_hit_at_its_center() {
    let (model, a, _, _) = chain();
    let mut layout = GraphProjection::from_graph(&model);
    let corner = Vec2::new(i64::MIN, i64::MIN);
    layout.set_position(a, corner);
    assert_eq!(hit_test(&layout, corner, NODE_HALF_EXTENT), Some(a));
}

#[test]
fn the_squares_of_the_nodes() {
    let (model, a, b, c) = chain();
    let mut view = view_of(&model);
    let mut layout = GraphProjection::from_graph(&model);
    layout.set_position(a, Vec2::new(-1_000_000, 0));
    layout.set_position(b, Vec2::new(0, 500_000));
    layout.set_position(c, Vec2::new(1_000_000, 0));
    view.set_projection(GraphProjection::new());
    view.set_projection(layout);
    let rects = view.node_rects();
    assert_eq!(
        rects,
        vec![
            (a, Aabb2 { min: Vec2::new(-1_125_000, -125_000), max: Vec2::new(-875_000, 125_000) }),
            (b, Aabb2 { min: Vec2::new(-125_000, 375_000), max: Vec2::new(125_000, 625_000) }),
            (c, Aabb2 { min: Vec2::new(875_000, -125_000), max: Vec2::new(1_125_000, 125_000) }),
        ]
    );
}

#[test]
fn a_hit_at_the_center_of_a_node() {
    let (model, a, b, c) = chain();
    let view = view_of(&model);
    for id in [a, b, c] {
        let center = view.position(id).unwrap();
        assert_eq!(view.node_at(center), Some(id));
        assert_eq!(hit_test(view.projection(), center, NODE_HALF_EXTENT), Some(id));
    }
}

#[test]
fn a_miss_outside_every_square() {
    let (model, a, b, c) = chain();
    let mut layout = GraphProjection::from_graph(&model);
    layout.set_position(a, Vec2::new(-1_000_000, 0));
    layout.set_position(b, Vec2::new(0, 500_000));
    layout.set_position(c, Vec2::new(1_000_000, 0));
    assert_eq!(hit_test(&layout, Vec2::new(0, 0), 125_000), None);
    assert_eq!(hit_test(&layout, Vec2::new(5_000_000, 5_000_000), 125_000), None);
    assert_eq!(hit_test(&layout, Vec2::new(-1_125_001, 0), 125_000), None);
    assert_eq!(hit_test(&layout, Vec2::new(-1_125_000, 0), 125_000), Some(a));
    assert_eq!(hit_test(&layout, Vec2::new(125_000, 375_000), 125_000), Some(b));
    assert_eq!(hit_test(&layout, Vec2::new(1_000_000, 0), 0), Some(c));
    assert_eq!(hit_test(&layout, Vec2::new(1_000_001, 0), 0), None);
    assert_eq!(hit_test(&GraphProjection::new(), Vec2::new(0, 0), 125_000), None);
}

#[test]
fn the_first_of_overlapping_nodes_is_hit() {
    let (model, a, b, _) = chain();
    let layout = GraphProjection::from_graph(&model);
    assert_eq!(hit_test(&layout, Vec2::new(0, 0), 125_000), Some(a));
    let mut layout = GraphProjection::from_graph(&model);
    layout.set_position(a, Vec2::new(200_000, 0));
    assert_eq!(hit_test(&layout, Vec2::new(100_000, 0), 125_000), Some(a));
    assert_eq!(hit_test(&layout, Vec2::new(50_000, 0), 125_000), Some(b));
}

#[test]
fn the_hovered_node_is_remembered() {
    let (model, a, _, _) = chain();
    let mut view = view_of(&model);
    view.set_hovered_node(Some(a));
    assert_eq!(view.hovered_node(), Some(a));
    view.set_hovered_node(None);
    assert_eq!(view.hovered_node(), None);
}
