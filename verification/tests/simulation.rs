use nodes::fixed::ONE;
use nodes::geometry::Vec2;
use nodes::jitter::{jitter_from, rand_vec};
use nodes::model::{Color, Direction, Model, NodeId};
use nodes::projection::{GraphProjection, NodeProjection};
use nodes::simulation::{
    attraction, clamp_velocity, mean_position, relax, reorder, repulsion, simulate, LayoutConfig,
};
use nodes::view_model::WARM_START_STEPS;
use rand::rngs::StdRng;
use rand::SeedableRng;

fn chain() -> (Model, NodeId, NodeId, NodeId) {
    let mut model = Model::new();
    let a = model.add_node(Color::white()).unwrap();
    let b = model.add_node(Color::white()).unwrap();
    let c = model.add_node(Color::white()).unwrap();
    assert!(model.add_edge(a, b));
    assert!(model.add_edge(b, c));
    (model, a, b, c)
}

#[test]
fn the_default_weights() {
    let c = LayoutConfig::default();
    assert_eq!(c.cohesion_weight, 0);
    assert_eq!(c.outward_weight, 10 * ONE);
    assert_eq!(c.repulsion_weight, 20 * ONE);
    assert_eq!(c.repulsion_distance, ONE / 2);
    assert_eq!(c.reorder_weight, ONE);
    assert_eq!(c.neighbor_cohesion_weight, ONE);
    assert_eq!(c.neighbor_cohesion_distance, 600_000);
    assert_eq!(c.center_correction_weight, ONE);
    assert_eq!(c.overlap_epsilon, 10_000);
    assert_eq!(c.jitter_weight, 200_000);
    assert_eq!(c.max_speed, 25 * ONE);
    assert_eq!(c.time_step, ONE / 50);
}

#[test]
fn random_words_become_directions() {
    assert_eq!(jitter_from((1_300_000_000, 1_400_000_000)), Vec2::new(600_000, 800_000));
    assert_eq!(jitter_from((1_500_000_000, 1_000_000_000)), Vec2::new(ONE, 0));
    assert_eq!(jitter_from((500_000_000, 1_000_000_000)), Vec2::new(-ONE, 0));
    assert_eq!(jitter_from((u32::MAX, 0)), Vec2::new(-576_219, -817_294));
    assert_eq!(jitter_from((1_000_707, 1_000_708)), Vec2::new(-707_106, -707_106));
    assert_eq!(jitter_from((1_000_707_000, 1_000_708_000)), Vec2::new(706_607, 707_606));
}

#[test]
fn the_words_for_the_origin_point_along_the_x_axis() {
    assert_eq!(jitter_from((1_000_000_000, 1_000_000_000)), Vec2::new(ONE, 0));
    assert_eq!(jitter_from((3_000_000_000, 3_000_000_000)), Vec2::new(ONE, 0));
}

#[test]
fn words_too_close_to_the_origin_point_along_the_x_axis() {
    assert_eq!(jitter_from((1_000_000_000, 1_000_999_999)), Vec2::new(ONE, 0));
    assert_eq!(jitter_from((999_500_000, 1_000_000_000)), Vec2::new(ONE, 0));
    assert_eq!(jitter_from((1_000_000_707, 1_000_000_708)), Vec2::new(ONE, 0));
    assert_eq!(jitter_from((1_000_000_000, 1_001_000_000)), Vec2::new(0, ONE));
    assert_eq!(jitter_from((999_000_000, 1_000_000_000)), Vec2::new(-ONE, 0));
}

#[test]
fn random_directions_have_length_one() {
    let mut rng = StdRng::seed_from_u64(11);
    for _ in 0..2_000 {
        let v = rand_vec(&mut rng);
        let len = v.length();
        assert!(ONE - 3 <= len && len <= ONE, "{:?}", v);
    }
}

#[test]
fn repulsion_falls_off_with_the_square_of_the_distance() {
    let cfg = LayoutConfig::default();
    let diff = Vec2::new(300_000, 0);
    assert_eq!(repulsion(diff, 300_000, &cfg, (0, 0)), Vec2::new(160_000, 0));
    let diff = Vec2::new(-400_000, -100_000);
    assert_eq!(repulsion(diff, diff.length(), &cfg, (0, 0)), Vec2::new(-29_839, -7_459));
}

#[test]
fn repulsion_ends_at_the_repulsion_distance() {
    let cfg = LayoutConfig::default();
    assert_eq!(repulsion(Vec2::new(500_000, 0), 500_000, &cfg, (0, 0)), Vec2::zero());
    assert_eq!(repulsion(Vec2::new(0, 900_000), 900_000, &cfg, (0, 0)), Vec2::zero());
    assert_eq!(repulsion(Vec2::new(499_999, 0), 499_999, &cfg, (0, 0)), Vec2::zero());
    assert_eq!(repulsion(Vec2::new(490_000, 0), 490_000, &cfg, (0, 0)), Vec2::new(400, 0));
}

#[test]
fn repulsion_is_equal_and_opposite() {
    let cfg = LayoutConfig::default();
    let p = Vec2::new(123_456, -50_000);
    let q = Vec2::new(-100_000, 77_777);
    let on_p = repulsion(p.minus(q), p.minus(q).length(), &cfg, (1, 2));
    let on_q = repulsion(q.minus(p), q.minus(p).length(), &cfg, (3, 4));
    assert_ne!(on_p, Vec2::zero());
    assert_eq!(on_q, on_p.negated());
    assert_eq!(on_q.length(), on_p.length());
}

#[test]
fn nodes_on_each_other_get_a_random_push() {
    let cfg = LayoutConfig::default();
    let push = repulsion(Vec2::new(0, 0), 0, &cfg, (1_300_000_000, 1_400_000_000));
    assert_eq!(push, Vec2::new(120_000, 160_000));
    let push = repulsion(Vec2::new(9_999, 0), 9_999, &cfg, (1_000_000_000, 1_000_000_000));
    assert_eq!(push, Vec2::new(200_000, 0));
    let push = repulsion(Vec2::new(10_000, 0), 10_000, &cfg, (1_300_000_000, 1_400_000_000));
    assert_eq!(push, Vec2::new(960_400, 0));
}

#[test]
fn reordering_pushes_the_start_of_an_edge_to_the_left() {
    let cfg = LayoutConfig::default();
    assert_eq!(reorder(Some(Direction::Outgoing), 500_000, &cfg), Vec2::new(-500_000, 0));
    assert_eq!(reorder(Some(Direction::Outgoing), -500_000, &cfg), Vec2::zero());
    assert_eq!(reorder(Some(Direction::Outgoing), 0, &cfg), Vec2::zero());
    assert_eq!(reorder(Some(Direction::Incoming), -500_000, &cfg), Vec2::new(500_000, 0));
    assert_eq!(reorder(Some(Direction::Incoming), 500_000, &cfg), Vec2::zero());
    assert_eq!(reorder(None, 500_000, &cfg), Vec2::zero());
    assert_eq!(reorder(None, -500_000, &cfg), Vec2::zero());
    let strong = LayoutConfig { reorder_weight: 3 * ONE, ..cfg };
    assert_eq!(reorder(Some(Direction::Outgoing), 500_000, &strong), Vec2::new(-1_500_000, 0));
}

#[test]
fn connected_nodes_far_apart_attract() {
    let cfg = LayoutConfig::default();
    let diff = Vec2::new(-1_000_000, 0);
    assert_eq!(attraction(Some(Direction::Outgoing), diff, ONE, &cfg), Vec2::new(400_000, 0));
    assert_eq!(attraction(Some(Direction::Incoming), diff, ONE, &cfg), Vec2::new(400_000, 0));
    assert_eq!(attraction(None, diff, ONE, &cfg), Vec2::zero());
    let near = Vec2::new(-600_000, 0);
    assert_eq!(attraction(Some(Direction::Outgoing), near, 600_000, &cfg), Vec2::zero());
    let diff = Vec2::new(0, 3_000_000);
    assert_eq!(
        attraction(Some(Direction::Outgoing), diff, 3_000_000, &cfg),
        Vec2::new(0, -2_400_000)
    );
}

#[test]
fn velocities_are_capped() {
    assert_eq!(
        clamp_velocity(Vec2::new(30_000_000, 40_000_000), 25_000_000),
        Vec2::new(15_000_000, 20_000_000)
    );
    assert_eq!(
        clamp_velocity(Vec2::new(3_000_000, 4_000_000), 25_000_000),
        Vec2::new(3_000_000, 4_000_000)
    );
    assert_eq!(clamp_velocity(Vec2::new(3, 4), 5), Vec2::new(3, 4));
    assert_eq!(clamp_velocity(Vec2::zero(), -5), Vec2::zero());
    assert_eq!(clamp_velocity(Vec2::new(-50_000_000, 0), 25_000_000), Vec2::new(-25_000_000, 0));
}

#[test]
fn velocities_beyond_the_range_are_capped_by_their_true_length() {
    let capped = clamp_velocity(Vec2::new(i64::MAX, i64::MAX), 25_000_000);
    assert_eq!(capped, Vec2::new(17_677_669, 17_677_669));
    assert!(capped.length() <= 25_000_000);
    assert_eq!(Vec2::new(i64::MAX, i64::MAX).true_length(), 13_043_817_825_332_782_210);
    assert_eq!(Vec2::new(3_000_000, 4_000_000).true_length(), 5_000_000);
    assert_eq!(
        clamp_velocity(Vec2::new(i64::MIN, 0), 25_000_000),
        Vec2::new(-25_000_000, 0)
    );
}

#[test]
fn the_mean_position() {
    let id = NodeId { index: 0, generation: 0 };
    let at = |x: i64, y: i64| (id, NodeProjection { pos: Vec2::new(x, y) });
    assert_eq!(mean_position(&vec![]), Vec2::zero());
    assert_eq!(mean_position(&vec![at(3, -9)]), Vec2::new(3, -9));
    assert_eq!(mean_position(&vec![at(1, -1), at(2, -2)]), Vec2::new(1, -1));
    assert_eq!(mean_position(&vec![at(-200_000, 0), at(200_000, 100_000)]), Vec2::new(0, 50_000));
    assert_eq!(
        mean_position(&vec![at(i64::MAX, i64::MIN), at(i64::MAX, i64::MIN)]),
        Vec2::new(i64::MAX, -i64::MAX)
    );
}

#[test]
fn one_step_of_two_connected_nodes() {
    let mut model = Model::new();
    let a = model.add_node(Color::white()).unwrap();
    let b = model.add_node(Color::white()).unwrap();
    assert!(model.add_edge(a, b));
    let mut p = GraphProjection::from_graph(&model);
    p.set_position(a, Vec2::new(-200_000, 0));
    p.set_position(b, Vec2::new(200_000, 100_000));
    let mut rng = StdRng::seed_from_u64(0);
    simulate(&mut p, &model, &LayoutConfig::default(), &mut rng);
    assert_eq!(p.position(a), Some(Vec2::new(-371_935, -3_983)));
    assert_eq!(p.position(b), Some(Vec2::new(371_935, 101_983)));
}

#[test]
fn one_step_with_a_misordered_edge() {
    let mut model = Model::new();
    let a = model.add_node(Color::white()).unwrap();
    let b = model.add_node(Color::white()).unwrap();
    let c = model.add_node(Color::white()).unwrap();
    assert!(model.add_edge(b, a));
    let mut p = GraphProjection::from_graph(&model);
    p.set_position(a, Vec2::new(-900_000, 0));
    p.set_position(b, Vec2::new(-1_000_000, 300_000));
    p.set_position(c, Vec2::new(2_000_000, -100_000));
    let mut rng = StdRng::seed_from_u64(0);
    simulate(&mut p, &model, &LayoutConfig::default(), &mut rng);
    assert_eq!(p.position(a), Some(Vec2::new(-503_580, -52_596)));
    assert_eq!(p.position(b), Some(Vec2::new(-1_017_754, 349_929)));
    assert_eq!(p.position(c), Some(Vec2::new(1_500_001, -100_832)));
}

#[test]
fn a_fast_node_moves_at_the_speed_limit() {
    let mut model = Model::new();
    let a = model.add_node(Color::white()).unwrap();
    let mut p = GraphProjection::from_graph(&model);
    p.set_position(a, Vec2::new(5_000_000, 1_000_000));
    let mut rng = StdRng::seed_from_u64(0);
    simulate(&mut p, &model, &LayoutConfig::default(), &mut rng);
    assert_eq!(p.position(a), Some(Vec2::new(4_500_023, 995_239)));
}

#[test]
fn single_node_at_the_origin_stays() {
    let mut model = Model::new();
    let a = model.add_node(Color::white()).unwrap();
    let mut projection = GraphProjection::from_graph(&model);
    let mut rng = StdRng::seed_from_u64(1);
    for _ in 0..10 {
        simulate(&mut projection, &model, &LayoutConfig::default(), &mut rng);
        assert_eq!(projection.position(a), Some(Vec2::new(0, 0)));
    }
}

#[test]
fn a_node_unknown_to_the_graph_feels_no_outward_pull() {
    let model = Model::new();
    let ghost = NodeId { index: 3, generation: 0 };
    let mut p = GraphProjection::from_nodes(&vec![ghost]);
    p.set_position(ghost, Vec2::new(0, 500_000));
    let mut rng = StdRng::seed_from_u64(1);
    simulate(&mut p, &model, &LayoutConfig::default(), &mut rng);
    assert_eq!(p.position(ghost), Some(Vec2::new(0, 490_000)));
}

#[test]
fn an_empty_layout_stays_empty() {
    let model = Model::new();
    let mut p = GraphProjection::new();
    let mut rng = StdRng::seed_from_u64(1);
    simulate(&mut p, &model, &LayoutConfig::default(), &mut rng);
    assert_eq!(p.len(), 0);
}

#[test]
fn steps_keep_the_nodes_and_their_order() {
    let (model, a, b, c) = chain();
    let mut p = GraphProjection::from_graph(&model);
    let mut rng = StdRng::seed_from_u64(5);
    relax(&mut p, &model, &LayoutConfig::default(), &mut rng, 30);
    let ids: Vec<NodeId> = p.iter().iter().map(|e| e.0).collect();
    assert_eq!(ids, vec![a, b, c]);
}

#[test]
fn no_steps_change_nothing() {
    let (model, a, _, _) = chain();
    let mut p = GraphProjection::from_graph(&model);
    p.set_position(a, Vec2::new(7, 7));
    let before = p.iter();
    let mut rng = StdRng::seed_from_u64(5);
    relax(&mut p, &model, &LayoutConfig::default(), &mut rng, 0);
    assert_eq!(p.iter(), before);
}

#[test]
fn nodes_on_each_other_come_apart() {
    let (model, a, b, c) = chain();
    let mut p = GraphProjection::from_graph(&model);
    let mut rng = StdRng::seed_from_u64(3);
    simulate(&mut p, &model, &LayoutConfig::default(), &mut rng);
    assert_ne!(p.position(a), p.position(b));
    assert_ne!(p.position(b), p.position(c));
    assert_ne!(p.position(a), p.position(c));
}

#[test]
fn warm_start_orders_a_chain_left_to_right() {
    for seed in 0..20u64 {
        let (model, a, b, c) = chain();
        let mut p = GraphProjection::from_graph(&model);
        let mut rng = StdRng::seed_from_u64(seed);
        relax(&mut p, &model, &LayoutConfig::default(), &mut rng, WARM_START_STEPS);
        let ax = p.position(a).unwrap().x;
        let bx = p.position(b).unwrap().x;
        let cx = p.position(c).unwrap().x;
        assert!(ax < bx, "seed {}: {} {} {}", seed, ax, bx, cx);
        assert!(bx < cx, "seed {}: {} {} {}", seed, ax, bx, cx);
    }
}

#[test]
fn same_seed_gives_the_same_layout() {
    let (model, _, _, _) = chain();
    let config = LayoutConfig::default();
    let mut first = GraphProjection::from_graph(&model);
    let mut second = GraphProjection::from_graph(&model);
    let mut rng = StdRng::seed_from_u64(7);
    relax(&mut first, &model, &config, &mut rng, WARM_START_STEPS);
    let mut rng = StdRng::seed_from_u64(7);
    relax(&mut second, &model, &config, &mut rng, WARM_START_STEPS);
    assert_eq!(first.iter(), second.iter());
    assert_ne!(first.iter()[0].1.pos, Vec2::new(0, 0));
}

#[test]
fn without_overlap_the_seed_does_not_matter() {
    let (model, a, b, c) = chain();
    let mut first = GraphProjection::from_graph(&model);
    first.set_position(a, Vec2::new(-ONE, 0));
    first.set_position(b, Vec2::new(0, 300_000));
    first.set_position(c, Vec2::new(ONE, 0));
    let mut second = GraphProjection::from_graph(&model);
    second.copy_projections_from(&first);
    let mut rng = StdRng::seed_from_u64(1);
    relax(&mut first, &model, &LayoutConfig::default(), &mut rng, 50);
    let mut rng = StdRng::seed_from_u64(2);
    relax(&mut second, &model, &LayoutConfig::default(), &mut rng, 50);
    assert_eq!(first.iter(), second.iter());
    assert_ne!(first.position(b), Some(Vec2::new(0, 300_000)));
}

#[test]
fn extreme_settings_do_not_overflow() {
    let (model, a, b, _) = chain();
    let wild = LayoutConfig {
        cohesion_weight: i64::MAX,
        outward_weight: i64::MIN,
        repulsion_weight: i64::MAX,
        repulsion_distance: i64::MAX,
        reorder_weight: i64::MIN,
        neighbor_cohesion_weight: i64::MAX,
        neighbor_cohesion_distance: i64::MIN,
        center_correction_weight: i64::MAX,
        overlap_epsilon: -1,
        jitter_weight: i64::MAX,
        max_speed: i64::MAX,
        time_step: i64::MAX,
    };
    let mut p = GraphProjection::from_graph(&model);
    p.set_position(a, Vec2::new(i64::MAX, i64::MIN));
    p.set_position(b, Vec2::new(i64::MIN, i64::MAX));
    let mut rng = StdRng::seed_from_u64(5);
    relax(&mut p, &model, &wild, &mut rng, 5);
    assert_eq!(p.len(), 3);
}
