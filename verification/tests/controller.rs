use nodes::controller::{create_node_at, delete_node, focus_node, Controller, FrameInput};
use nodes::fixed::ONE;
use nodes::geometry::Vec2;
use nodes::model::{Color, Model, NodeId};
use nodes::view_model::ViewModel;
use rand::rngs::StdRng;
use rand::SeedableRng;

fn chain() -> (Model, NodeId, NodeId, NodeId) {
    let mut model = Model::new();
    let a = model.add_node(Color::white()).unwrap();
    let b = model.add_node(Color::white()).unwrap();
    let c = model.add_node(Color::white()).unwrap();
    assert!(model.add_edge(a, b));
    assert!(model.add_edge(b, c));
    (model, a, b, c)
}

fn nothing() -> FrameInput {
    FrameInput {
        quit: false,
        reset_view: false,
        create_node: false,
        delete_node: false,
        focus_node: false,
        zoom_in: false,
        zoom_out: false,
        mouse: None,
        pan: None,
    }
}

fn setup() -> (Controller, ViewModel, Model, StdRng, NodeId, NodeId, NodeId) {
    let (model, a, b, c) = chain();
    let mut rng = StdRng::seed_from_u64(2);
    let view = ViewModel::new(&model, &mut rng);
    (Controller::new(), view, model, rng, a, b, c)
}

#[test]
fn a_frame_without_input_changes_nothing() {
    let (mut controller, mut view, mut model, mut rng, _, _, _) = setup();
    let before = view.projection().iter();
    controller.update(&nothing(), &mut view, &mut model, &mut rng);
    assert!(!controller.quit_requested);
    assert_eq!(view.projection().iter(), before);
    assert_eq!(view.camera_zoom(), 0);
    assert_eq!(view.camera_pos(), Vec2::zero());
    assert_eq!(model.node_count(), 3);
    assert_eq!(view.hovered_node(), None);
}

#[test]
fn quitting_is_remembered() {
    let (mut controller, mut view, mut model, mut rng, _, _, _) = setup();
    controller.update(&FrameInput { quit: true, ..nothing() }, &mut view, &mut model, &mut rng);
    assert!(controller.quit_requested);
    controller.update(&nothing(), &mut view, &mut model, &mut rng);
    assert!(controller.quit_requested);
}

#[test]
fn the_node_under_the_pointer_is_hovered() {
    let (mut controller, mut view, mut model, mut rng, _, b, _) = setup();
    let at_b = view.position(b).unwrap();
    let input = FrameInput { mouse: Some(at_b), ..nothing() };
    controller.update(&input, &mut view, &mut model, &mut rng);
    assert_eq!(view.hovered_node(), Some(b));
    let away = FrameInput { mouse: Some(Vec2::new(50 * ONE, 50 * ONE)), ..nothing() };
    controller.update(&away, &mut view, &mut model, &mut rng);
    assert_eq!(view.hovered_node(), None);
}

#[test]
fn the_pointer_is_read_through_the_camera() {
    let (mut controller, mut view, mut model, mut rng, _, b, _) = setup();
    view.zoom_camera(-3);
    view.pan_camera(Vec2::new(-250_000, -500_000));
    let at_b = view.position(b).unwrap();
    let in_view = view.view_matrix().transform(at_b);
    let input = FrameInput { mouse: Some(in_view), ..nothing() };
    controller.update(&input, &mut view, &mut model, &mut rng);
    assert_eq!(view.hovered_node(), Some(b));
}

#[test]
fn a_node_is_created_under_the_pointer() {
    let (mut controller, mut view, mut model, mut rng, a, b, c) = setup();
    let before = [view.position(a), view.position(b), view.position(c)];
    let spot = Vec2::new(3 * ONE, -2 * ONE);
    let input = FrameInput { create_node: true, mouse: Some(spot), ..nothing() };
    controller.update(&input, &mut view, &mut model, &mut rng);
    assert_eq!(model.node_count(), 4);
    let d = model.node_ids()[3];
    assert_eq!(view.position(d), Some(spot));
    assert_eq!(model.node_color(d), Some(Color::rgb(ONE, 0, ONE)));
    assert_eq!([view.position(a), view.position(b), view.position(c)], before);
}

#[test]
fn nothing_is_created_without_a_pointer() {
    let (mut controller, mut view, mut model, mut rng, _, _, _) = setup();
    let input = FrameInput { create_node: true, ..nothing() };
    controller.update(&input, &mut view, &mut model, &mut rng);
    assert_eq!(model.node_count(), 3);
    assert_eq!(view.projection().len(), 3);
}

#[test]
fn the_hovered_node_is_deleted() {
    let (mut controller, mut view, mut model, mut rng, a, b, c) = setup();
    let at_b = view.position(b).unwrap();
    let before = [view.position(a), view.position(c)];
    let input = FrameInput { delete_node: true, mouse: Some(at_b), ..nothing() };
    controller.update(&input, &mut view, &mut model, &mut rng);
    assert!(!model.contains_node(b));
    assert_eq!(model.node_count(), 2);
    assert_eq!(view.position(b), None);
    assert_eq!([view.position(a), view.position(c)], before);
    assert_eq!(view.projection().len(), 2);
}

#[test]
fn nothing_is_deleted_beside_the_nodes() {
    let (mut controller, mut view, mut model, mut rng, _, _, _) = setup();
    let input =
        FrameInput { delete_node: true, mouse: Some(Vec2::new(50 * ONE, 0)), ..nothing() };
    controller.update(&input, &mut view, &mut model, &mut rng);
    assert_eq!(model.node_count(), 3);
    assert_eq!(view.projection().len(), 3);
}

#[test]
fn focusing_shows_a_node_and_its_neighbours() {
    let (mut controller, mut view, mut model, mut rng, a, b, c) = setup();
    let at_a = view.position(a).unwrap();
    let at_b = view.position(b).unwrap();
    let input = FrameInput { focus_node: true, mouse: Some(at_a), ..nothing() };
    controller.update(&input, &mut view, &mut model, &mut rng);
    assert_eq!(view.projection().len(), 2);
    assert_eq!(view.position(a), Some(at_a));
    assert_eq!(view.position(b), Some(at_b));
    assert_eq!(view.position(c), None);
    assert_eq!(model.node_count(), 3);
}

#[test]
fn a_reset_shows_the_whole_graph_again() {
    let (mut controller, mut view, mut model, mut rng, a, _, c) = setup();
    focus_node(&mut view, &model, a);
    assert_eq!(view.position(c), None);
    controller.update(&FrameInput { reset_view: true, ..nothing() }, &mut view, &mut model, &mut rng);
    assert_eq!(view.projection().len(), 3);
    assert!(view.position(c).is_some());
}

#[test]
fn the_zoom_keys_move_the_zoom_by_one_tick() {
    let (mut controller, mut view, mut model, mut rng, _, _, _) = setup();
    controller.update(&FrameInput { zoom_in: true, ..nothing() }, &mut view, &mut model, &mut rng);
    assert_eq!(view.camera_zoom(), -1);
    controller.update(&FrameInput { zoom_out: true, ..nothing() }, &mut view, &mut model, &mut rng);
    assert_eq!(view.camera_zoom(), 0);
    let both = FrameInput { zoom_in: true, zoom_out: true, ..nothing() };
    controller.update(&both, &mut view, &mut model, &mut rng);
    assert_eq!(view.camera_zoom(), 0);
}

#[test]
fn dragging_pans_the_camera() {
    let (mut controller, mut view, mut model, mut rng, _, _, _) = setup();
    let input = FrameInput { pan: Some(Vec2::new(100_000, -50_000)), ..nothing() };
    controller.update(&input, &mut view, &mut model, &mut rng);
    assert_eq!(view.camera_pos(), Vec2::new(-200_000, 100_000));
    let zoomed = FrameInput { zoom_out: true, pan: Some(Vec2::new(ONE, 0)), ..nothing() };
    controller.update(&zoomed, &mut view, &mut model, &mut rng);
    assert_eq!(view.camera_zoom(), 1);
    assert_eq!(view.camera_pos(), Vec2::new(-200_000 - 2_519_842, 100_000));
}

#[test]
fn creating_a_node_by_hand() {
    let (_, mut view, mut model, _, a, _, _) = setup();
    let at_a = view.position(a);
    let d = create_node_at(&mut view, &mut model, Vec2::new(7, 8)).unwrap();
    assert!(model.contains_node(d));
    assert_eq!(view.position(d), Some(Vec2::new(7, 8)));
    assert_eq!(view.position(a), at_a);
    assert_eq!(view.projection().len(), 4);
}

#[test]
fn deleting_a_node_by_hand() {
    let (_, mut view, mut model, _, a, b, _) = setup();
    let at_a = view.position(a);
    assert!(delete_node(&mut view, &mut model, b));
    assert!(!delete_node(&mut view, &mut model, b));
    assert_eq!(view.position(b), None);
    assert_eq!(view.position(a), at_a);
    assert_eq!(model.node_count(), 2);
}

#[test]
fn focusing_on_a_missing_node_shows_nothing() {
    let (_, mut view, model, _, _, _, _) = setup();
    focus_node(&mut view, &model, NodeId { index: 30, generation: 0 });
    assert_eq!(view.projection().len(), 0);
}
