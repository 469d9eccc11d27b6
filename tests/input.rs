use oxide::editor::{first_hit, keyboard_step, plan_inputs, CameraStep, Drag, Selection};
use oxide::input::{ButtonState, InputController};
use oxide::vector::Vector2u32;

fn down() -> ButtonState {
    ButtonState { is_down: true, was_down: false }
}

#[test]
fn button_edges() {
    assert!(ButtonState { is_down: true, was_down: false }.pressed());
    assert!(!ButtonState { is_down: true, was_down: true }.pressed());
    assert!(ButtonState { is_down: false, was_down: true }.released());
    assert!(!ButtonState { is_down: false, was_down: false }.released());
}

#[test]
fn update_moves_snapshot_on_by_a_frame() {
    let mut input = InputController::default();
    input.w = ButtonState { is_down: true, was_down: false };
    input.mouse_state.pos = Vector2u32 { x: 10, y: 20 };
    input.mouse_state.wheel_delta = 3;

    let mut new_input = InputController::default();
    new_input.a.is_down = true;
    new_input.mouse_state.left.is_down = true;
    new_input.mouse_state.pos = Vector2u32 { x: 11, y: 22 };
    new_input.mouse_state.wheel_delta = -5;

    input.update(new_input);
    assert_eq!(input.w, ButtonState { is_down: false, was_down: true });
    assert_eq!(input.a, ButtonState { is_down: true, was_down: false });
    assert_eq!(input.mouse_state.left, ButtonState { is_down: true, was_down: false });
    assert_eq!(input.mouse_state.prev_pos, Vector2u32 { x: 10, y: 20 });
    assert_eq!(input.mouse_state.pos, Vector2u32 { x: 11, y: 22 });
    assert_eq!(input.mouse_state.wheel_delta, 3);

    input.update(new_input);
    assert_eq!(input.a, ButtonState { is_down: true, was_down: true });
    assert_eq!(input.mouse_state.prev_pos, Vector2u32 { x: 11, y: 22 });
}

#[test]
fn key_d_moves_right_at_straight_speed() {
    let mut input = InputController::default();
    input.d.is_down = true;
    assert_eq!(keyboard_step(&input), CameraStep { dx: 1, dy: 0, diagonal: false });
}

#[test]
fn two_keys_at_right_angles_move_diagonally() {
    let mut input = InputController::default();
    input.up.is_down = true;
    input.a.is_down = true;
    assert_eq!(keyboard_step(&input), CameraStep { dx: -1, dy: -1, diagonal: true });
    let mut input = InputController::default();
    input.s.is_down = true;
    input.right.is_down = true;
    assert_eq!(keyboard_step(&input), CameraStep { dx: 1, dy: 1, diagonal: true });
}

#[test]
fn opposite_keys_favour_up_and_left() {
    let mut input = InputController::default();
    input.w.is_down = true;
    input.s.is_down = true;
    assert_eq!(keyboard_step(&input), CameraStep { dx: 0, dy: -1, diagonal: false });
    let mut input = InputController::default();
    input.left.is_down = true;
    input.right.is_down = true;
    assert_eq!(keyboard_step(&input), CameraStep { dx: -1, dy: 0, diagonal: false });
    assert_eq!(keyboard_step(&InputController::default()), CameraStep { dx: 0, dy: 0, diagonal: false });
}

#[test]
fn first_hit_takes_lowest_slot() {
    assert_eq!(first_hit(&vec![None, Some(1), Some(0)]), Some(1));
    assert_eq!(first_hit(&vec![None, None]), None);
    assert_eq!(first_hit(&vec![]), None);
}

#[test]
fn press_drag_release_moves_a_handle() {
    let mut selection = Selection::default();
    let hits = vec![None, Some(0), None];

    let mut input = InputController::default();
    input.mouse_state.left = down();
    input.mouse_state.prev_pos = Vector2u32 { x: 100, y: 100 };
    input.mouse_state.pos = Vector2u32 { x: 100, y: 100 };
    let plan = plan_inputs(&input, &mut selection, &hits);
    assert_eq!(selection, Selection { curve_index: Some(1), control_point: 0 });
    assert_eq!(plan.drag, Drag::MoveHandle { curve_index: 1, control_point: 0 });

    input.mouse_state.left = ButtonState { is_down: true, was_down: true };
    input.mouse_state.pos = Vector2u32 { x: 150, y: 100 };
    let plan = plan_inputs(&input, &mut selection, &vec![None, None, None]);
    assert_eq!(selection, Selection { curve_index: Some(1), control_point: 0 });
    assert_eq!(plan.drag, Drag::MoveHandle { curve_index: 1, control_point: 0 });

    input.mouse_state.left = ButtonState { is_down: false, was_down: true };
    let plan = plan_inputs(&input, &mut selection, &vec![None, None, None]);
    assert_eq!(selection.curve_index, None);
    assert_eq!(plan.drag, Drag::Idle);
}

#[test]
fn press_picks_second_handle() {
    let mut selection = Selection::default();
    let mut input = InputController::default();
    input.mouse_state.left = down();
    let plan = plan_inputs(&input, &mut selection, &vec![Some(1), Some(0)]);
    assert_eq!(selection, Selection { curve_index: Some(0), control_point: 1 });
    assert_eq!(plan.drag, Drag::MoveHandle { curve_index: 0, control_point: 1 });
}

#[test]
fn drag_on_empty_space_pans() {
    let mut selection = Selection::default();
    let mut input = InputController::default();
    input.mouse_state.left = ButtonState { is_down: true, was_down: true };
    input.mouse_state.prev_pos = Vector2u32 { x: 100, y: 100 };
    input.mouse_state.pos = Vector2u32 { x: 150, y: 90 };
    let plan = plan_inputs(&input, &mut selection, &vec![None]);
    assert_eq!(selection.curve_index, None);
    assert_eq!(plan.drag, Drag::Pan { dx: -50, dy: 10 });
    assert!(!plan.reset_camera);
}

#[test]
fn right_press_resets_camera_once() {
    let mut selection = Selection::default();
    let mut input = InputController::default();
    input.mouse_state.right = down();
    assert!(plan_inputs(&input, &mut selection, &vec![]).reset_camera);
    input.mouse_state.right = ButtonState { is_down: true, was_down: true };
    assert!(!plan_inputs(&input, &mut selection, &vec![]).reset_camera);
}
