use rein::control::{
    camera_event, flag_for, CameraAction, Drag, InputKind, MoveAction, MoveFlag, MovementInput,
    OrbitAction, OrbitButtons,
};
use rein::window::event::{Key, MouseButton};

#[test]
fn fly_keys_move_and_roll() {
    let mut c = MovementInput::fly();
    assert_eq!(c.handle_event(InputKind::KeyPress(Key::W)), MoveAction::Consumed);
    assert_eq!(c.handle_event(InputKind::KeyPress(Key::Left)), MoveAction::Consumed);
    assert_eq!(c.handle_event(InputKind::KeyPress(Key::Q)), MoveAction::Consumed);
    assert_eq!(c.move_axes(), (-1, 0, 1));
    assert_eq!(c.roll_direction(), 1);
    c.handle_key_press(Key::E);
    assert_eq!(c.roll_direction(), 0);
    c.handle_key_release(Key::W);
    c.handle_key_press(Key::Down);
    assert_eq!(c.move_axes(), (-1, 0, -1));
    // Keys without a flag are still taken.
    assert_eq!(c.handle_event(InputKind::KeyPress(Key::F5)), MoveAction::Consumed);
}

#[test]
fn first_person_ignores_roll_keys() {
    let mut c = MovementInput::first_person();
    c.handle_key_press(Key::Q);
    c.handle_key_press(Key::E);
    assert_eq!(c.roll_direction(), 0);
    assert_eq!(c, MovementInput::first_person());
    assert_eq!(flag_for(Key::Q, false), None);
    assert_eq!(flag_for(Key::Q, true), Some(MoveFlag::RollLeft));
    c.handle_key_press(Key::Space);
    c.handle_key_press(Key::Shift);
    assert!(c.up && c.sprint);
    c.handle_key_release(Key::Space);
    assert!(!c.up);
}

#[test]
fn right_button_captures_the_mouse() {
    let mut c = MovementInput::fly();
    assert_eq!(c.handle_event(InputKind::MouseMotion), MoveAction::Pass);
    assert_eq!(c.handle_event(InputKind::MousePress(MouseButton::Left)), MoveAction::Pass);
    assert_eq!(c.handle_event(InputKind::MousePress(MouseButton::Right)), MoveAction::Consumed);
    assert!(c.is_mouse_captured());
    assert_eq!(c.handle_event(InputKind::MouseMotion), MoveAction::Look);
    assert_eq!(c.handle_event(InputKind::MouseWheel), MoveAction::Pass);
    assert_eq!(c.handle_event(InputKind::MouseRelease(MouseButton::Right)), MoveAction::Consumed);
    assert_eq!(c.handle_event(InputKind::MouseMotion), MoveAction::Pass);
}

#[test]
fn press_then_release_restores_the_state() {
    let before = MovementInput::fly();
    let mut c = before;
    c.handle_key_press(Key::D);
    assert!(c.right);
    c.handle_key_release(Key::D);
    assert_eq!(c, before);
}

#[test]
fn orbit_buttons_choose_the_motion() {
    let mut o = OrbitButtons::new();
    assert_eq!(o.handle_event(InputKind::MouseMotion), OrbitAction::Pass);
    assert_eq!(o.handle_event(InputKind::MousePress(MouseButton::Right)), OrbitAction::Pass);
    assert_eq!(o.handle_event(InputKind::MouseMotion), OrbitAction::Pan);
    assert_eq!(o.handle_event(InputKind::MousePress(MouseButton::Left)), OrbitAction::Pass);
    assert_eq!(o.handle_event(InputKind::MouseMotion), OrbitAction::Rotate);
    assert_eq!(o.handle_event(InputKind::MouseRelease(MouseButton::Left)), OrbitAction::Pass);
    assert_eq!(o.handle_event(InputKind::MouseRelease(MouseButton::Right)), OrbitAction::Pass);
    assert_eq!(o.handle_event(InputKind::MouseMotion), OrbitAction::Pass);
    assert_eq!(o.handle_event(InputKind::MouseWheel), OrbitAction::Zoom);
    assert_eq!(o.handle_event(InputKind::KeyPress(Key::W)), OrbitAction::Pass);
}

#[test]
fn camera_drags_follow_buttons() {
    let mut d: Option<Drag> = None;
    assert_eq!(camera_event(&mut d, InputKind::MousePress(MouseButton::Left), false), CameraAction::Pass);
    assert_eq!(d, None);
    assert_eq!(camera_event(&mut d, InputKind::MousePress(MouseButton::Middle), true), CameraAction::Consumed);
    assert_eq!(d, Some(Drag::Dolly));
    assert_eq!(camera_event(&mut d, InputKind::MouseMotion, false), CameraAction::Dolly);
    assert_eq!(camera_event(&mut d, InputKind::MouseRelease(MouseButton::Left), false), CameraAction::Consumed);
    assert_eq!(d, None);
    assert_eq!(camera_event(&mut d, InputKind::MouseRelease(MouseButton::Left), true), CameraAction::Pass);
    assert_eq!(camera_event(&mut d, InputKind::MouseMotion, true), CameraAction::Pass);
    assert_eq!(camera_event(&mut d, InputKind::MouseWheel, true), CameraAction::Zoom);
    assert_eq!(camera_event(&mut d, InputKind::MouseWheel, false), CameraAction::Pass);
    camera_event(&mut d, InputKind::MousePress(MouseButton::Right), true);
    assert_eq!(camera_event(&mut d, InputKind::MouseMotion, true), CameraAction::Pan);
}
