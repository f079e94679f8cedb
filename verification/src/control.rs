//! Input state of the camera controls: which keys and buttons are held, and what a
//! control does with each input event. The camera arithmetic itself (rotations,
//! pans, zooms) is done by the caller with the action these functions choose.
use vstd::prelude::*;

use crate::window::event::{Key, MouseButton};

verus! {

/// What a control sees of an input event: its kind, and its button or key.
/// Positions and deltas stay with the caller.
#[derive(Debug, Clone, Copy, PartialEq, Eq, Structural)]
pub enum InputKind {
    MousePress(MouseButton),
    MouseRelease(MouseButton),
    MouseMotion,
    MouseWheel,
    KeyPress(Key),
    KeyRelease(Key),
    Resize,
}

/// One movement flag of the keyboard-driven controls.
#[derive(Debug, Clone, Copy, PartialEq, Eq, Structural)]
pub enum MoveFlag {
    Forward,
    Backward,
    Left,
    Right,
    Up,
    Down,
    RollLeft,
    RollRight,
    Sprint,
}

/// The flag a key drives: W/Up, S/Down, A/Left, D/Right, Space, Control, Shift,
/// and, where the control rolls, Q and E.
pub open spec fn flag_of(key: Key, rolls: bool) -> Option<MoveFlag> {
    match key {
        Key::W | Key::Up => Some(MoveFlag::Forward),
        Key::S | Key::Down => Some(MoveFlag::Backward),
        Key::A | Key::Left => Some(MoveFlag::Left),
        Key::D | Key::Right => Some(MoveFlag::Right),
        Key::Space => Some(MoveFlag::Up),
        Key::Control => Some(MoveFlag::Down),
        Key::Q => if rolls {
            Some(MoveFlag::RollLeft)
        } else {
            None
        },
        Key::E => if rolls {
            Some(MoveFlag::RollRight)
        } else {
            None
        },
        Key::Shift => Some(MoveFlag::Sprint),
        _ => None,
    }
}

/// The flag a key drives, if any.
pub fn flag_for(key: Key, rolls: bool) -> (r: Option<MoveFlag>)
    ensures
        r == flag_of(key, rolls),
{
    match key {
        Key::W | Key::Up => Some(MoveFlag::Forward),
        Key::S | Key::Down => Some(MoveFlag::Backward),
        Key::A | Key::Left => Some(MoveFlag::Left),
        Key::D | Key::Right => Some(MoveFlag::Right),
        Key::Space => Some(MoveFlag::Up),
        Key::Control => Some(MoveFlag::Down),
        Key::Q => if rolls {
            Some(MoveFlag::RollLeft)
        } else {
            None
        },
        Key::E => if rolls {
            Some(MoveFlag::RollRight)
        } else {
            None
        },
        Key::Shift => Some(MoveFlag::Sprint),
        _ => None,
    }
}

/// What a keyboard-driven control does with an event.
#[derive(Debug, Clone, Copy, PartialEq, Eq, Structural)]
pub enum MoveAction {
    /// Not for this control: the event stays unhandled.
    Pass,
    /// The control took the event; only its input state changed.
    Consumed,
    /// Mouse look: the caller turns the camera by the motion delta; the event is
    /// handled.
    Look,
}

/// Held movement keys and mouse capture of the fly control (which rolls with Q and
/// E) and the first-person control (which does not).
#[derive(Debug, Clone, Copy, PartialEq, Eq, Structural)]
pub struct MovementInput {
    pub rolls: bool,
    pub forward: bool,
    pub backward: bool,
    pub left: bool,
    pub right: bool,
    pub up: bool,
    pub down: bool,
    pub roll_left: bool,
    pub roll_right: bool,
    pub sprint: bool,
    pub mouse_captured: bool,
}

impl MovementInput {
    /// The value of one flag.
    pub open spec fn flag(self, f: MoveFlag) -> bool {
        match f {
            MoveFlag::Forward => self.forward,
            MoveFlag::Backward => self.backward,
            MoveFlag::Left => self.left,
            MoveFlag::Right => self.right,
            MoveFlag::Up => self.up,
            MoveFlag::Down => self.down,
            MoveFlag::RollLeft => self.roll_left,
            MoveFlag::RollRight => self.roll_right,
            MoveFlag::Sprint => self.sprint,
        }
    }

    /// The same state with one flag set to `v`.
    pub open spec fn with_flag(self, f: MoveFlag, v: bool) -> Self {
        match f {
            MoveFlag::Forward => MovementInput { forward: v, ..self },
            MoveFlag::Backward => MovementInput { backward: v, ..self },
            MoveFlag::Left => MovementInput { left: v, ..self },
            MoveFlag::Right => MovementInput { right: v, ..self },
            MoveFlag::Up => MovementInput { up: v, ..self },
            MoveFlag::Down => MovementInput { down: v, ..self },
            MoveFlag::RollLeft => MovementInput { roll_left: v, ..self },
            MoveFlag::RollRight => MovementInput { roll_right: v, ..self },
            MoveFlag::Sprint => MovementInput { sprint: v, ..self },
        }
    }

    /// The state after key `key` goes down (`v`) or up (`!v`).
    pub open spec fn keyed(self, key: Key, v: bool) -> Self {
        match flag_of(key, self.rolls) {
            Some(f) => self.with_flag(f, v),
            None => self,
        }
    }

    /// Nothing held, mouse free.
    pub open spec fn idle(rolls: bool) -> Self {
        MovementInput {
            rolls,
            forward: false,
            backward: false,
            left: false,
            right: false,
            up: false,
            down: false,
            roll_left: false,
            roll_right: false,
            sprint: false,
            mouse_captured: false,
        }
    }

    /// The input state of a fly control: nothing held.
    pub fn fly() -> (r: Self)
        ensures
            r == Self::idle(true),
    {
        Self::new(true)
    }

    /// The input state of a first-person control: nothing held.
    pub fn first_person() -> (r: Self)
        ensures
            r == Self::idle(false),
    {
        Self::new(false)
    }

    fn new(rolls: bool) -> (r: Self)
        ensures
            r == Self::idle(rolls),
    {
        MovementInput {
            rolls,
            forward: false,
            backward: false,
            left: false,
            right: false,
            up: false,
            down: false,
            roll_left: false,
            roll_right: false,
            sprint: false,
            mouse_captured: false,
        }
    }

    fn set(&mut self, key: Key, v: bool)
        ensures
            *final(self) == old(self).keyed(key, v),
    {
        match flag_for(key, self.rolls) {
            Some(f) => self.set_flag(f, v),
            None => {},
        }
    }

    fn set_flag(&mut self, f: MoveFlag, v: bool)
        ensures
            *final(self) == old(self).with_flag(f, v),
    {
        match f {
            MoveFlag::Forward => self.forward = v,
            MoveFlag::Backward => self.backward = v,
            MoveFlag::Left => self.left = v,
            MoveFlag::Right => self.right = v,
            MoveFlag::Up => self.up = v,
            MoveFlag::Down => self.down = v,
            MoveFlag::RollLeft => self.roll_left = v,
            MoveFlag::RollRight => self.roll_right = v,
            MoveFlag::Sprint => self.sprint = v,
        }
    }

    /// A key went down: its flag is set.
    pub fn handle_key_press(&mut self, key: Key)
        ensures
            *final(self) == old(self).keyed(key, true),
    {
        self.set(key, true)
    }

    /// A key went up: its flag is cleared.
    pub fn handle_key_release(&mut self, key: Key)
        ensures
            *final(self) == old(self).keyed(key, false),
    {
        self.set(key, false)
    }

    /// The effect of an unhandled event: keys update the flags and are always
    /// taken; the right button captures and frees the mouse; motion while captured
    /// looks around. Everything else passes.
    pub open spec fn step(self, ev: InputKind) -> (Self, MoveAction) {
        match ev {
            InputKind::KeyPress(k) => (self.keyed(k, true), MoveAction::Consumed),
            InputKind::KeyRelease(k) => (self.keyed(k, false), MoveAction::Consumed),
            InputKind::MousePress(MouseButton::Right) => (
                MovementInput { mouse_captured: true, ..self },
                MoveAction::Consumed,
            ),
            InputKind::MouseRelease(MouseButton::Right) => (
                MovementInput { mouse_captured: false, ..self },
                MoveAction::Consumed,
            ),
            InputKind::MouseMotion => if self.mouse_captured {
                (self, MoveAction::Look)
            } else {
                (self, MoveAction::Pass)
            },
            _ => (self, MoveAction::Pass),
        }
    }

    /// Handles one event that no earlier control took.
    pub fn handle_event(&mut self, ev: InputKind) -> (r: MoveAction)
        ensures
            (*final(self), r) == old(self).step(ev),
    {
        match ev {
            InputKind::KeyPress(k) => {
                self.handle_key_press(k);
                MoveAction::Consumed
            },
            InputKind::KeyRelease(k) => {
                self.handle_key_release(k);
                MoveAction::Consumed
            },
            InputKind::MousePress(MouseButton::Right) => {
                self.mouse_captured = true;
                MoveAction::Consumed
            },
            InputKind::MouseRelease(MouseButton::Right) => {
                self.mouse_captured = false;
                MoveAction::Consumed
            },
            InputKind::MouseMotion => {
                if self.mouse_captured {
                    MoveAction::Look
                } else {
                    MoveAction::Pass
                }
            },
            _ => MoveAction::Pass,
        }
    }

    /// Whether the right button holds the mouse for looking.
    pub fn is_mouse_captured(&self) -> (r: bool)
        ensures
            r == self.mouse_captured,
    {
        self.mouse_captured
    }

    /// The direction of travel in camera axes, each `-1`, `0` or `1`: right minus
    /// left, up minus down, forward minus backward.
    pub fn move_axes(&self) -> (r: (i8, i8, i8))
        ensures
            r.0 == (if self.right { 1int } else { 0 }) - (if self.left { 1int } else { 0 }),
            r.1 == (if self.up { 1int } else { 0 }) - (if self.down { 1int } else { 0 }),
            r.2 == (if self.forward { 1int } else { 0 }) - (if self.backward { 1int } else { 0 }),
    {
        let x: i8 = (if self.right { 1 } else { 0 }) - (if self.left { 1 } else { 0 });
        let y: i8 = (if self.up { 1 } else { 0 }) - (if self.down { 1 } else { 0 });
        let z: i8 = (if self.forward { 1 } else { 0 }) - (if self.backward { 1 } else { 0 });
        (x, y, z)
    }

    /// The roll direction: `1` for Q (left) alone, `-1` for E (right) alone, `0`
    /// for both or neither.
    pub fn roll_direction(&self) -> (r: i8)
        ensures
            r == (if self.roll_left { 1int } else { 0 }) - (if self.roll_right { 1int } else { 0 }),
    {
        (if self.roll_left { 1 } else { 0 }) - (if self.roll_right { 1 } else { 0 })
    }
}

/// Releasing a key undoes pressing it when its flag was not held before, and
/// pressing a key changes no flag but its own.
pub proof fn lemma_press_then_release(s: MovementInput, key: Key)
    requires
        flag_of(key, s.rolls) matches Some(f) ==> !s.flag(f),
    ensures
        s.keyed(key, true).keyed(key, false) == s,
        forall|g: MoveFlag|
            flag_of(key, s.rolls) != Some(g) ==> #[trigger] s.keyed(key, true).flag(g) == s.flag(g),
{
}

/// Each arrow key drives the same flag as its WASD twin, in both controls: Up and W
/// move forward, Down and S backward, Left and A strafe left, Right and D strafe
/// right. Pressing one sets exactly that flag, so the direction of travel follows
/// it, whatever else is held.
pub proof fn lemma_arrow_keys_match_wasd(s: MovementInput)
    ensures
        flag_of(Key::Up, s.rolls) == Some(MoveFlag::Forward) && flag_of(Key::W, s.rolls) == Some(
            MoveFlag::Forward,
        ),
        flag_of(Key::Down, s.rolls) == Some(MoveFlag::Backward) && flag_of(Key::S, s.rolls)
            == Some(MoveFlag::Backward),
        flag_of(Key::Left, s.rolls) == Some(MoveFlag::Left) && flag_of(Key::A, s.rolls) == Some(
            MoveFlag::Left,
        ),
        flag_of(Key::Right, s.rolls) == Some(MoveFlag::Right) && flag_of(Key::D, s.rolls) == Some(
            MoveFlag::Right,
        ),
        s.keyed(Key::Right, true).right && s.keyed(Key::Right, true).left == s.left,
        s.keyed(Key::D, true).right && s.keyed(Key::D, true).left == s.left,
        s.keyed(Key::Left, true).left && s.keyed(Key::Left, true).right == s.right,
        s.keyed(Key::A, true).left && s.keyed(Key::A, true).right == s.right,
        s.keyed(Key::Up, true).forward && s.keyed(Key::Up, true).backward == s.backward,
        s.keyed(Key::W, true).forward && s.keyed(Key::W, true).backward == s.backward,
        s.keyed(Key::Down, true).backward && s.keyed(Key::Down, true).forward == s.forward,
        s.keyed(Key::S, true).backward && s.keyed(Key::S, true).forward == s.forward,
        !s.left ==> s.keyed(Key::Right, true).right && !s.keyed(Key::Right, true).left,
{
}

/// Mouse buttons held by the orbit controls.
#[derive(Debug, Clone, Copy, PartialEq, Eq, Structural)]
pub struct OrbitButtons {
    pub left: bool,
    pub right: bool,
    pub middle: bool,
}

/// What an orbit control does with an event.
#[derive(Debug, Clone, Copy, PartialEq, Eq, Structural)]
pub enum OrbitAction {
    /// The event stays unhandled (button presses and releases only update the held
    /// buttons).
    Pass,
    /// Rotate by the motion delta; handled.
    Rotate,
    /// Pan by the motion delta; handled.
    Pan,
    /// Zoom by the wheel delta; handled.
    Zoom,
}

impl OrbitButtons {
    /// No button held.
    pub fn new() -> (r: Self)
        ensures
            r == (OrbitButtons { left: false, right: false, middle: false }),
    {
        OrbitButtons { left: false, right: false, middle: false }
    }

    pub open spec fn with_button(self, b: MouseButton, v: bool) -> Self {
        match b {
            MouseButton::Left => OrbitButtons { left: v, ..self },
            MouseButton::Right => OrbitButtons { right: v, ..self },
            MouseButton::Middle => OrbitButtons { middle: v, ..self },
        }
    }

    /// Presses and releases track the buttons and pass; motion rotates with the
    /// left button held, else pans with the right or middle one; the wheel zooms.
    pub open spec fn step(self, ev: InputKind) -> (Self, OrbitAction) {
        match ev {
            InputKind::MousePress(b) => (self.with_button(b, true), OrbitAction::Pass),
            InputKind::MouseRelease(b) => (self.with_button(b, false), OrbitAction::Pass),
            InputKind::MouseMotion => if self.left {
                (self, OrbitAction::Rotate)
            } else if self.right || self.middle {
                (self, OrbitAction::Pan)
            } else {
                (self, OrbitAction::Pass)
            },
            InputKind::MouseWheel => (self, OrbitAction::Zoom),
            _ => (self, OrbitAction::Pass),
        }
    }

    /// Handles one event that no earlier control took.
    pub fn handle_event(&mut self, ev: InputKind) -> (r: OrbitAction)
        ensures
            (*final(self), r) == old(self).step(ev),
    {
        match ev {
            InputKind::MousePress(b) => {
                match b {
                    MouseButton::Left => self.left = true,
                    MouseButton::Right => self.right = true,
                    MouseButton::Middle => self.middle = true,
                }
                OrbitAction::Pass
            },
            InputKind::MouseRelease(b) => {
                match b {
                    MouseButton::Left => self.left = false,
                    MouseButton::Right => self.right = false,
                    MouseButton::Middle => self.middle = false,
                }
                OrbitAction::Pass
            },
            InputKind::MouseMotion => {
                if self.left {
                    OrbitAction::Rotate
                } else if self.right || self.middle {
                    OrbitAction::Pan
                } else {
                    OrbitAction::Pass
                }
            },
            InputKind::MouseWheel => OrbitAction::Zoom,
            _ => OrbitAction::Pass,
        }
    }
}

/// Orbit controls: a press holds its own button and no other, a release frees it;
/// motion rotates while the left button is held, pans while only the right or
/// middle one is, and does nothing with no button held; the wheel always zooms.
/// Button presses and releases are left for other handlers.
pub proof fn lemma_orbit_buttons(s: OrbitButtons, b: MouseButton)
    ensures
        s.step(InputKind::MousePress(MouseButton::Left)).0 == (OrbitButtons { left: true, ..s }),
        s.step(InputKind::MousePress(MouseButton::Right)).0 == (OrbitButtons { right: true, ..s }),
        s.step(InputKind::MousePress(MouseButton::Middle)).0 == (OrbitButtons { middle: true, ..s }),
        s.step(InputKind::MouseRelease(MouseButton::Left)).0 == (OrbitButtons { left: false, ..s }),
        s.step(InputKind::MousePress(b)).1 == OrbitAction::Pass,
        s.step(InputKind::MouseRelease(b)).1 == OrbitAction::Pass,
        s.left ==> s.step(InputKind::MouseMotion).1 == OrbitAction::Rotate,
        !s.left && (s.right || s.middle) ==> s.step(InputKind::MouseMotion).1 == OrbitAction::Pan,
        !s.left && !s.right && !s.middle ==> s.step(InputKind::MouseMotion).1 == OrbitAction::Pass,
        s.step(InputKind::MouseWheel).1 == OrbitAction::Zoom,
        s.step(InputKind::MouseMotion).0 == s,
{
}

/// The drag an orbit camera is in.
#[derive(Debug, Clone, Copy, PartialEq, Eq, Structural)]
pub enum Drag {
    Orbit,
    Pan,
    Dolly,
}

/// What an orbit camera does with an event.
#[derive(Debug, Clone, Copy, PartialEq, Eq, Structural)]
pub enum CameraAction {
    /// The event stays unhandled.
    Pass,
    /// A drag started or ended; handled.
    Consumed,
    /// Orbit by the motion delta; handled.
    Orbit,
    /// Pan by the motion delta; handled.
    Pan,
    /// Dolly by the vertical motion delta; handled.
    Dolly,
    /// Zoom by the wheel delta; handled.
    Zoom,
}

/// The drag a mouse button starts: left orbits, right pans, middle dollies.
pub open spec fn drag_for(b: MouseButton) -> Drag {
    match b {
        MouseButton::Left => Drag::Orbit,
        MouseButton::Right => Drag::Pan,
        MouseButton::Middle => Drag::Dolly,
    }
}

/// The drag state of an orbit camera on one event; `inside` tells whether the
/// pointer is over the camera's viewport.
pub open spec fn camera_step(dragging: Option<Drag>, ev: InputKind, inside: bool) -> (
    Option<Drag>,
    CameraAction,
) {
    match ev {
        InputKind::MousePress(b) => if inside {
            (Some(drag_for(b)), CameraAction::Consumed)
        } else {
            (dragging, CameraAction::Pass)
        },
        InputKind::MouseRelease(_) => if dragging is Some {
            (None, CameraAction::Consumed)
        } else {
            (None, CameraAction::Pass)
        },
        InputKind::MouseMotion => match dragging {
            Some(Drag::Orbit) => (dragging, CameraAction::Orbit),
            Some(Drag::Pan) => (dragging, CameraAction::Pan),
            Some(Drag::Dolly) => (dragging, CameraAction::Dolly),
            None => (dragging, CameraAction::Pass),
        },
        InputKind::MouseWheel => if inside {
            (dragging, CameraAction::Zoom)
        } else {
            (dragging, CameraAction::Pass)
        },
        _ => (dragging, CameraAction::Pass),
    }
}

/// A press inside the viewport starts the drag of its own button, whatever drag was
/// under way: left orbits, right pans, middle dollies, three different drags; the
/// motion that follows does what that drag does. A press outside the viewport
/// starts nothing.
pub proof fn lemma_press_starts_its_drag(dragging: Option<Drag>, inside: bool)
    ensures
        camera_step(dragging, InputKind::MousePress(MouseButton::Left), true).0 == Some(Drag::Orbit),
        camera_step(dragging, InputKind::MousePress(MouseButton::Right), true).0 == Some(Drag::Pan),
        camera_step(dragging, InputKind::MousePress(MouseButton::Middle), true).0 == Some(
            Drag::Dolly,
        ),
        Drag::Orbit != Drag::Pan && Drag::Pan != Drag::Dolly && Drag::Orbit != Drag::Dolly,
        camera_step(
            camera_step(dragging, InputKind::MousePress(MouseButton::Left), true).0,
            InputKind::MouseMotion,
            inside,
        ).1 == CameraAction::Orbit,
        camera_step(
            camera_step(dragging, InputKind::MousePress(MouseButton::Right), true).0,
            InputKind::MouseMotion,
            inside,
        ).1 == CameraAction::Pan,
        camera_step(
            camera_step(dragging, InputKind::MousePress(MouseButton::Middle), true).0,
            InputKind::MouseMotion,
            inside,
        ).1 == CameraAction::Dolly,
        forall|b: MouseButton|
            #[trigger] camera_step(dragging, InputKind::MousePress(b), false) == (
                dragging,
                CameraAction::Pass,
            ),
{
}

/// Handles one event for an orbit camera that no earlier control took.
pub fn camera_event(dragging: &mut Option<Drag>, ev: InputKind, inside: bool) -> (r: CameraAction)
    ensures
        (*final(dragging), r) == camera_step(*old(dragging), ev, inside),
{
    match ev {
        InputKind::MousePress(b) => {
            if inside {
                *dragging = Some(
                    match b {
                        MouseButton::Left => Drag::Orbit,
                        MouseButton::Right => Drag::Pan,
                        MouseButton::Middle => Drag::Dolly,
                    },
                );
                CameraAction::Consumed
            } else {
                CameraAction::Pass
            }
        },
        InputKind::MouseRelease(_) => {
            let was = dragging.is_some();
            *dragging = None;
            if was {
                CameraAction::Consumed
            } else {
                CameraAction::Pass
            }
        },
        InputKind::MouseMotion => match *dragging {
            Some(Drag::Orbit) => CameraAction::Orbit,
            Some(Drag::Pan) => CameraAction::Pan,
            Some(Drag::Dolly) => CameraAction::Dolly,
            None => CameraAction::Pass,
        },
        InputKind::MouseWheel => {
            if inside {
                CameraAction::Zoom
            } else {
                CameraAction::Pass
            }
        },
        _ => CameraAction::Pass,
    }
}

} // verus!
