//! Platform-independent mouse and keyboard input.
use vstd::prelude::*;

verus! {

/// Mouse button type.
#[derive(Debug, Clone, Copy, PartialEq, Eq, Hash, Structural)]
pub enum MouseButton {
    Left,
    Right,
    Middle,
}

/// Keyboard key.
#[derive(Debug, Clone, Copy, PartialEq, Eq, Hash, Structural)]
pub enum Key {
    A,
    B,
    C,
    D,
    E,
    F,
    G,
    H,
    I,
    J,
    K,
    L,
    M,
    N,
    O,
    P,
    Q,
    R,
    S,
    T,
    U,
    V,
    W,
    X,
    Y,
    Z,
    Key0,
    Key1,
    Key2,
    Key3,
    Key4,
    Key5,
    Key6,
    Key7,
    Key8,
    Key9,
    F1,
    F2,
    F3,
    F4,
    F5,
    F6,
    F7,
    F8,
    F9,
    F10,
    F11,
    F12,
    Escape,
    Tab,
    Space,
    Enter,
    Backspace,
    Delete,
    Insert,
    Home,
    End,
    PageUp,
    PageDown,
    Left,
    Right,
    Up,
    Down,
    Shift,
    Control,
    Alt,
}

/// The named (non-character) keys a platform reports that have a [`Key`].
#[derive(Debug, Clone, Copy, PartialEq, Eq, Hash, Structural)]
pub enum NamedKey {
    Escape,
    Tab,
    Space,
    Enter,
    Backspace,
    Delete,
    Insert,
    Home,
    End,
    PageUp,
    PageDown,
    ArrowLeft,
    ArrowRight,
    ArrowUp,
    ArrowDown,
    Shift,
    Control,
    Alt,
    F1,
    F2,
    F3,
    F4,
    F5,
    F6,
    F7,
    F8,
    F9,
    F10,
    F11,
    F12,
}

/// ASCII lower-casing, as `char::to_ascii_lowercase`.
pub open spec fn ascii_lower(c: char) -> char {
    if 65 <= c as u32 <= 90 {
        ((c as u32) + 32) as char
    } else {
        c
    }
}

/// The letter keys in alphabet order, then the digit keys.
pub open spec fn letter_key(i: int) -> Key {
    seq![
        Key::A, Key::B, Key::C, Key::D, Key::E, Key::F, Key::G, Key::H, Key::I, Key::J,
        Key::K, Key::L, Key::M, Key::N, Key::O, Key::P, Key::Q, Key::R, Key::S, Key::T,
        Key::U, Key::V, Key::W, Key::X, Key::Y, Key::Z,
    ][i]
}

pub open spec fn digit_key(i: int) -> Key {
    seq![
        Key::Key0, Key::Key1, Key::Key2, Key::Key3, Key::Key4, Key::Key5, Key::Key6,
        Key::Key7, Key::Key8, Key::Key9,
    ][i]
}

/// The key a typed character stands for: a letter in either case, or a digit.
pub open spec fn char_key(c: char) -> Option<Key> {
    let l = ascii_lower(c) as u32;
    if 97 <= l <= 122 {
        Some(letter_key(l - 97))
    } else if 48 <= l <= 57 {
        Some(digit_key(l - 48))
    } else {
        None
    }
}

/// A typed letter names the same key in either case.
pub proof fn lemma_char_key_ignores_case(c: char)
    ensures
        char_key(c) == char_key(ascii_lower(c)),
{
}

impl Key {
    /// The key for the first character of a typed text, if it is an ASCII letter
    /// (either case) or digit.
    pub fn from_char(c: char) -> (r: Option<Self>)
        ensures
            r == char_key(c),
    {
        let u = c as u32;
        let l = if 65 <= u && u <= 90 {
            u + 32
        } else {
            u
        };
        let letters = [
            Key::A, Key::B, Key::C, Key::D, Key::E, Key::F, Key::G, Key::H, Key::I, Key::J,
            Key::K, Key::L, Key::M, Key::N, Key::O, Key::P, Key::Q, Key::R, Key::S, Key::T,
            Key::U, Key::V, Key::W, Key::X, Key::Y, Key::Z,
        ];
        let digits = [
            Key::Key0, Key::Key1, Key::Key2, Key::Key3, Key::Key4, Key::Key5, Key::Key6,
            Key::Key7, Key::Key8, Key::Key9,
        ];
        proof {
            assert(letters@ =~= seq![
                Key::A, Key::B, Key::C, Key::D, Key::E, Key::F, Key::G, Key::H, Key::I, Key::J,
                Key::K, Key::L, Key::M, Key::N, Key::O, Key::P, Key::Q, Key::R, Key::S, Key::T,
                Key::U, Key::V, Key::W, Key::X, Key::Y, Key::Z,
            ]);
            assert(digits@ =~= seq![
                Key::Key0, Key::Key1, Key::Key2, Key::Key3, Key::Key4, Key::Key5, Key::Key6,
                Key::Key7, Key::Key8, Key::Key9,
            ]);
            assert(ascii_lower(c) as u32 == l);
        }
        if 97 <= l && l <= 122 {
            Some(letters[(l - 97) as usize])
        } else if 48 <= l && l <= 57 {
            Some(digits[(l - 48) as usize])
        } else {
            None
        }
    }

    /// The key for the first character of a typed text (`None` for an empty text).
    pub fn from_text(text: &str) -> (r: Option<Self>)
        ensures
            r == (if text@.len() > 0 {
                char_key(text@[0])
            } else {
                None
            }),
    {
        let mut it = text.chars();
        proof {
            broadcast use vstd::string::axiom_spec_iter;
        }
        match it.next() {
            Some(c) => Self::from_char(c),
            None => None,
        }
    }

    /// The key for a named key.
    pub fn from_named(named: NamedKey) -> (r: Self)
        ensures
            r == match named {
                NamedKey::Escape => Key::Escape,
                NamedKey::Tab => Key::Tab,
                NamedKey::Space => Key::Space,
                NamedKey::Enter => Key::Enter,
                NamedKey::Backspace => Key::Backspace,
                NamedKey::Delete => Key::Delete,
                NamedKey::Insert => Key::Insert,
                NamedKey::Home => Key::Home,
                NamedKey::End => Key::End,
                NamedKey::PageUp => Key::PageUp,
                NamedKey::PageDown => Key::PageDown,
                NamedKey::ArrowLeft => Key::Left,
                NamedKey::ArrowRight => Key::Right,
                NamedKey::ArrowUp => Key::Up,
                NamedKey::ArrowDown => Key::Down,
                NamedKey::Shift => Key::Shift,
                NamedKey::Control => Key::Control,
                NamedKey::Alt => Key::Alt,
                NamedKey::F1 => Key::F1,
                NamedKey::F2 => Key::F2,
                NamedKey::F3 => Key::F3,
                NamedKey::F4 => Key::F4,
                NamedKey::F5 => Key::F5,
                NamedKey::F6 => Key::F6,
                NamedKey::F7 => Key::F7,
                NamedKey::F8 => Key::F8,
                NamedKey::F9 => Key::F9,
                NamedKey::F10 => Key::F10,
                NamedKey::F11 => Key::F11,
                NamedKey::F12 => Key::F12,
            },
    {
        match named {
            NamedKey::Escape => Key::Escape,
            NamedKey::Tab => Key::Tab,
            NamedKey::Space => Key::Space,
            NamedKey::Enter => Key::Enter,
            NamedKey::Backspace => Key::Backspace,
            NamedKey::Delete => Key::Delete,
            NamedKey::Insert => Key::Insert,
            NamedKey::Home => Key::Home,
            NamedKey::End => Key::End,
            NamedKey::PageUp => Key::PageUp,
            NamedKey::PageDown => Key::PageDown,
            NamedKey::ArrowLeft => Key::Left,
            NamedKey::ArrowRight => Key::Right,
            NamedKey::ArrowUp => Key::Up,
            NamedKey::ArrowDown => Key::Down,
            NamedKey::Shift => Key::Shift,
            NamedKey::Control => Key::Control,
            NamedKey::Alt => Key::Alt,
            NamedKey::F1 => Key::F1,
            NamedKey::F2 => Key::F2,
            NamedKey::F3 => Key::F3,
            NamedKey::F4 => Key::F4,
            NamedKey::F5 => Key::F5,
            NamedKey::F6 => Key::F6,
            NamedKey::F7 => Key::F7,
            NamedKey::F8 => Key::F8,
            NamedKey::F9 => Key::F9,
            NamedKey::F10 => Key::F10,
            NamedKey::F11 => Key::F11,
            NamedKey::F12 => Key::F12,
        }
    }
}

/// Modifier key state.
#[derive(Debug, Clone, Copy, PartialEq, Eq, Structural)]
pub struct Modifiers {
    pub shift: bool,
    pub ctrl: bool,
    pub alt: bool,
}

impl Default for Modifiers {
    fn default() -> (r: Self)
        ensures
            !r.shift && !r.ctrl && !r.alt,
    {
        Modifiers { shift: false, ctrl: false, alt: false }
    }
}

impl Modifiers {
    /// Check if any modifier is pressed.
    pub fn any(&self) -> (r: bool)
        ensures
            r == (self.shift || self.ctrl || self.alt),
    {
        self.shift || self.ctrl || self.alt
    }

    /// Check if no modifier is pressed.
    pub fn none(&self) -> (r: bool)
        ensures
            r == !(self.shift || self.ctrl || self.alt),
    {
        !self.any()
    }
}

} // verus!
