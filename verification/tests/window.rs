use rein::window::event::{Key, Modifiers, MouseButton, NamedKey};
use rein::window::frame_io::{Cursor, FrameOutput, ResizeEdge, Viewport, WindowCommand};
use rein::window::settings::WindowSettings;
use rein::window::Window;

#[test]
fn settings_defaults_and_builders() {
    let s = WindowSettings::new();
    assert_eq!(s.title, "rein");
    assert_eq!(s.size, (1280, 720));
    assert!(s.resizable && s.vsync && !s.maximized && !s.fullscreen);
    let d = WindowSettings::default();
    assert_eq!(d.title, s.title);

    let t = WindowSettings::new()
        .title("viewer")
        .size(640, 480)
        .resizable(false)
        .vsync(false)
        .maximized(true)
        .fullscreen(true);
    assert_eq!(t.title, "viewer");
    assert_eq!(t.size, (640, 480));
    assert!(!t.resizable && !t.vsync && t.maximized && t.fullscreen);
    let u = t.clone().title(String::from("other"));
    assert_eq!(u.title, "other");
    assert_eq!(u.size, (640, 480));

    let w = Window::new(t).unwrap();
    assert_eq!(w.settings().title, "viewer");
}

#[test]
fn keys_from_text_and_named_keys() {
    assert_eq!(Key::from_char('a'), Some(Key::A));
    assert_eq!(Key::from_char('Q'), Some(Key::Q));
    assert_eq!(Key::from_char('7'), Some(Key::Key7));
    assert_eq!(Key::from_char('-'), None);
    assert_eq!(Key::from_char('é'), None);
    assert_eq!(Key::from_text("Zebra"), Some(Key::Z));
    assert_eq!(Key::from_text(""), None);
    assert_eq!(Key::from_named(NamedKey::ArrowUp), Key::Up);
    assert_eq!(Key::from_named(NamedKey::Control), Key::Control);
    assert_eq!(Key::from_named(NamedKey::F12), Key::F12);
    assert_ne!(MouseButton::Left, MouseButton::Right);
}

#[test]
fn modifiers_any_and_none() {
    let m = Modifiers::default();
    assert!(!m.any() && m.none());
    let s = Modifiers { shift: true, ctrl: false, alt: false };
    assert!(s.any() && !s.none());
    let a = Modifiers { shift: false, ctrl: false, alt: true };
    assert!(a.any());
}

#[test]
fn frame_output_and_resize_cursors() {
    let o = FrameOutput::new();
    assert!(!o.exit && o.window.is_empty() && o.cursor.is_none());
    let e = FrameOutput::exit();
    assert!(e.exit);
    let c = FrameOutput::new()
        .with_command(WindowCommand::DragMove)
        .with_command(WindowCommand::DragResize(ResizeEdge::East))
        .with_cursor(Cursor::EwResize);
    assert_eq!(c.window, vec![WindowCommand::DragMove, WindowCommand::DragResize(ResizeEdge::East)]);
    assert_eq!(c.cursor, Some(Cursor::EwResize));
    assert!(!c.exit);
    assert_eq!(ResizeEdge::North.cursor(), Cursor::NsResize);
    assert_eq!(ResizeEdge::West.cursor(), Cursor::EwResize);
    assert_eq!(ResizeEdge::SouthWest.cursor(), Cursor::NeswResize);
    assert_eq!(ResizeEdge::NorthWest.cursor(), Cursor::NwseResize);
    let v = Viewport { x: 0, y: 0, width: 8, height: 6 };
    assert_eq!(v.width * v.height, 48);
}
