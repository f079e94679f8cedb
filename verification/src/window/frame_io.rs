//! What the render loop hands the frame callback and what the callback hands back.
use vstd::prelude::*;

verus! {

/// Viewport information (pixels).
#[derive(Debug, Clone, Copy, PartialEq, Eq, Structural)]
pub struct Viewport {
    pub x: u32,
    pub y: u32,
    pub width: u32,
    pub height: u32,
}

/// Mouse cursor shapes a frame can ask for.
#[derive(Debug, Clone, Copy, PartialEq, Eq, Hash, Structural)]
pub enum Cursor {
    /// Vertical resize (top / bottom edge).
    NsResize,
    /// Horizontal resize (left / right edge).
    EwResize,
    /// Diagonal resize along the north-east / south-west axis.
    NeswResize,
    /// Diagonal resize along the north-west / south-east axis.
    NwseResize,
}

/// Which window edge a client-side resize drag starts from.
#[derive(Debug, Clone, Copy, PartialEq, Eq, Hash, Structural)]
pub enum ResizeEdge {
    /// Top.
    North,
    /// Bottom.
    South,
    /// Right.
    East,
    /// Left.
    West,
    /// Top-right corner.
    NorthEast,
    /// Top-left corner.
    NorthWest,
    /// Bottom-right corner.
    SouthEast,
    /// Bottom-left corner.
    SouthWest,
}

impl ResizeEdge {
    /// The cursor shape for this edge: opposite edges and opposite corners share one.
    pub fn cursor(self) -> (r: Cursor)
        ensures
            r == match self {
                ResizeEdge::North | ResizeEdge::South => Cursor::NsResize,
                ResizeEdge::East | ResizeEdge::West => Cursor::EwResize,
                ResizeEdge::NorthEast | ResizeEdge::SouthWest => Cursor::NeswResize,
                ResizeEdge::NorthWest | ResizeEdge::SouthEast => Cursor::NwseResize,
            },
    {
        match self {
            ResizeEdge::North | ResizeEdge::South => Cursor::NsResize,
            ResizeEdge::East | ResizeEdge::West => Cursor::EwResize,
            ResizeEdge::NorthEast | ResizeEdge::SouthWest => Cursor::NeswResize,
            ResizeEdge::NorthWest | ResizeEdge::SouthEast => Cursor::NwseResize,
        }
    }
}

/// A window operation requested by the frame callback (client-side decorations).
#[derive(Debug, Clone, Copy, PartialEq, Eq, Structural)]
pub enum WindowCommand {
    /// Start a window move drag (call while the primary button is down).
    DragMove,
    /// Start a resize drag from `edge` (call while the primary button is down).
    DragResize(ResizeEdge),
    /// Minimize.
    Minimize,
    /// Maximize, or restore when already maximized.
    ToggleMaximize,
    /// Close the window (exits the loop).
    Close,
}

/// Output data from a frame.
#[derive(Debug)]
pub struct FrameOutput {
    /// Whether to exit the application.
    pub exit: bool,
    /// Window operations to perform after this frame.
    pub window: Vec<WindowCommand>,
    /// Cursor shape for the next frame (`None` = leave as is).
    pub cursor: Option<Cursor>,
}

impl Default for FrameOutput {
    fn default() -> (r: Self)
        ensures
            !r.exit,
            r.window@ == Seq::<WindowCommand>::empty(),
            r.cursor is None,
    {
        FrameOutput { exit: false, window: Vec::new(), cursor: None }
    }
}

impl FrameOutput {
    /// Create a new frame output that doesn't exit.
    pub fn new() -> (r: Self)
        ensures
            !r.exit,
            r.window@ == Seq::<WindowCommand>::empty(),
            r.cursor is None,
    {
        Self::default()
    }

    /// Create a frame output that exits the application.
    pub fn exit() -> (r: Self)
        ensures
            r.exit,
            r.window@ == Seq::<WindowCommand>::empty(),
            r.cursor is None,
    {
        FrameOutput { exit: true, ..Self::default() }
    }

    /// Queue a window command (after those already queued).
    pub fn with_command(self, command: WindowCommand) -> (r: Self)
        ensures
            r.exit == self.exit,
            r.window@ == self.window@.push(command),
            r.cursor == self.cursor,
    {
        let mut s = self;
        s.window.push(command);
        s
    }

    /// Set the cursor shape.
    pub fn with_cursor(self, cursor: Cursor) -> (r: Self)
        ensures
            r.exit == self.exit,
            r.window@ == self.window@,
            r.cursor == Some(cursor),
    {
        let mut s = self;
        s.cursor = Some(cursor);
        s
    }
}

} // verus!
