use vstd::prelude::*;

verus! {

/// Settings for creating a window.
#[derive(Debug)]
pub struct WindowSettings {
    /// Window title.
    pub title: String,
    /// Initial window size (width, height) in logical pixels.
    pub size: (u32, u32),
    /// Whether the window is resizable.
    pub resizable: bool,
    /// Whether to enable vsync.
    pub vsync: bool,
    /// Whether to start maximized.
    pub maximized: bool,
    /// Whether to start in fullscreen.
    pub fullscreen: bool,
}

impl Clone for WindowSettings {
    fn clone(&self) -> (r: Self)
        ensures
            r == *self,
    {
        WindowSettings {
            title: self.title.clone(),
            size: self.size,
            resizable: self.resizable,
            vsync: self.vsync,
            maximized: self.maximized,
            fullscreen: self.fullscreen,
        }
    }
}

impl WindowSettings {
    /// The default configuration: titled "rein", 1280 x 720, resizable, vsync on,
    /// neither maximized nor fullscreen.
    pub open spec fn is_default(self) -> bool {
        &&& self.title@ == "rein"@
        &&& self.size == (1280u32, 720u32)
        &&& self.resizable
        &&& self.vsync
        &&& !self.maximized
        &&& !self.fullscreen
    }

    /// `self` equals `other` except possibly for the title.
    pub open spec fn same_but_title(self, other: Self) -> bool {
        &&& self.size == other.size
        &&& self.resizable == other.resizable
        &&& self.vsync == other.vsync
        &&& self.maximized == other.maximized
        &&& self.fullscreen == other.fullscreen
    }

    /// Create new window settings with default values.
    pub fn new() -> (r: Self)
        ensures
            r.is_default(),
    {
        Self::default()
    }

    /// Set the window title.
    pub fn title<T: Into<String>>(self, title: T) -> (r: Self)
        ensures
            call_ensures(<T as Into<String>>::into, (title,), r.title),
            r.same_but_title(self),
    {
        let mut s = self;
        s.title = title.into();
        s
    }

    /// Set the initial window size.
    pub fn size(self, width: u32, height: u32) -> (r: Self)
        ensures
            r == (WindowSettings { size: (width, height), ..self }),
    {
        let mut s = self;
        s.size = (width, height);
        s
    }

    /// Set whether the window is resizable.
    pub fn resizable(self, resizable: bool) -> (r: Self)
        ensures
            r == (WindowSettings { resizable, ..self }),
    {
        let mut s = self;
        s.resizable = resizable;
        s
    }

    /// Set whether to enable vsync.
    pub fn vsync(self, vsync: bool) -> (r: Self)
        ensures
            r == (WindowSettings { vsync, ..self }),
    {
        let mut s = self;
        s.vsync = vsync;
        s
    }

    /// Set whether to start maximized.
    pub fn maximized(self, maximized: bool) -> (r: Self)
        ensures
            r == (WindowSettings { maximized, ..self }),
    {
        let mut s = self;
        s.maximized = maximized;
        s
    }

    /// Set whether to start in fullscreen.
    pub fn fullscreen(self, fullscreen: bool) -> (r: Self)
        ensures
            r == (WindowSettings { fullscreen, ..self }),
    {
        let mut s = self;
        s.fullscreen = fullscreen;
        s
    }
}

impl Default for WindowSettings {
    fn default() -> (r: Self)
        ensures
            r.is_default(),
    {
        WindowSettings {
            title: "rein".to_owned(),
            size: (1280, 720),
            resizable: true,
            vsync: true,
            maximized: false,
            fullscreen: false,
        }
    }
}

} // verus!
