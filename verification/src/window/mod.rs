//! Window configuration, input events and the per-frame exchange with the
//! render loop.
use vstd::prelude::*;

pub mod event;
pub mod frame_io;
pub mod settings;

use self::settings::WindowSettings;

verus! {

/// `anyhow::Error`, the error type of window creation, carried through opaquely.
#[verifier::external_type_specification]
#[verifier::external_body]
pub struct ExAnyhowError(anyhow::Error);

/// A window with GPU rendering context, described by its settings until the
/// render loop opens it.
pub struct Window {
    settings: WindowSettings,
}

impl Window {
    /// The settings the window opens with.
    pub closed spec fn configured(&self) -> WindowSettings {
        self.settings
    }

    /// Create a new window with the given settings.
    pub fn new(settings: WindowSettings) -> (r: Result<Self, anyhow::Error>)
        ensures
            r matches Ok(w) && w.configured() == settings,
    {
        Ok(Window { settings })
    }

    /// The settings the window opens with.
    pub fn settings(&self) -> (r: &WindowSettings)
        ensures
            *r == self.configured(),
    {
        &self.settings
    }
}

} // verus!
