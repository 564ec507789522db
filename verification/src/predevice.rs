//! What the user asked for, before any device exists.

use vstd::prelude::*;
use crate::event::Domain;

verus! {

/// Whether an input device is captured, so that no other reader sees its
/// events.
#[derive(PartialEq, Eq, Structural, Clone, Copy, Debug)]
pub enum GrabMode {
    /// Never grab.
    Never,
    /// Grab at once, and at every poll until it succeeds.
    Force,
    /// Grab as soon as no key of the device is pressed.
    Auto,
}

/// What becomes of an input device that breaks.
#[derive(PartialEq, Eq, Structural, Clone, Copy, Debug)]
pub enum PersistMode {
    /// It is given up.
    Forget,
    /// It is opened again when it comes back.
    Reopen,
}

/// An input device that is to be opened.
#[derive(Debug)]
pub struct PreInputDevice {
    pub path: String,
    pub domain: Domain,
    pub grab_mode: GrabMode,
    pub persist_mode: PersistMode,
}

/// An output device that is to be created. It receives the events of its
/// domain.
#[derive(PartialEq, Eq, Structural, Clone, Copy, Debug)]
pub struct PreOutputDevice {
    pub domain: Domain,
}

} // verus!
