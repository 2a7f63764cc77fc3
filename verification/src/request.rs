//! Requests to save or load, and the phases in which they are served.

use vstd::prelude::*;

verus! {

/// The three phases that this library adds to a tick.
#[derive(Clone, Copy, Debug, PartialEq, Eq, Structural)]
pub enum SaveStage {
    /// Runs after all ordinary logic of the tick; the store is saved here.
    Save,
    /// Runs before any ordinary logic of the tick; the store is loaded here.
    Load,
    /// Runs right after [`SaveStage::Load`]; references are mended here.
    PostLoad,
}

/// Which entities a save captures.
#[derive(Clone, Copy, Debug, PartialEq, Eq, Structural)]
pub enum SaveMode {
    /// The entities marked for saving.
    Filtered,
    /// Every entity. Meant for diagnostics: loading such a file may duplicate entities.
    Dump,
}

/// A pending intent to save or to load. At most one exists at a time.
#[derive(Debug)]
pub enum Request {
    Save { path: String, mode: SaveMode },
    Load { path: String },
}

impl Request {
    /// Whether this asks for a save.
    pub fn should_save(&self) -> (yes: bool)
        ensures
            yes == (self is Save),
    {
        match self {
            Request::Save { .. } => true,
            Request::Load { .. } => false,
        }
    }

    /// Whether this asks for a load.
    pub fn should_load(&self) -> (yes: bool)
        ensures
            yes == (self is Load),
    {
        match self {
            Request::Save { .. } => false,
            Request::Load { .. } => true,
        }
    }
}

/// Whether the save phase has work: a request is pending and it asks for a save.
pub fn should_save(request: Option<&Request>) -> (yes: bool)
    ensures
        yes == (request is Some && request->0 is Save),
{
    match request {
        Some(request) => request.should_save(),
        None => false,
    }
}

/// Whether the load phases have work: a request is pending and it asks for a load.
pub fn should_load(request: Option<&Request>) -> (yes: bool)
    ensures
        yes == (request is Some && request->0 is Load),
{
    match request {
        Some(request) => request.should_load(),
        None => false,
    }
}

} // verus!
