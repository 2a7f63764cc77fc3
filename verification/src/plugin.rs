//! The trigger interface, the registrations and the order of the phases.

use vstd::prelude::*;
use crate::entity::holds_kind;
use crate::request::{should_load, should_save, Request, SaveMode, SaveStage};
use crate::store::{lemma_same_slots_wf, Store};

verus! {

/// Asking for a save. The request waits in the single request slot for the save phase and
/// replaces whatever request was pending.
pub trait SaveWorld {
    /// The pending request.
    spec fn pending(&self) -> Option<Request>;

    /// Asks for the entities marked to be saved to be written to `path`.
    fn save(&mut self, path: String)
        ensures
            final(self).pending() == Some(Request::Save { path, mode: SaveMode::Filtered }),
    ;

    /// Asks for every entity to be written to `path`, for inspection.
    fn dump(&mut self, path: String)
        ensures
            final(self).pending() == Some(Request::Save { path, mode: SaveMode::Dump }),
    ;
}

/// Asking for a load. The request waits in the single request slot for the load phase
/// and replaces whatever request was pending.
pub trait LoadWorld {
    /// The pending request.
    spec fn awaited(&self) -> Option<Request>;

    /// Asks for the scene in the file at `path` to be loaded.
    fn load(&mut self, path: String)
        ensures
            final(self).awaited() == Some(Request::Load { path }),
    ;
}

/// Registering the kinds of component whose reference is mended after a load.
pub trait RegisterLoaded {
    /// The kinds registered so far.
    spec fn mending(&self) -> Seq<u32>;

    /// Registers `kind`, unless it is registered already.
    fn register_loaded(&mut self, kind: u32)
        ensures
            final(self).mending() == (if old(self).mending().contains(kind) {
                old(self).mending()
            } else {
                old(self).mending().push(kind)
            }),
    ;
}

impl SaveWorld for Store {
    open spec fn pending(&self) -> Option<Request> {
        self.request
    }

    fn save(&mut self, path: String)
        ensures
            final(self).meta == old(self).meta,
            final(self).components == old(self).components,
            final(self).serializable == old(self).serializable,
            final(self).fixup == old(self).fixup,
            final(self).loaded == old(self).loaded,
            final(self).state == old(self).state,
            old(self).wf() ==> final(self).wf(),
    {
        self.request = Some(Request::Save { path, mode: SaveMode::Filtered });
        proof {
            if old(self).wf() {
                lemma_same_slots_wf(*self, *old(self));
            }
        }
    }

    fn dump(&mut self, path: String)
        ensures
            final(self).meta == old(self).meta,
            final(self).components == old(self).components,
            final(self).serializable == old(self).serializable,
            final(self).fixup == old(self).fixup,
            final(self).loaded == old(self).loaded,
            final(self).state == old(self).state,
            old(self).wf() ==> final(self).wf(),
    {
        self.request = Some(Request::Save { path, mode: SaveMode::Dump });
        proof {
            if old(self).wf() {
                lemma_same_slots_wf(*self, *old(self));
            }
        }
    }
}

impl LoadWorld for Store {
    open spec fn awaited(&self) -> Option<Request> {
        self.request
    }

    fn load(&mut self, path: String)
        ensures
            final(self).meta == old(self).meta,
            final(self).components == old(self).components,
            final(self).serializable == old(self).serializable,
            final(self).fixup == old(self).fixup,
            final(self).loaded == old(self).loaded,
            final(self).state == old(self).state,
            old(self).wf() ==> final(self).wf(),
    {
        self.request = Some(Request::Load { path });
        proof {
            if old(self).wf() {
                lemma_same_slots_wf(*self, *old(self));
            }
        }
    }
}

impl RegisterLoaded for Store {
    open spec fn mending(&self) -> Seq<u32> {
        self.fixup@
    }

    fn register_loaded(&mut self, kind: u32)
        ensures
            final(self).meta == old(self).meta,
            final(self).components == old(self).components,
            final(self).serializable == old(self).serializable,
            final(self).request == old(self).request,
            final(self).loaded == old(self).loaded,
            final(self).state == old(self).state,
            old(self).wf() ==> final(self).wf(),
    {
        if !holds_kind(&self.fixup, kind) {
            self.fixup.push(kind);
        }
        proof {
            if old(self).wf() {
                lemma_same_slots_wf(*self, *old(self));
            }
        }
    }
}

/// Where ordinary logic stands in the order of a tick, on the scale of
/// [`SavePlugin::position`].
pub const ORDINARY_LOGIC: u8 = 2;

/// The order of the phases within a tick, and the condition under which each runs.
#[derive(Clone, Copy, Debug, Default)]
pub struct SavePlugin;

impl SavePlugin {
    /// The place of a phase in a tick: loading comes first, mending right after it,
    /// then ordinary logic, and saving last.
    pub open spec fn place(stage: SaveStage) -> u8 {
        match stage {
            SaveStage::Load => 0,
            SaveStage::PostLoad => 1,
            SaveStage::Save => 3,
        }
    }

    /// Whether a phase has work, given the pending request: the save phase with a save
    /// request, the two load phases with a load request.
    pub open spec fn due(stage: SaveStage, request: Option<Request>) -> bool {
        match stage {
            SaveStage::Save => request is Some && request->0 is Save,
            SaveStage::Load | SaveStage::PostLoad => request is Some && request->0 is Load,
        }
    }

    /// The place of a phase in a tick.
    pub fn position(stage: SaveStage) -> (at: u8)
        ensures
            at == SavePlugin::place(stage),
            at != ORDINARY_LOGIC,
            (at < ORDINARY_LOGIC) == (stage != SaveStage::Save),
    {
        match stage {
            SaveStage::Load => 0,
            SaveStage::PostLoad => 1,
            SaveStage::Save => 3,
        }
    }

    /// Whether a phase has work, given the pending request.
    pub fn runs(stage: SaveStage, request: Option<&Request>) -> (yes: bool)
        ensures
            yes == SavePlugin::due(
                stage,
                match request {
                    Some(r) => Some(*r),
                    None => None,
                },
            ),
    {
        match stage {
            SaveStage::Save => should_save(request),
            SaveStage::Load => should_load(request),
            SaveStage::PostLoad => should_load(request),
        }
    }

    /// The phases in the order in which a tick runs them.
    pub fn build(&self) -> (stages: Vec<SaveStage>)
        ensures
            stages@ == seq![SaveStage::Load, SaveStage::PostLoad, SaveStage::Save],
            forall|a: int, b: int|
                0 <= a < b < stages@.len() ==> SavePlugin::place(#[trigger] stages@[a])
                    < SavePlugin::place(#[trigger] stages@[b]),
    {
        let mut stages: Vec<SaveStage> = Vec::new();
        stages.push(SaveStage::Load);
        stages.push(SaveStage::PostLoad);
        stages.push(SaveStage::Save);
        assert(stages@ =~= seq![SaveStage::Load, SaveStage::PostLoad, SaveStage::Save]);
        stages
    }
}

} // verus!
