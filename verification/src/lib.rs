//! Atomic save and load of an entity store.
//!
//! A [`Store`] holds entities, each with a set of typed components. A save captures the
//! entities marked [`Save`] into a detached [`Scene`]; a load clears every entity marked
//! [`Save`] or [`Unload`], re-creates the entities of a scene under fresh identities and
//! keeps the old-index-to-new-entity mapping in [`Loaded`] until references are mended.

pub mod entity;
pub mod fixup;
pub mod laws;
pub mod load;
pub mod loaded;
pub mod plugin;
pub mod request;
pub mod save;
pub mod store;

pub use entity::{Component, Entity};
pub use fixup::{finish_load, fix_references, FromLoaded, IntegrityFault};
pub use load::{despawn_recursive, load, load_world, read_failed, unload_world, LoadError};
pub use loaded::Loaded;
pub use plugin::{LoadWorld, RegisterLoaded, SavePlugin, SaveWorld};
pub use request::{should_load, should_save, Request, SaveMode, SaveStage};
pub use save::{save, save_world, select, SaveJob, Scene, SceneEntity};
pub use store::{LoadState, Meta, Save, Store, Unload};
