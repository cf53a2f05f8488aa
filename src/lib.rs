//! Recovery of an obfuscated game save and decoding of its inventory.
//!
//! The pipeline is: raw text, then [`cipher::decrypt`] (de-obfuscation and
//! syntax repair), then the structured-text parser, then the typed decoder
//! in [`save`], which yields a [`save::Save`].
pub mod text;
pub mod cipher;
pub mod scalar;
pub mod save;
pub mod document;

pub use cipher::{decrypt, try_decrypt};
pub use document::{load_save, load_text, LoadError};
pub use save::{
    ArtifactInventory, ConsumableInventory, DecodeError, DustInventory, Inventory,
    MaterialInventory, NetherstoneInventory, Node, Save, SpellgemInventory,
};
