//! Menu synchronization engine for a launcher menu served over a stateful
//! object-based IPC protocol.
//!
//! The library keeps three data structures mutually consistent: a per-name,
//! per-source-directory priority cache of launcher records, a category tree
//! with an item-id-to-properties store, and a stable bidirectional
//! name-to-item-id allocator.  Filesystem add/remove events are reconciled
//! into the tree; read queries (layout, properties) and activation requests
//! are answered from it.  Decoding of launcher files, icon rasterization,
//! process spawning, directory watching and the transport binding are
//! collaborators outside this crate: they hand plain values in and take
//! plain values out.

pub mod cache;
pub mod desktop;
pub mod ids;
pub mod layout;
pub mod menu;
pub mod paths;
pub mod strings;
pub mod taxonomy;
pub mod tree;
pub mod xdg;
