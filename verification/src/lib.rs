//! Resource-pack loading: scanning a zip archive for a metadata document,
//! parsing it into a typed record, and reconciling background load results
//! into a screen state.

pub mod archive;
pub mod coordinator;
pub mod loader;
pub mod metadata;
pub mod names;
pub mod xml;
