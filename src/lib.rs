//! Provisioning of a portable runtime: release selection, platform naming,
//! archive layout and the install decisions of the runtime and module handles.

pub mod version;
pub mod platform;
pub mod archive;
pub mod node;
