//! Export view-models: what templates see of the selected symbols, the
//! template registry, and the sidecar written next to every export.
pub mod hex;
pub mod view;
pub mod sidecar;
pub mod templates;
pub mod render;
