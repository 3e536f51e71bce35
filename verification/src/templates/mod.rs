//! What the page templates are given.
pub mod registry;

pub use registry::{FlashMessagePresentation, GlobalContext};
