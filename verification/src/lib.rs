//! FluxPlay core logic: catalog merging, browse indexing, host capability
//! parsing, progress meters and the small state machines behind the player UI.

mod text;

pub use text::{chars_of, string_of};
pub mod jobs;
pub mod icons;
pub mod browse;
pub mod decimal;
pub mod display;
pub mod gpu;
pub mod catalog;
pub mod sources;
pub mod android;
pub mod art;
pub mod laws;
pub mod purpose_laws;
pub mod spine_laws;
pub mod playback;
pub mod nav;
pub mod actions;
