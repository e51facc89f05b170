//! Verified core of Recto, a post-processor for scanned book pages.
//!
//! The library holds the decisions the application makes about pages,
//! crop presets, rotations, previews and export, stated over plain
//! mathematical models and proved with Verus.

pub mod text;
pub mod types;
pub mod project;
pub mod presets;
pub mod arrange;
pub mod imaging;
pub mod latest;
pub mod panes;
pub mod handles;
pub mod session;
pub mod export;
pub mod chips;
pub mod detect;
