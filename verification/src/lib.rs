//! A dock engine: it keeps an ordered strip of application icons in step with
//! the windows that a window manager reports, with pinned favourites, drag
//! reordering, scrolling, hover selection and a fixed-point layout.

pub mod seqs;
pub mod geometry;
pub mod config;
pub mod layout;
pub mod scroll;
pub mod text;
pub mod types;
pub mod model;
pub mod laws;
pub mod dock;
pub mod events;
pub mod reconcile;
pub mod registry;
pub mod reorder;
pub mod hover;
pub mod drag;
pub mod activate;
pub mod pins;
pub mod icons;
pub mod ui;
pub mod persist;
