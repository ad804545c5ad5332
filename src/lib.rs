//! A retained-mode user-interface scene graph: relative layout resolved to
//! pixel rectangles, a handle-addressed node arena with dirty tracking, a
//! deterministic tree walk, window decoration, and a text shaper that packs
//! glyph quads into fixed-point vertex words.
use vstd::prelude::*;

pub mod chat;
pub mod config;
pub mod draw;
pub mod input;
pub mod logger;
pub mod stats;
pub mod terrain;
pub mod text;
pub mod ui;
