pub mod arena;
pub mod decorate;
pub mod element;
pub mod geom;
pub mod walk;
