pub mod atlas;
pub mod buffer;
pub mod encode;
pub mod shape;
