//! Verified core of the `presentation` renderer.
pub mod text;
pub mod json;
pub mod render;
pub mod strmap;
pub mod protocol;
pub mod registry;
pub mod mode;
pub mod export;
pub mod term;
pub mod session;
