//! Shared renderer plumbing and the renderers themselves.
pub mod rows;
pub mod html;
pub mod md;
pub mod table;
pub mod map;
pub mod timeline;
pub mod dashboard;
pub mod insights;
pub mod explain;
pub mod ai_summary;
pub mod chart;
