//! Native-side support library for a desktop database-management
//! application: a window/database registry with session persistence,
//! a pure ISO-8601 timestamp formatter, JSON generation for the
//! persisted session and database metadata files, and planning of
//! on-disk database bundles.

pub mod bundle;
pub mod json;
pub mod registry;
pub mod session;
pub mod strings;
pub mod timestamp;
