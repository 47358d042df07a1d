//! A sticky-notes core library: an in-memory note registry, a JSON snapshot
//! codec for persistence, and the pure decision logic behind the per-note
//! window lifecycle (stacking levels, centered placement, media files).

pub mod codec;
pub mod color;
pub mod commands;
pub mod host;
pub mod media;
pub mod note;
pub mod paths;
pub mod registry;
pub mod storage;
pub mod text;
pub mod window;
