//! Verified planning core of a cross-compilation sysroot builder.
//!
//! The library computes every decision the pipeline makes — which crates to
//! build, whether the cached source tree is stale, where each artifact and
//! mirrored file must land — as plain, verified functions over strings and
//! paths.  The surrounding binary performs the network, filesystem and
//! subprocess work that these plans call for.

pub mod builder;
pub mod cache;
pub mod config;
pub mod date;
pub mod link;
pub mod strutil;
