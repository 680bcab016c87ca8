//! Structure-aware navigation and rendering over a lossless syntax tree.
//!
//! The tree is an arena of nodes and tokens; tokens carry the literal text of
//! the document, in stream order, so that concatenating them reproduces the
//! source exactly. On top of the tree the crate offers line/offset lookups,
//! a directional cursor navigator that always lands on a selectable token,
//! a styled line renderer, and a small metadata extractor for Kubernetes
//! manifests.

pub mod tree;
pub mod walk;
pub mod nav;
pub mod render;
pub mod api;
pub mod kube;
pub mod ui;
pub mod viewport;
pub mod config;
