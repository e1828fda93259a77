//! Verified core of the SVG integration of a Vello renderer for Bevy.
//!
//! The library decides what the engine-facing glue does: how SVG bytes become a
//! parsed document, which named groups of a document become layers, in which
//! order a group's content is drawn and layered, how an anchor places an asset
//! and its bounding box, which entities are extracted for rendering, and when
//! per-entity render images are (re)created or (re)rendered.  Floating-point
//! geometry and GPU work stay with the caller.

pub mod aabb_updates;
pub mod anchor;
pub mod asset_key;
pub mod extract;
pub mod parse;
pub mod render_cache;
pub mod render_images;
pub mod render_plan;
pub mod svg_tree;
