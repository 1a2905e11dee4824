//! Scheduling for a multi-pass renderer.
//!
//! A renderer declares its passes once: what each pass renders to, and what
//! it reads from the passes before it. This crate checks such a list,
//! decides for every frame which attachments and pipelines are needed, hands
//! out cached ones where it can, and records what is to be drawn, pass by
//! pass. It touches no device: images, buffers, pipelines and binding sets
//! are known here by their identities only, and the caller keeps the device
//! objects that belong to them.
//!
//! - [`graph`]: pass descriptors and the rules for a list of passes.
//! - [`image`]: attachments and the allocator that caches them.
//! - [`pipeline_cache`] and [`binding_cache`]: pipelines and binding sets,
//!   each built once for each distinct key ([`keyed`]).
//! - [`frame`] and [`schedule`]: what a frame draws and what is recorded
//!   for it.
//! - [`system`]: the passes together with their caches, and `render_frame`.
//! - [`driver`]: the steps of the frame loop and the frame statistics.
//! - [`mesh`], [`paths`], [`tag_map`]: meshes, asset paths, and maps keyed
//!   by tags.

pub mod binding_cache;
pub mod driver;
pub mod frame;
pub mod graph;
pub mod image;
pub mod keyed;
pub mod mesh;
pub mod paths;
pub mod pipeline_cache;
pub mod schedule;
pub mod system;
pub mod tag_map;
