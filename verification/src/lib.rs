//! Outline extraction and split orchestration for vector drawings.
//!
//! A geometry engine turns a drawing into polygons and cuts a compound
//! polygon into its islands. This library holds everything around that
//! engine that can be reasoned about: the value model of an outline with its
//! bounding box, and the protocol that decides, reply by reply, which engine
//! operation comes next, which handles are still owned, and what the caller
//! finally gets.

pub mod engine;
pub mod outline;
pub mod pipeline;
pub mod run;
