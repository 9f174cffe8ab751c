//! Verified core of a streaming timeline renderer.
//!
//! Events arrive as lines of text, become rectangles positioned relative to
//! a fixed origin, wait in a queue, and are packed once per frame into
//! growable device buffers. This crate decides *what* the device is asked to
//! do (which buffer is created, written or regrown, at which byte offsets,
//! in which order) and proves that those decisions never lose data; a thin
//! shell outside the crate owns the device and carries the decisions out.
//!
//! - [`ingest`] reads events from a body of text.
//! - [`binary32`] turns integers into the floating-point patterns that the
//!   device reads, [`gpu_data`] turns events into draw primitives and
//!   primitives into batches of words, and [`bytes`] turns words into the
//!   bytes they occupy.
//! - [`device_buffer`] keeps the books of one growable buffer, and
//!   [`gpu_resources`] those of all resources and of their lifecycle.
//! - [`command`] is the vocabulary in which the device is addressed.
//! - [`my_app`] ties these together with [`data`], [`camera`] and
//!   [`input_manager`] into start-up and frame.

pub mod binary32;
pub mod bytes;
pub mod camera;
pub mod command;
pub mod data;
pub mod device_buffer;
pub mod event;
pub mod gpu_data;
pub mod gpu_resources;
pub mod ingest;
pub mod input_manager;
pub mod my_app;
