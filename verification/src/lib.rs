//! Verified core of a comic-archive packager.
//!
//! The library turns a source tree of titles, chapters and page files into
//! one archive per chapter plus a metadata record per title.  Everything
//! that decides or computes lives here with a contract; directory walking,
//! file reading and writing, and the progress display are left to the
//! surrounding application, which hands this crate plain values.

pub mod archive;
pub mod details;
pub mod json;
pub mod naming;
pub mod pipeline;
pub mod progress;
pub mod reconcile;
