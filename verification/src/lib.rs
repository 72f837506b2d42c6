//! Photogrammetry primitives for drone structure-from-motion workflows.
//!
//! The crate holds the integer, byte and text logic of the pipeline: camera
//! model names, EXIF/XMP metadata decoding, FAST corner detection, BRIEF
//! descriptor construction and matching, sensor-bundle naming rules, dense
//! matching search windows and the bookkeeping of bundle adjustment.

pub mod text;
pub mod paths;
pub mod error;
pub mod camera;
pub mod features;
pub mod ingest;
pub mod fast;
pub mod brief;
pub mod dense;
pub mod alignment;
pub mod bundle;
pub mod graph;
pub mod loop_closure;
