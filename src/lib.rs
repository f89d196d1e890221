//! Core of a retained-mode drawing surface: shapes with hit testing and
//! bounding boxes, a scene with id allocation, selection and clipboard, an
//! undo/redo log, a pan/zoom camera and SVG export.
//!
//! All geometry is on integers, so that every comparison is exact. World
//! positions are whole units (one screen pixel at zoom 1); screen positions
//! and pan offsets are thousandths of a pixel; the zoom is in thousandths
//! (1000 is 1.0). Distances are compared through their squares.
pub mod geometry;
pub mod element;
pub mod camera;
pub mod history;
pub mod canvas;
pub mod svg;
pub mod laws;
