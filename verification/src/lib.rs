//! Annotation and history engine for a screenshot editor.
//!
//! The engine keeps an in-memory RGBA image (`Canvas`), rasterizes the
//! annotation tools (freehand strokes, shapes, arrows, highlighting,
//! content-restoring erasing, text sessions) onto it, and tracks edit
//! history as losslessly compressed snapshots with undo/redo and crop
//! lineage bookkeeping.

pub mod canvas;
pub mod commands;
pub mod codec;
pub mod history;
pub mod raster;
pub mod text;
pub mod paint;
