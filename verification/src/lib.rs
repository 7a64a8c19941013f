//! The logic of a Modelica diagram canvas: scene projection, routing, edit
//! operations, projection lifecycle, menus, overlays and camera moves.
//!
//! Drawing, file access and background tasks belong to the host application;
//! this crate decides what is drawn, edited and scheduled.

pub mod apply;
pub mod arrange;
pub mod camera;
pub mod classes;
pub mod color;
pub mod components;
pub mod coords;
pub mod decorations;
pub mod edge_view;
pub mod fixed;
pub mod framing;
pub mod geometry;
pub mod highlight;
pub mod icon_cache;
pub mod icon_view;
pub mod inputs;
pub mod lifecycle;
pub mod live;
pub mod loads;
pub mod menus;
pub mod model;
pub mod ops;
pub mod overlay;
pub mod palette;
pub mod panel;
pub mod project;
pub mod pulse;
pub mod recover;
pub mod scene;
pub mod source_slice;
pub mod state;
pub mod text;
pub mod units;
