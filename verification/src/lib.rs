//! Raster annotation engine for a screenshot capture-and-edit tool.
//!
//! The library covers the parts of such a tool whose behaviour is exact and
//! observable at the pixel level:
//!
//! - a shape rasterizer turning two corner points, a thickness and a fill flag
//!   into the set of integer pixel coordinates a shape occupies;
//! - a pixel-buffer compositor applying a packed RGBA colour to those
//!   coordinates while keeping an undo history, and an eraser restoring it;
//! - a freehand stroke controller chaining pointer samples into segments;
//! - an area calculator normalizing two arbitrary corner points into a
//!   clamped rectangle shared by capture and crop;
//! - the tool-session data model: view and edit states, options, and the
//!   shortcut table.
//!
//! Window chrome, menus, dialogs, clipboard, file persistence and the OS
//! screen-capture call stay outside: they hand the engine a ready RGBA buffer
//! of known width and height and plain coordinate values.

pub mod area;
pub mod canvas;
pub mod draw;
pub mod rasterizer;
pub mod session;
pub mod shortcuts;
pub mod stroke;
pub mod transform;
