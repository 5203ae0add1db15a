//! The logic of a window picker: a live grid of window and display previews,
//! laid out as a layer-shell overlay, that reports which one was picked.
//!
//! - [`words`]: text as sequences of characters, and numbers written in them
//! - [`theme`]: colours, rectangles, and where every element of the grid goes
//! - [`shm`]: the painter, and the buffers it paints into
//! - [`target`]: what a tile stands for, and how a pick is reported
//! - [`config`], [`cli`]: the settings, from the file and from the flags
//! - [`sway`]: the window list and the displays
//! - [`start`]: what a run comes to before anything is on screen
//! - [`text`]: which font the labels are drawn in, and how they are shortened
//! - [`capture`]: which tiles are captured, into which buffers
//! - [`app`], [`overlay`]: the state of the overlay, and how it answers input
//!
//! Everything that talks to the compositor, to sway or to the file system lives
//! outside this crate and hands plain values in.

pub mod app;
pub mod capture;
pub mod cli;
pub mod config;
pub mod overlay;
pub mod shm;
pub mod start;
pub mod sway;
pub mod target;
pub mod text;
pub mod theme;
pub mod words;
