//! The logic of a scrolling screenshot tool for Wayland compositors.
//!
//! The user selects a region of the screen and scrolls what it shows; the tool
//! captures frames of the region and stitches them into one long image.  This
//! library decides when to capture, what the compositor's answers mean, how
//! frames are joined, what the windows show, and where the image is saved.
//! It performs no input and output of its own.
//!
//! * [`selector`]: selecting a region, and marking it.
//! * [`input`]: which events of the scroll wheel count.
//! * [`capture`]: asking the compositor for a frame.
//! * [`stitch`]: joining frames.
//! * [`worker`]: when to capture, and what to report.
//! * [`overlay`], [`preview`], [`button`], [`gui`]: what the preview shows, and
//!   what the pointer does in it.
//! * [`export`]: what is saved, and under which name.
//! * [`pixels`], [`label`], [`text`], [`types`]: drawing, text and shared data.

pub mod button;
pub mod capture;
pub mod export;
pub mod gui;
pub mod input;
pub mod label;
pub mod overlay;
pub mod pixels;
pub mod preview;
pub mod selector;
pub mod stitch;
pub mod text;
pub mod types;
pub mod worker;
