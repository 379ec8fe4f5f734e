//! Screen-to-LED ambient lighting core.
//!
//! The library captures the computational heart of an ambient lighting
//! pipeline: per-monitor frames are published into a last-frame store,
//! composited into one canvas spanning all monitors, reduced to one average
//! color per configured zone, and dispatched in ascending zone order to an
//! LED sink.  Everything here is pure computation over plain values; the
//! operating system capture facility, the network sink, the tray UI and the
//! config loader live outside and talk to this library through its public
//! functions.

pub mod canvas;
pub mod capture;
pub mod color;
pub mod compositor;
pub mod dispatch;
pub mod extractor;
pub mod frame_store;
pub mod geometry;
pub mod overlay;
