//! Verified core of a desktop telemetry sidebar.
//!
//! The crate holds the sampling and history subsystem: fixed-capacity
//! circular history buffers, the hardware-monitor sensor tree with its
//! path-query accessor, fixed-point value parsing, per-metric samplers,
//! the wall-clock-aligned refresh scheduler, and the shared telemetry
//! snapshot that background pollers publish into.  I/O, window handling
//! and rendering live outside the crate and only hand plain values in.

pub mod bytes_format;
pub mod circlevec;
pub mod color;
pub mod milli;
pub mod ohw;
pub mod process;
pub mod samplers;
pub mod sched;
pub mod telemetry;
pub mod text;
pub mod timing;
