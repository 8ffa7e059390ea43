//! A tracker of the network flows of a host.
//!
//! Packets that are captured and readings of the system's socket table are fused into
//! one record for each flow. The record follows the TCP state of the flow, counts its
//! packets and bytes, names the process that owns it, and keeps what inspection of the
//! payload found. The flows are shown in the order in which they were first seen.
//!
//! Nothing here reads a clock, a file or a device: every time is handed in as a number of
//! milliseconds, every frame and every command output as bytes or text.

pub mod addr;
pub mod app;
pub mod network;
pub mod text;
