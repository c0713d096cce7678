//! `pipewire-vircam`: virtual PipeWire cameras that are filled from your own code.
//!
//! This crate holds what a camera decides: what it advertises for a
//! [`Config`], how it answers a consumer, when the next frame is due, and how a dequeued
//! buffer becomes a [`Frame`](frame::Frame). The side that talks to PipeWire hands it plain
//! values and carries out what comes back.

pub mod advertise;
pub mod camera;
pub mod cli;
pub mod config;
pub mod error;
pub mod format;
pub mod frame;
pub mod history;
pub mod negotiate;
pub mod pacing;
pub mod pod;
pub mod red;
pub mod text;

pub use camera::{Camera, State};
pub use config::{Config, Mode};
pub use error::Error;
pub use format::Format;
pub use frame::{Frame, Plane};
pub use negotiate::Negotiated;
