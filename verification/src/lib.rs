//! Verified client library for a video-surveillance host's shared-memory
//! monitor regions.
//!
//! The library resolves the host's in-memory layout from its textual
//! descriptor, offers typed positional access to the shared region through a
//! caller-supplied port, drives the host's trigger handshake, paces a
//! real-time analysis loop, and coalesces detection runs into per-event
//! summaries. All logic is verified; the operating-system edges (file,
//! socket, clock) stay behind small port traits implemented by the embedding
//! program.

pub mod conf;
pub mod detect;
pub mod events;
pub mod layout;
pub mod monitor;
pub mod pace;
pub mod pipeline;
pub mod ports;
pub mod shm;
pub mod stream;
pub mod text;
pub mod tracker;
pub mod vio;
pub mod zmtrigger;
pub mod zone;
