//! Client library for the Garmin R10 launch monitor: MultiLink routing,
//! COBS framing, CRC-16/ARC, GFDI frames, the Smart protobuf container, the
//! poll-based client, and the decisions behind the BlueZ transport and the
//! FRP device adapter.

pub mod bluez;
pub mod client;
pub mod cobs;
pub mod crc;
pub mod error;
pub mod frp;
pub mod gfdi;
pub mod ident;
pub mod multilink;
pub mod pb;
pub mod proto;
mod text;

pub use client::{Client, Event, Transport};
pub use error::Error;
pub use proto::ShotData;
