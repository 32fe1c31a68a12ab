//! Core of a video-and-telemetry gateway for LAN 3D printers: RTP and RTSP
//! wire parsing, H.264 depacketization, CMAF fragment and LL-HLS playlist
//! construction, printer command encoding and printer state projection.
//!
//! Everything here is pure computation on plain values. Sockets, files, timers
//! and tasks belong to the program that embeds this library.

pub mod access;
pub mod auth;
pub mod client;
pub mod cmaf;
pub mod commands;
pub mod depacketizer;
pub mod http;
pub mod json;
pub mod mp4;
pub mod numeral;
pub mod octets;
pub mod parser;
pub mod pipeline;
pub mod registry;
pub mod rtp;
pub mod sdp;
pub mod session;
pub mod sps;
pub mod state;
pub mod stream;
pub mod text;
pub mod time;
