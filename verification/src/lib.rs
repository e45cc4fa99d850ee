//! Verified core of an audio-reactive lighting pipeline: frame assembly,
//! channel splitting, onset bookkeeping and the byte-exact datagrams that are
//! streamed to light endpoints.

pub mod animation;
pub mod channels;
pub mod clock;
pub mod color;
pub mod config;
pub mod envelope;
pub mod filterbank;
pub mod framing;
pub mod hex;
pub mod hue;
pub mod onset;
pub mod polling;
pub mod serialize;
pub mod settings;
pub mod threshold;
pub mod wire;
pub mod wled;
