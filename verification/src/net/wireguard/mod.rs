//! WireGuard tunnels.

pub mod primitives;
pub mod replay;
pub mod messages;
pub mod noise;
pub mod ip_packets;
pub mod rtattr;
pub mod config;
pub mod sessions;
pub mod routing;
pub mod state;
pub mod handshakes;
pub mod report;
pub mod tunnel;
pub mod tunnel_laws;
pub mod handshake_laws;
pub mod setup_laws;
