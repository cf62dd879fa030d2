//! Realm orchestration: per-zone address allocation, launch descriptors,
//! the decisions of the host service-manager bridge, the realm manager's
//! lifecycle and events, and the control boundary's requests and
//! notifications; also the pure parts of kernel, image and early-boot
//! handling.

pub mod text;
pub mod network;
pub mod realm;
pub mod launcher;
pub mod systemd;
pub mod manager;
pub mod dbus;
pub mod kernel;
pub mod update;
pub mod boot;
