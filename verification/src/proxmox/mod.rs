//! The Proxmox VE provider.
//!
//! Everything Proxmox-shaped lives behind this module: numeric machine
//! identifiers and the range reaper may touch, resource pools, asynchronous
//! task handles, API token authentication and TLS policy.
pub mod api;
pub mod cluster;
pub mod config;
pub mod diagnose;
pub mod disks;
pub mod http;
pub mod ids;
pub mod laws;
pub mod machines;
pub mod names;
pub mod ops;
pub mod room;
pub mod tags;
pub mod tasks;
