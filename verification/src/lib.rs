//! An ephemeral test-machine harness.

pub mod address;
pub mod config;
pub mod decode;
pub mod dict;
pub mod duration;
pub mod job;
pub mod json;
pub mod manifest;
pub mod paths;
pub mod proc;
pub mod provider;
pub mod proxmox;
pub mod registry;
pub mod scan;
pub mod session;
pub mod sync;
pub mod text;
pub mod time;
pub mod transport;
pub mod verbs;
