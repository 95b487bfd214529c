//! The session verbs.
//!
//! A verb knows nothing about any hypervisor. It resolves what a tenant asked
//! for against what the sysadmin registered, and drives whatever provider the
//! site configuration selected. Here it decides; the doing is somebody else's,
//! one deed at a time.
pub mod collector;
pub mod common;
pub mod deeds;
pub mod doctor;
pub mod execute;
pub mod laws;
pub mod project;
pub mod sessions;
pub mod state;
pub mod up;
pub mod work;
