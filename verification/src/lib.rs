//! Decision logic of a kernel-level L2/L3/L4 packet filter: frame parsing,
//! per-source rate limiting with temporary bans, CIDR allow-lists and the
//! user-space controller that switches between normal and panic limits.

pub mod types;
pub mod packet;
pub mod lpm;
pub mod keys;
pub mod lru;
pub mod shield;
pub mod shield_laws;
pub mod control;
pub mod text;
pub mod procfs;
pub mod cidr;
pub mod events;
pub mod timestamp;
pub mod halt;
pub mod text_laws;
