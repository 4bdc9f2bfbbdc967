//! Core engine of a multi-room chat backend: protocol types, the per-room
//! message feed, the per-room hub actor, and the room/user registries.
//!
//! The engine is a state machine over plain values. Transport, persistence
//! and the broadcast bus live outside; they hand commands and repository
//! results in and carry event parcels and persistence actions out.

pub mod user;
pub mod message;
pub mod feed;
pub mod outside;
pub mod room;
pub mod room_user;
pub mod proto;
pub mod hub;
pub mod room_storage;
pub mod user_storage;
pub mod laws;
