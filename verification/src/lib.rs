//! Verified core of a random video picker backed by a video search snapshot API.

pub mod api;
pub mod datetime;
pub mod logic;
pub mod share_state;
pub mod snapshot;
pub mod text;
