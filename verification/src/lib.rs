//! Verification of complaints about bad commits in a group with a ratchet tree.
//!
//! A member that cannot make use of a commit sends a [`nack::NackMsg`]. Any other member
//! verifies it with [`nack::NackMsg::verify`], and so learns whether the commit was bad.
pub mod codec;
mod constant_time;
pub mod laws;
pub mod message;
pub mod nack;
pub mod secret;
pub mod tree;
pub mod tree_math;
