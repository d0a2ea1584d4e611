//! Invitations to join a private network.
//!
//! A member of a network invites another peer to clone a shared
//! configuration, a recipe, and to join the private network that results.
//! The invitation is recorded as a link in a store that all peers share;
//! the invitee is told of it by a notification, finds it in a listing of
//! their own, and either side can retract it.
//!
//! The rules of the protocol are pure functions ([`protocol`],
//! [`invitation`], [`wire`], [`capability`]). The operations ([`zome`])
//! run them against a model of the store and of the network around it
//! ([`dht`], [`network`]), and [`laws`] states what holds of every
//! sequence of operations.

pub mod address;
pub mod bytemap;
pub mod bytes;
pub mod capability;
pub mod dht;
pub mod digest;
pub mod error;
pub mod framing;
pub mod invitation;
pub mod laws;
pub mod network;
pub mod protocol;
pub mod recipe;
pub mod view;
pub mod wire;
pub mod zome;
