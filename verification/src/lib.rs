//! The verified core of Vartalaap, a serverless, end-to-end-encrypted chat for
//! one local network.

pub mod answers;
pub mod arrivals;
pub mod blobs;
pub mod bridge;
pub mod bytes;
pub mod calls;
pub mod contact;
pub mod conversation;
pub mod convergence;
pub mod crypto;
pub mod delivery;
pub mod effects;
pub mod engine;
pub mod exchange;
pub mod frames;
pub mod hexid;
pub mod identity;
pub mod json;
pub mod keyed;
pub mod laws;
pub mod lifecycle;
pub mod links;
pub mod net;
pub mod node;
pub mod order;
pub mod outgoing;
pub mod persist;
pub mod protocol;
pub mod queries;
mod random;
pub mod ratchet;
pub mod reception;
pub mod secret;
pub mod sending;
pub mod startup;
pub mod state;
pub mod store;
pub mod sync;
pub mod transfer;
pub mod unambiguous;
