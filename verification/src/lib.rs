//! An adapter between the zkInterface statement format and a rank-1
//! constraint system for a proving engine, with a bridge for calling
//! gadgets and a chunker for outgoing constraints.

pub mod error;
pub mod export;
pub mod field;
pub mod gadget;
pub mod host;
pub mod import;
pub mod registry;
pub mod wire;
pub mod zkif_backend;
pub mod zkif_cs;
