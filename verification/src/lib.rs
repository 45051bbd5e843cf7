//! Arithmetization layer of a zero-knowledge virtual machine.
//!
//! This crate turns a record of machine-execution events into row-major
//! tables of field-element values (traces) together with the polynomial
//! constraints a valid trace must satisfy, and it normalizes the *shape*
//! (padded row counts) of those tables so that proofs over them are
//! recursively verifiable by a fixed circuit.

pub mod builder;
pub mod event;
pub mod field;
pub mod field_ops;
pub mod record;
pub mod shape;
pub mod trace;
