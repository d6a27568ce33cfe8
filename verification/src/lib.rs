//! Entrypoints and allocators for Solana programs.
//!
//! - [`entrypoint`] deserializes what the loader passes to a program and has
//!   the instruction processed; [`entrypoint::inline`] is the entrypoint for
//!   programs that choose how many accounts they want.
//! - [`allocator`] manages the program heap.
//! - [`error`] turns the result of a program into the code that the runtime is
//!   given.
//! - [`account`], [`bytes`] and [`align`] hold what these are made of.
//! - [`serialized`] describes the input of a program as the loader builds it,
//!   with the laws that relate it to what the entrypoints find there.

pub mod account;
pub mod align;
pub mod allocator;
pub mod bytes;
pub mod entrypoint;
pub mod error;
pub mod serialized;
