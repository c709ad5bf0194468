//! Constraint compiler for a STARK-style proof system.
//!
//! The crate turns a Polynomial Identity Language (PIL) program — a table of
//! algebraic expressions over committed, constant and public columns together
//! with lookup-style identities — into the compiled artifacts an execution
//! backend consumes: ordered sequences of elementary field operations
//! ([`codegen::Segment`]), the protocol metadata object
//! ([`starkinfo::StarkInfo`]) and the bundle of compiled programs
//! ([`starkinfo::Program`]).
//!
//! Field arithmetic, FFTs, hashing and the numeric side of the low-degree
//! test are external collaborators: this crate only decides which operations
//! run, in which order, over which temporaries, and where every polynomial's
//! values live in memory.

pub mod codegen;
pub mod errors;
pub mod expression;
pub mod layout;
pub mod rewrite;
pub mod starkinfo;
pub mod types;
