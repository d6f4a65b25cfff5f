//! Execution core of a layer-graph neural-network engine.
//!
//! A network is described declaratively: a list of named external inputs with
//! their shapes, followed by an ordered list of layer configurations.  The
//! builder wires that description into a concrete pipeline — resolving every
//! named buffer connection through a registry, inferring output buffers,
//! computing backward-skip flags, and aliasing shared weights — and the
//! resulting [`network::Network`] runs forward and backward passes over it.
//!
//! Buffers live in an arena of slots addressed by integer index; a buffer is
//! a pair of tensors (data, gradient) registered under a unique name.  All
//! numeric contents are integer scalars with wrapping arithmetic, and every
//! operation's effect is stated in its contract.

pub mod builder;
pub mod error;
pub mod laws;
pub mod layer;
pub mod math;
pub mod network;
pub mod solvers;
pub mod tensor;
pub mod weight;
