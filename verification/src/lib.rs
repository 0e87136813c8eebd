//! A fine-grained reactive runtime: observable state cells notify the
//! computations that read them, across synchronous effects and asynchronous
//! tasks.
//!
//! The runtime state is held in explicit, handle-addressed arenas rather than
//! in process-global mutable cells: a [`notify`] channel table for wake
//! events, an ownership [`arena`] for scoped disposal, an [`observer`] graph
//! for dependency tracking, and the asynchronous derived-state machinery in
//! [`async_state`] and [`scoped`].
//!
//! Around that core stands the skeleton the view layer builds with: the
//! [`node_tree`] of spawned nodes, [`context`] provision and lookup along
//! its parent chains, and [`element`] construction with its members
//! ([`view_member`], [`into_view_member`]).

pub mod arena;
pub mod async_state;
pub mod context;
pub mod element;
pub mod into_view_member;
pub mod node_tree;
pub mod notify;
pub mod observer;
pub mod scoped;
pub mod view_member;
