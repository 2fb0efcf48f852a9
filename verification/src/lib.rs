//! A bump allocator over growing chunks, and the decisions of the console
//! streams that sit beside it.
//!
//! [`arena`] is the allocator: fixed-capacity chunks, served front to back,
//! with a new chunk where the current one is full. [`history`] states what
//! holds of every sequence of allocations. [`io`] and [`types`] hold what a
//! buffered stream over the C library has to decide.

pub mod align;
pub mod arena;
pub mod chunk;
pub mod error;
pub mod history;
pub mod io;
pub mod layout;
pub mod types;
