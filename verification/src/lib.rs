//! A reactive value store: an arena of addressable slots in which some slots
//! hold plain data and others hold formulas, cached results that are
//! recomputed and re-propagated whenever a slot they read from changes.
//!
//! * [`pointer`], [`value`], [`entry`]: the handles, the values and the
//!   per-slot records.
//! * [`heap`]: the arena that owns the records, with generational pointers.
//! * [`edges`], [`store`]: dependency edges and renderer bindings of single
//!   slots, and reading.
//! * [`recompute`], [`pass`], [`propagate`]: taking in the result of an
//!   evaluation, one propagation pass step by step, and writing with the pass
//!   that follows.
//! * [`arena_laws`], [`graph_laws`], [`pass_laws`]: what holds of all of
//!   this together.
//!
//! The closure registry is not part of the store. Wherever a formula has to
//! be evaluated, the caller hands in the function that does it, and every
//! guarantee holds whatever that function returns.

pub mod arena_laws;
pub mod edges;
pub mod entry;
pub mod graph_laws;
pub mod heap;
pub mod pass;
pub mod pass_laws;
pub mod pointer;
pub mod propagate;
pub mod recompute;
pub mod store;
pub mod value;
