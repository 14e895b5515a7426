//! Core logic of a searchable, checkable list of "source" items.
//!
//! The library models an application state holding a master list of items,
//! a search string, a filtered view derived from the master list, and a
//! selection set of item identifiers. It verifies the two operations that
//! mutate that state — filtering the master list by substring search, and
//! synchronizing the selection set from the checked flags of the filtered
//! view — together with the command dispatcher that routes signals to them.

pub mod delegate;
pub mod laws;
pub mod state;
pub mod strings;
