//! One-dimensional bin packing by the best-fit-decreasing heuristic.
//!
//! A [`Packing`] owns a fixed bin capacity. Its [`Packing::pack_items`]
//! operation sorts the given items largest first and fills one [`Bin`]
//! after another, scanning the remaining items from heaviest to lightest
//! and placing every item that still fits, until no items remain. The
//! result is pinned down exactly by a specification-level model of that
//! greedy procedure, and the contract further states that no item is
//! lost or duplicated, that no bin exceeds the capacity, and that no
//! sealed bin is empty.

mod items;
mod packing;
mod sorting;

pub use items::Bin;
pub use items::Item;
pub use items::PackError;
pub use packing::Packing;
