//! Quicksort on slices, sequential and fork-join, with the in-place
//! partitioning it rests on and the generator that picks its pivots.

pub mod order;
pub mod partition;
pub mod random_generator;
pub mod sort;

pub use partition::move_pivot;
pub use random_generator::RandGen;
pub use sort::{quick_sort, quick_sort_rayon, quick_sort_with};
