//! A running median over a changing collection of ordered values, kept in
//! two sorted halves: every value of the lower half is at most every value of
//! the upper half, and insertions keep their sizes within one of each other.
pub mod laws;
pub mod medianheap;
pub mod mergemedian;
pub mod model;
pub mod sorted;
pub mod value;

pub use medianheap::MedianHeap;
pub use mergemedian::{LeftHandedMedian, MergeMedian, MidpointMedian};
pub use value::MedianValue;
