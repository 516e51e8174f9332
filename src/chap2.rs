//! The ascending sorts, the searches and binary addition, gathered in one
//! place.
pub use crate::binary_search::binary_search;
pub use crate::chap1::{bit_add, linear_search};
pub use crate::sort::insertion::insertion_sort;
pub use crate::sort::merge::{merge_ind, merge_sort};
pub use crate::sort::selection::selection_sort;
