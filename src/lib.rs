//! Linked lists, a cursor that splits and splices a doubly linked list,
//! sorting, searching, heaps and search trees, each with its contracts.
pub mod lists;
pub mod sort;
pub mod heap;
pub mod trees;
pub mod binary_search;
pub mod chap1;
pub mod chap2;
