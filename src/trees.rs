pub mod binary_tree;
