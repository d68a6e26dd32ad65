pub mod account;
pub mod merkle_tree;
