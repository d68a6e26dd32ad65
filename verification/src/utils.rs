pub mod allocate;
pub mod calc;
pub mod sign;
pub mod tree;
pub mod utils;
