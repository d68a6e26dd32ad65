pub mod deposit;
pub mod offchain_withdrawal;
pub mod onchain_withdrawal;
pub mod order;
pub mod sign;
pub mod transfer;
