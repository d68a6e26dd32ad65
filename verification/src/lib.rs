//! The core of a rollup's ledger: a hash tree over slots, the rules by which
//! deposits, transfers and withdrawals change the slots, the circuits that
//! ask of a proof what the rules ask of the ledger, and the operator that
//! queues requests and executes them in batches.

pub mod account;
pub mod batch;
pub mod circuit;
pub mod data_structs;
pub mod deposit_circuit;
pub mod eddsa;
pub mod field;
pub mod hash;
pub mod operator;
pub mod tree;
pub mod utils;
pub mod offchain_withdrawal_circuit;
pub mod onchain_withdrawal_circuit;
pub mod transfer_circuit;
