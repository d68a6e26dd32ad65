//! Orders.

use crate::eddsa::Signature;
use vstd::prelude::*;

verus! {

/// An order to exchange an amount of one token for an amount of another.
#[derive(Clone, Copy, Debug)]
pub struct Order {
    pub order_id: usize,
    pub account_id: usize,
    pub token_s: usize,
    pub token_b: usize,
    pub amount_s: usize,
    pub amount_b: usize,
    pub buy: bool,
    pub asset_b_basic: bool,
}

/// An order with a signature.
#[derive(Clone, Copy, Debug)]
pub struct SignedOrder {
    pub order: Order,
    pub sign: Signature,
}

} // verus!
