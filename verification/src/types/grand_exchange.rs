//! Orders of the grand exchange.

use vstd::prelude::*;

verus! {

/// A standing order.
#[derive(Debug)]
pub struct GEOrder {
    pub id: String,
    pub order_type: String,
    pub account: String,
    pub code: String,
    pub quantity: i32,
    pub price: i32,
    pub created_at: String,
}

impl Clone for GEOrder {
    fn clone(&self) -> (r: Self)
        ensures
            r == *self,
    {
        GEOrder { id: self.id.clone(), order_type: self.order_type.clone(), account: self.account.clone(), code: self.code.clone(), quantity: self.quantity, price: self.price, created_at: self.created_at.clone() }
    }
}

} // verus!
