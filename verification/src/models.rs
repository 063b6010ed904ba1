//! Wire-format entities: the shapes exchanged with the remote catalog
//! service. Identity is server-owned; the client never invents ids.

use vstd::prelude::*;

use crate::date::{datetime_wf, DateTime};
use crate::decimal::{dec_wf, Decimal};

verus! {

#[derive(Clone, Debug, PartialEq, Eq)]
pub struct User {
    pub id: i32,
    pub name: String,
    pub email: String,
    pub password: String,
}

#[derive(Clone, Copy, Debug, PartialEq, Eq, Structural)]
pub struct Preference {
    pub user_id: i32,
}

#[derive(Clone, Copy, Debug, PartialEq, Eq, Structural)]
pub struct Permission {
    pub user_id: i32,
    pub admin: bool,
    pub view_pending: bool,
    pub view_received: bool,
    pub edit_pending: bool,
    pub create_orders: bool,
    pub edit_received: bool,
    pub remove_orders: bool,
    pub edit_products: bool,
    pub view_products: bool,
    pub view_suppliers: bool,
}

#[derive(Clone, Debug, PartialEq, Eq)]
pub struct Product {
    pub id: i32,
    pub upc: String,
    pub name: String,
    pub description: String,
    pub amount: Decimal,
    pub case_size: Option<i32>,
    pub measure_by_weight: bool,
    pub cost_price_per_unit: Decimal,
    pub selling_price_per_unit: Decimal,
    pub sale_end: Option<DateTime>,
    pub buy_level: Option<Decimal>,
    pub sale_price: Option<Decimal>,
}

#[derive(Clone, Debug, PartialEq, Eq)]
pub struct Category {
    pub id: i32,
    pub products: Vec<Option<i32>>,
    pub name: String,
}

#[derive(Clone, Debug, PartialEq, Eq)]
pub struct Supplier {
    pub id: i32,
    pub products: Vec<Option<i32>>,
    pub name: String,
    pub phone_number: Option<String>,
    pub email: Option<String>,
}

#[derive(Clone, Debug, PartialEq, Eq)]
pub struct Brand {
    pub id: i32,
    pub name: String,
    pub products: Vec<Option<i32>>,
}

#[derive(Clone, Debug, PartialEq, Eq)]
pub struct ReceivedOrder {
    pub id: i32,
    pub received: Option<DateTime>,
    pub product_id: i32,
    pub gross_amount: Decimal,
    pub actually_received: Decimal,
    pub damaged: Decimal,
}

#[derive(Clone, Debug, PartialEq, Eq)]
pub struct PendingOrder {
    pub id: i32,
    pub product_id: i32,
    pub amount: Decimal,
}

pub open spec fn opt_dec_wf(o: Option<Decimal>) -> bool {
    match o {
        Some(d) => dec_wf(d),
        None => true,
    }
}

pub open spec fn product_wf(p: Product) -> bool {
    &&& dec_wf(p.amount)
    &&& dec_wf(p.cost_price_per_unit)
    &&& dec_wf(p.selling_price_per_unit)
    &&& opt_dec_wf(p.buy_level)
    &&& opt_dec_wf(p.sale_price)
    &&& match p.sale_end {
        Some(dt) => datetime_wf(dt),
        None => true,
    }
}

pub open spec fn received_order_wf(o: ReceivedOrder) -> bool {
    &&& dec_wf(o.gross_amount)
    &&& dec_wf(o.actually_received)
    &&& dec_wf(o.damaged)
    &&& match o.received {
        Some(dt) => datetime_wf(dt),
        None => true,
    }
}

pub open spec fn pending_order_wf(o: PendingOrder) -> bool {
    dec_wf(o.amount)
}

/// True when every relation slot actually holds a product id.
pub open spec fn all_present(ps: Seq<Option<i32>>) -> bool {
    forall|i: int| 0 <= i < ps.len() ==> (#[trigger] ps[i]) is Some
}

/// The flattened form of a fully populated relation list.
pub open spec fn unwrap_ids(ps: Seq<Option<i32>>) -> Seq<i32> {
    ps.map_values(|p: Option<i32>| p.unwrap())
}

/// The wire form of a flattened relation list.
pub open spec fn wrap_ids(ps: Seq<i32>) -> Seq<Option<i32>> {
    ps.map_values(|p: i32| Some(p))
}

/// Wrapping after unwrapping gives the original list back when no slot
/// was empty.
pub proof fn lemma_ids_round_trip(ps: Seq<Option<i32>>)
    requires
        all_present(ps),
    ensures
        wrap_ids(unwrap_ids(ps)) == ps,
{
    assert(wrap_ids(unwrap_ids(ps)) =~= ps);
}

} // verus!
