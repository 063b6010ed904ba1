//! The domain adapter: bidirectional conversion between wire entities
//! and the flattened, string-formatted shapes the presentation layer
//! consumes.
//!
//! Money fields become canonical decimal literals; absent optional text
//! becomes the empty string; relation lists lose their `Option` wrapper
//! (an empty slot is a decode error, not a crash); received dates are
//! rendered as `MM/DD/YYYY`, dropping the time of day.

use vstd::prelude::*;
use vstd::string::StringSliceAdditionalSpecFns;
use vstd::string::StrSliceExecFns;

use crate::ApiError;
use crate::date::{
    date_bytes, date_wf, datetime_wf, epoch_datetime, format_date, is_date_lit,
    lemma_date_round_trip, parse_date, spec_epoch, spec_parse_date, Date, DateTime,
};
use crate::decimal::{
    dec_bytes, dec_wf, format_decimal, is_dec_lit, lemma_dec_bytes_ascii, lemma_dec_round_trip,
    parse_decimal, spec_parse_dec, Decimal,
};
use crate::models::{
    all_present, lemma_ids_round_trip, product_wf, received_order_wf,
    unwrap_ids, wrap_ids, Brand, Category, PendingOrder, Product, ReceivedOrder, Supplier,
};
use crate::text::{ascii_view, chars_bytes, lemma_ascii_encode};

verus! {

/// Two decimals with the same sign, digits and scale.
pub open spec fn dec_eqv(a: Decimal, b: Decimal) -> bool {
    &&& a.negative == b.negative
    &&& a.digits@ == b.digits@
    &&& a.scale == b.scale
}

pub open spec fn opt_dec_eqv(a: Option<Decimal>, b: Option<Decimal>) -> bool {
    match (a, b) {
        (Some(x), Some(y)) => dec_eqv(x, y),
        (None, None) => true,
        _ => false,
    }
}

/// What the UI shows for an optional text field: the text, or nothing.
pub open spec fn opt_text(o: Option<String>) -> Seq<char> {
    match o {
        Some(s) => s@,
        None => Seq::<char>::empty(),
    }
}

pub open spec fn opt_text_view(o: Option<String>) -> Option<Seq<char>> {
    match o {
        Some(s) => Some(s@),
        None => None,
    }
}

/// The wire form of a UI text field: empty means absent.
pub open spec fn text_opt(s: Seq<char>) -> Option<Seq<char>> {
    if s.len() == 0 {
        None
    } else {
        Some(s)
    }
}

fn opt_dec_dup(o: &Option<Decimal>) -> (r: Option<Decimal>)
    ensures
        opt_dec_eqv(r, *o),
{
    match o {
        Some(d) => Some(d.duplicate()),
        None => None,
    }
}

// ---------------------------------------------------------------------
// Product

#[derive(Clone, Debug, PartialEq, Eq)]
pub struct AppProduct {
    pub id: i32,
    pub name: String,
    pub upc: String,
    pub description: String,
    pub buy_level: Option<Decimal>,
    pub cost_price: String,
    pub selling_price: String,
    pub amount: Decimal,
    pub case_size: Option<i32>,
    pub measure_by_weight: bool,
}

pub open spec fn product_ui_rel(w: Product, u: AppProduct) -> bool {
    &&& u.id == w.id
    &&& u.name@ == w.name@
    &&& u.upc@ == w.upc@
    &&& u.description@ == w.description@
    &&& opt_dec_eqv(u.buy_level, w.buy_level)
    &&& u.cost_price@ == ascii_view(dec_bytes(w.cost_price_per_unit))
    &&& u.selling_price@ == ascii_view(dec_bytes(w.selling_price_per_unit))
    &&& dec_eqv(u.amount, w.amount)
    &&& u.case_size == w.case_size
    &&& u.measure_by_weight == w.measure_by_weight
}

pub open spec fn product_wire_ok(u: AppProduct) -> bool {
    &&& is_dec_lit(chars_bytes(u.cost_price@))
    &&& is_dec_lit(chars_bytes(u.selling_price@))
}

pub open spec fn product_wire_rel(u: AppProduct, w: Product) -> bool {
    &&& w.id == u.id
    &&& w.name@ == u.name@
    &&& w.upc@ == u.upc@
    &&& w.description@ == u.description@
    &&& opt_dec_eqv(w.buy_level, u.buy_level)
    &&& dec_eqv(w.amount, u.amount)
    &&& w.case_size == u.case_size
    &&& w.measure_by_weight == u.measure_by_weight
    &&& w.sale_end is None
    &&& w.sale_price is None
    &&& dec_wf(w.cost_price_per_unit)
    &&& dec_wf(w.selling_price_per_unit)
    &&& Some(
        (w.cost_price_per_unit.negative, w.cost_price_per_unit.digits@, w.cost_price_per_unit.scale
            as int),
    ) == spec_parse_dec(chars_bytes(u.cost_price@))
    &&& Some(
        (
            w.selling_price_per_unit.negative,
            w.selling_price_per_unit.digits@,
            w.selling_price_per_unit.scale as int,
        ),
    ) == spec_parse_dec(chars_bytes(u.selling_price@))
}

impl AppProduct {
    /// Flattens a wire product for display: prices become their
    /// canonical literals, everything else is carried over.
    pub fn from_product(product: Product) -> (r: AppProduct)
        requires
            product_wf(product),
        ensures
            product_ui_rel(product, r),
    {
        let cost_price = format_decimal(&product.cost_price_per_unit);
        let selling_price = format_decimal(&product.selling_price_per_unit);
        AppProduct {
            id: product.id,
            name: product.name,
            upc: product.upc,
            description: product.description,
            buy_level: product.buy_level,
            cost_price,
            selling_price,
            amount: product.amount,
            case_size: product.case_size,
            measure_by_weight: product.measure_by_weight,
        }
    }

    /// Parses the price literals back into exact decimals; succeeds
    /// exactly when both are decimal literals. Sale fields are not shown
    /// in the UI, so they go back as absent.
    pub fn to_product(&self) -> (r: Result<Product, ApiError>)
        ensures
            r is Ok <==> product_wire_ok(*self),
            r matches Ok(w) ==> product_wire_rel(*self, w),
            r is Err ==> r == Err::<Product, ApiError>(ApiError::Parse),
    {
        let cost = match parse_decimal(self.cost_price.as_str()) {
            Ok(d) => d,
            Err(e) => {
                return Err(ApiError::Parse);
            },
        };
        let selling = match parse_decimal(self.selling_price.as_str()) {
            Ok(d) => d,
            Err(e) => {
                return Err(ApiError::Parse);
            },
        };
        Ok(
            Product {
                id: self.id,
                upc: self.upc.clone(),
                name: self.name.clone(),
                description: self.description.clone(),
                amount: self.amount.duplicate(),
                case_size: self.case_size,
                measure_by_weight: self.measure_by_weight,
                cost_price_per_unit: cost,
                selling_price_per_unit: selling,
                sale_end: None,
                buy_level: opt_dec_dup(&self.buy_level),
                sale_price: None,
            },
        )
    }
}

/// Round trip: a product with no sale fields survives the UI conversion
/// unchanged, prices exactly (no rounding).
pub proof fn lemma_product_round_trip(w: Product, u: AppProduct, w2: Product)
    requires
        product_wf(w),
        w.sale_end is None,
        w.sale_price is None,
        product_ui_rel(w, u),
        product_wire_rel(u, w2),
    ensures
        w2.id == w.id,
        w2.upc@ == w.upc@,
        w2.name@ == w.name@,
        w2.description@ == w.description@,
        dec_eqv(w2.amount, w.amount),
        w2.case_size == w.case_size,
        w2.measure_by_weight == w.measure_by_weight,
        dec_eqv(w2.cost_price_per_unit, w.cost_price_per_unit),
        dec_eqv(w2.selling_price_per_unit, w.selling_price_per_unit),
        opt_dec_eqv(w2.buy_level, w.buy_level),
        w2.sale_end == w.sale_end,
        w2.sale_price == w.sale_price,
{
    lemma_dec_bytes_ascii(w.cost_price_per_unit);
    lemma_ascii_encode(dec_bytes(w.cost_price_per_unit));
    lemma_dec_round_trip(w.cost_price_per_unit);
    lemma_dec_bytes_ascii(w.selling_price_per_unit);
    lemma_ascii_encode(dec_bytes(w.selling_price_per_unit));
    lemma_dec_round_trip(w.selling_price_per_unit);
}

/// The conversion back to the wire is owed success on every product the
/// adapter itself produced.
pub proof fn lemma_product_wire_ok(w: Product, u: AppProduct)
    requires
        product_wf(w),
        product_ui_rel(w, u),
    ensures
        product_wire_ok(u),
{
    lemma_dec_bytes_ascii(w.cost_price_per_unit);
    lemma_ascii_encode(dec_bytes(w.cost_price_per_unit));
    lemma_dec_round_trip(w.cost_price_per_unit);
    lemma_dec_bytes_ascii(w.selling_price_per_unit);
    lemma_ascii_encode(dec_bytes(w.selling_price_per_unit));
    lemma_dec_round_trip(w.selling_price_per_unit);
}

// ---------------------------------------------------------------------
// Brand

#[derive(Clone, Debug, PartialEq, Eq)]
pub struct AppBrand {
    pub id: i32,
    pub name: String,
    pub products: Vec<i32>,
}

pub open spec fn brand_ui_rel(w: Brand, u: AppBrand) -> bool {
    &&& u.id == w.id
    &&& u.name@ == w.name@
    &&& u.products@ == unwrap_ids(w.products@)
}

pub open spec fn brand_wire_rel(u: AppBrand, w: Brand) -> bool {
    &&& w.id == u.id
    &&& w.name@ == u.name@
    &&& w.products@ == wrap_ids(u.products@)
}

fn unwrap_slots(ps: &Vec<Option<i32>>) -> (r: Result<Vec<i32>, ApiError>)
    ensures
        r is Ok <==> all_present(ps@),
        r matches Ok(ids) ==> ids@ == unwrap_ids(ps@),
        r is Err ==> r == Err::<Vec<i32>, ApiError>(ApiError::Decode),
{
    let mut ids: Vec<i32> = Vec::new();
    let mut i: usize = 0;
    while i < ps.len()
        invariant
            i <= ps@.len(),
            forall|j: int| 0 <= j < i ==> (#[trigger] ps@[j]) is Some,
            ids@ == unwrap_ids(ps@.take(i as int)),
        decreases ps@.len() - i,
    {
        match ps[i] {
            Some(id) => {
                ids.push(id);
            },
            None => {
                return Err(ApiError::Decode);
            },
        }
        i += 1;
        assert(ids@ =~= unwrap_ids(ps@.take(i as int)));
    }
    assert(ids@ =~= unwrap_ids(ps@));
    Ok(ids)
}

fn wrap_slots(ids: &Vec<i32>) -> (r: Vec<Option<i32>>)
    ensures
        r@ == wrap_ids(ids@),
{
    let mut ps: Vec<Option<i32>> = Vec::new();
    let mut i: usize = 0;
    while i < ids.len()
        invariant
            i <= ids@.len(),
            ps@ == wrap_ids(ids@.take(i as int)),
        decreases ids@.len() - i,
    {
        ps.push(Some(ids[i]));
        i += 1;
        assert(ps@ =~= wrap_ids(ids@.take(i as int)));
    }
    assert(ps@ =~= wrap_ids(ids@));
    ps
}

impl AppBrand {
    /// Flattens the relation slots; an empty slot is a decode error.
    pub fn from_brand(brand: Brand) -> (r: Result<AppBrand, ApiError>)
        ensures
            r is Ok <==> all_present(brand.products@),
            r matches Ok(u) ==> brand_ui_rel(brand, u),
            r is Err ==> r == Err::<AppBrand, ApiError>(ApiError::Decode),
    {
        let products = match unwrap_slots(&brand.products) {
            Ok(ids) => ids,
            Err(e) => {
                return Err(ApiError::Decode);
            },
        };
        Ok(AppBrand { id: brand.id, name: brand.name, products })
    }

    pub fn to_brand(&self) -> (r: Result<Brand, ApiError>)
        ensures
            r matches Ok(w) && brand_wire_rel(*self, w),
    {
        Ok(
            Brand {
                id: self.id,
                name: self.name.clone(),
                products: wrap_slots(&self.products),
            },
        )
    }
}

/// Round trip: a brand whose slots are all populated survives the UI
/// conversion unchanged.
pub proof fn lemma_brand_round_trip(w: Brand, u: AppBrand, w2: Brand)
    requires
        all_present(w.products@),
        brand_ui_rel(w, u),
        brand_wire_rel(u, w2),
    ensures
        w2.id == w.id,
        w2.name@ == w.name@,
        w2.products@ == w.products@,
{
    lemma_ids_round_trip(w.products@);
}

// ---------------------------------------------------------------------
// Category

#[derive(Clone, Debug, PartialEq, Eq)]
pub struct AppCategory {
    pub id: i32,
    pub name: String,
    pub products: Vec<i32>,
}

pub open spec fn category_ui_rel(w: Category, u: AppCategory) -> bool {
    &&& u.id == w.id
    &&& u.name@ == w.name@
    &&& u.products@ == unwrap_ids(w.products@)
}

pub open spec fn category_wire_rel(u: AppCategory, w: Category) -> bool {
    &&& w.id == u.id
    &&& w.name@ == u.name@
    &&& w.products@ == wrap_ids(u.products@)
}

impl AppCategory {
    /// Flattens the relation slots; an empty slot is a decode error.
    pub fn from_category(category: Category) -> (r: Result<AppCategory, ApiError>)
        ensures
            r is Ok <==> all_present(category.products@),
            r matches Ok(u) ==> category_ui_rel(category, u),
            r is Err ==> r == Err::<AppCategory, ApiError>(ApiError::Decode),
    {
        let products = match unwrap_slots(&category.products) {
            Ok(ids) => ids,
            Err(e) => {
                return Err(ApiError::Decode);
            },
        };
        Ok(AppCategory { id: category.id, name: category.name, products })
    }

    pub fn to_category(&self) -> (r: Result<Category, ApiError>)
        ensures
            r matches Ok(w) && category_wire_rel(*self, w),
    {
        Ok(
            Category {
                id: self.id,
                name: self.name.clone(),
                products: wrap_slots(&self.products),
            },
        )
    }
}

/// Round trip: a category whose slots are all populated survives the UI
/// conversion unchanged.
pub proof fn lemma_category_round_trip(w: Category, u: AppCategory, w2: Category)
    requires
        all_present(w.products@),
        category_ui_rel(w, u),
        category_wire_rel(u, w2),
    ensures
        w2.id == w.id,
        w2.name@ == w.name@,
        w2.products@ == w.products@,
{
    lemma_ids_round_trip(w.products@);
}

// ---------------------------------------------------------------------
// Supplier

#[derive(Clone, Debug, PartialEq, Eq)]
pub struct AppSupplier {
    pub id: i32,
    pub name: String,
    pub email: String,
    pub phone_number: String,
    pub products: Vec<i32>,
}

pub open spec fn supplier_ui_rel(w: Supplier, u: AppSupplier) -> bool {
    &&& u.id == w.id
    &&& u.name@ == w.name@
    &&& u.email@ == opt_text(w.email)
    &&& u.phone_number@ == opt_text(w.phone_number)
    &&& u.products@ == unwrap_ids(w.products@)
}

pub open spec fn supplier_wire_rel(u: AppSupplier, w: Supplier) -> bool {
    &&& w.id == u.id
    &&& w.name@ == u.name@
    &&& opt_text_view(w.email) == text_opt(u.email@)
    &&& opt_text_view(w.phone_number) == text_opt(u.phone_number@)
    &&& w.products@ == wrap_ids(u.products@)
}

impl AppSupplier {
    /// Flattens the relation slots and substitutes the empty string for
    /// an absent phone number or email.
    pub fn from_supplier(supplier: Supplier) -> (r: Result<AppSupplier, ApiError>)
        ensures
            r is Ok <==> all_present(supplier.products@),
            r matches Ok(u) ==> supplier_ui_rel(supplier, u),
            r is Err ==> r == Err::<AppSupplier, ApiError>(ApiError::Decode),
    {
        let products = match unwrap_slots(&supplier.products) {
            Ok(ids) => ids,
            Err(e) => {
                return Err(ApiError::Decode);
            },
        };
        let email = match supplier.email {
            Some(e) => e,
            None => String::new(),
        };
        let phone_number = match supplier.phone_number {
            Some(p) => p,
            None => String::new(),
        };
        Ok(AppSupplier { id: supplier.id, name: supplier.name, email, phone_number, products })
    }

    /// An empty phone number or email goes back on the wire as absent.
    pub fn to_supplier(&self) -> (r: Result<Supplier, ApiError>)
        ensures
            r matches Ok(w) && supplier_wire_rel(*self, w),
    {
        let phone_number = if self.phone_number.as_str().unicode_len() == 0 {
            None
        } else {
            Some(self.phone_number.clone())
        };
        let email = if self.email.as_str().unicode_len() == 0 {
            None
        } else {
            Some(self.email.clone())
        };
        Ok(
            Supplier {
                id: self.id,
                name: self.name.clone(),
                products: wrap_slots(&self.products),
                phone_number,
                email,
            },
        )
    }
}

/// Round trip: a supplier whose slots are populated, and whose optional
/// texts are either absent or non-empty, survives the UI conversion
/// unchanged. A present-but-empty email or phone number comes back as
/// absent - that input is the documented exception.
pub proof fn lemma_supplier_round_trip(w: Supplier, u: AppSupplier, w2: Supplier)
    requires
        all_present(w.products@),
        w.email matches Some(e) ==> e@.len() > 0,
        w.phone_number matches Some(p) ==> p@.len() > 0,
        supplier_ui_rel(w, u),
        supplier_wire_rel(u, w2),
    ensures
        w2.id == w.id,
        w2.name@ == w.name@,
        opt_text_view(w2.email) == opt_text_view(w.email),
        opt_text_view(w2.phone_number) == opt_text_view(w.phone_number),
        w2.products@ == w.products@,
{
    lemma_ids_round_trip(w.products@);
}

// ---------------------------------------------------------------------
// Pending orders

#[derive(Clone, Debug, PartialEq, Eq)]
pub struct AppPendingOrder {
    pub id: i32,
    pub product: i32,
    pub amount: Decimal,
}

pub open spec fn pending_ui_rel(w: PendingOrder, u: AppPendingOrder) -> bool {
    &&& u.id == w.id
    &&& u.product == w.product_id
    &&& dec_eqv(u.amount, w.amount)
}

pub open spec fn pending_wire_rel(u: AppPendingOrder, w: PendingOrder) -> bool {
    &&& w.id == u.id
    &&& w.product_id == u.product
    &&& dec_eqv(w.amount, u.amount)
}

impl AppPendingOrder {
    pub fn from_order(order: PendingOrder) -> (r: AppPendingOrder)
        ensures
            pending_ui_rel(order, r),
    {
        AppPendingOrder { id: order.id, product: order.product_id, amount: order.amount }
    }

    pub fn to_order(&self) -> (r: Result<PendingOrder, ApiError>)
        ensures
            r matches Ok(w) && pending_wire_rel(*self, w),
    {
        Ok(
            PendingOrder {
                id: self.id,
                product_id: self.product,
                amount: self.amount.duplicate(),
            },
        )
    }
}

/// Round trip: a pending order survives the UI conversion unchanged.
pub proof fn lemma_pending_round_trip(w: PendingOrder, u: AppPendingOrder, w2: PendingOrder)
    requires
        pending_ui_rel(w, u),
        pending_wire_rel(u, w2),
    ensures
        w2.id == w.id,
        w2.product_id == w.product_id,
        dec_eqv(w2.amount, w.amount),
{
}

// ---------------------------------------------------------------------
// Received orders

#[derive(Clone, Debug, PartialEq, Eq)]
pub struct AppReceivedOrder {
    pub id: i32,
    pub product_id: i32,
    pub gross_amount: Decimal,
    pub actually_received: Decimal,
    pub damaged: Decimal,
    pub received: String,
}

/// The date the UI shows: the received date, or the epoch when absent.
pub open spec fn shown_date(o: Option<DateTime>) -> Date {
    match o {
        Some(dt) => dt.date,
        None => spec_epoch().date,
    }
}

pub open spec fn received_ui_rel(w: ReceivedOrder, u: AppReceivedOrder) -> bool {
    &&& u.id == w.id
    &&& u.product_id == w.product_id
    &&& dec_eqv(u.gross_amount, w.gross_amount)
    &&& dec_eqv(u.actually_received, w.actually_received)
    &&& dec_eqv(u.damaged, w.damaged)
    &&& u.received@ == ascii_view(date_bytes(shown_date(w.received)))
}

pub open spec fn received_wire_ok(u: AppReceivedOrder) -> bool {
    is_date_lit(chars_bytes(u.received@))
}

pub open spec fn received_wire_rel(u: AppReceivedOrder, w: ReceivedOrder) -> bool {
    &&& w.id == u.id
    &&& w.product_id == u.product_id
    &&& dec_eqv(w.gross_amount, u.gross_amount)
    &&& dec_eqv(w.actually_received, u.actually_received)
    &&& dec_eqv(w.damaged, u.damaged)
    &&& w.received matches Some(dt) && dt.secs == 0 && Some(dt.date) == spec_parse_date(
        chars_bytes(u.received@),
    )
}

impl AppReceivedOrder {
    /// Renders the received date as `MM/DD/YYYY`, dropping the time of
    /// day. An absent date is defaulted before rendering, so it shows as
    /// the epoch day rather than as an empty string - the treatment the
    /// date rule prescribes, chosen over the general empty-for-absent
    /// text convention.
    pub fn from_order(order: ReceivedOrder) -> (r: AppReceivedOrder)
        requires
            received_order_wf(order),
        ensures
            received_ui_rel(order, r),
    {
        let dt = match order.received {
            Some(dt) => dt,
            None => epoch_datetime(),
        };
        let received = format_date(&dt.date);
        AppReceivedOrder {
            id: order.id,
            product_id: order.product_id,
            gross_amount: order.gross_amount,
            actually_received: order.actually_received,
            damaged: order.damaged,
            received,
        }
    }

    /// Parses the date back; the reconstructed wire value always lands
    /// on midnight.
    pub fn to_order(&self) -> (r: Result<ReceivedOrder, ApiError>)
        ensures
            r is Ok <==> received_wire_ok(*self),
            r matches Ok(w) ==> received_wire_rel(*self, w),
            r is Err ==> r == Err::<ReceivedOrder, ApiError>(ApiError::Parse),
    {
        let date = match parse_date(self.received.as_str()) {
            Ok(d) => d,
            Err(e) => {
                return Err(ApiError::Parse);
            },
        };
        Ok(
            ReceivedOrder {
                id: self.id,
                product_id: self.product_id,
                actually_received: self.actually_received.duplicate(),
                damaged: self.damaged.duplicate(),
                received: Some(DateTime { date, secs: 0 }),
                gross_amount: self.gross_amount.duplicate(),
            },
        )
    }
}

/// Round trip: a received order whose date is present and on midnight
/// survives the UI conversion unchanged. Time of day below a whole day
/// is the documented exception: it cannot be reconstructed.
pub proof fn lemma_received_round_trip(w: ReceivedOrder, u: AppReceivedOrder, w2: ReceivedOrder)
    requires
        received_order_wf(w),
        w.received matches Some(dt) && dt.secs == 0,
        received_ui_rel(w, u),
        received_wire_rel(u, w2),
    ensures
        w2.id == w.id,
        w2.product_id == w.product_id,
        dec_eqv(w2.gross_amount, w.gross_amount),
        dec_eqv(w2.actually_received, w.actually_received),
        dec_eqv(w2.damaged, w.damaged),
        w2.received == w.received,
{
    let dt = w.received.unwrap();
    lemma_date_round_trip(dt.date);
    lemma_ascii_encode(date_bytes(dt.date));
}

/// The conversion back to the wire is owed success on every order the
/// adapter itself produced.
pub proof fn lemma_received_wire_ok(w: ReceivedOrder, u: AppReceivedOrder)
    requires
        received_order_wf(w),
        received_ui_rel(w, u),
    ensures
        received_wire_ok(u),
{
    let d = shown_date(w.received);
    lemma_date_round_trip(d);
    lemma_ascii_encode(date_bytes(d));
}


/// The UI-facing received order built when a pending order is marked
/// received: the pending amount becomes the gross amount, the date text
/// is shown as given, and the id is the one the service answered with.
pub fn received_from_pending(
    order: &AppPendingOrder,
    date: &str,
    actually_received: &Decimal,
    damaged: &Decimal,
    new_id: i32,
) -> (r: AppReceivedOrder)
    ensures
        r.id == new_id,
        r.product_id == order.product,
        dec_eqv(r.gross_amount, order.amount),
        dec_eqv(r.actually_received, *actually_received),
        dec_eqv(r.damaged, *damaged),
        r.received@ == date@,
{
    AppReceivedOrder {
        id: new_id,
        product_id: order.product,
        gross_amount: order.amount.duplicate(),
        actually_received: actually_received.duplicate(),
        damaged: damaged.duplicate(),
        received: date.to_owned(),
    }
}

} // verus!
