//! The session gateway: one authenticated identity at a time, and one
//! request description per remote operation.
//!
//! The gateway itself performs no transport. Each method builds a
//! `RequestSpec`: the path below the base endpoint, the query pairs, and
//! the two identity headers, copied from this gateway value and from it
//! alone. Re-authentication builds a whole new `Api` and swaps the
//! shared handle; a request built from the old value keeps both old
//! headers, one built from the new value carries both new ones, so no
//! request can ever mix the two identities.
//!
//! Entity payloads arrive here already serialized: the caller turns
//! values into JSON text and hands the text in.

use vstd::prelude::*;
use vstd::string::StringExecFns;

use crate::ApiError;
use crate::date::{date_timestamp, datetime_wf, spec_timestamp, DateTime};
use crate::decimal::{dec_bytes, dec_wf, format_decimal, Decimal};
use crate::text::{
    ascii_bytes, ascii_string, ascii_view, bool_bytes, bool_string, int_bytes,
    int_string, lemma_int_bytes_ascii, push_int_bytes,
};

verus! {

/// One remote call, described: path below the base endpoint, query
/// parameters, and the two identity headers.
#[derive(Clone, Debug, PartialEq, Eq)]
pub struct RequestSpec {
    pub path: String,
    pub query: Vec<(String, String)>,
    pub username: String,
    pub password: String,
}

/// The authenticated session gateway: exactly one identity.
#[derive(Clone, Debug, PartialEq, Eq)]
pub struct Api {
    pub username: String,
    pub password: String,
}

/// A request carries exactly the two headers of the identity it was
/// built from.
pub open spec fn uses_identity(r: RequestSpec, a: Api) -> bool {
    &&& r.username@ == a.username@
    &&& r.password@ == a.password@
}

/// A request built under one identity cannot also carry another,
/// different identity: there is no mixed header set. An operation that
/// read the shared gateway before a re-authentication completes against
/// the old identity in full; operations started afterwards carry the new
/// one in full.
pub proof fn lemma_identity_not_mixed(r: RequestSpec, a1: Api, a2: Api)
    requires
        uses_identity(r, a1),
        a1.username@ != a2.username@ || a1.password@ != a2.password@,
    ensures
        !uses_identity(r, a2),
{
}

fn pair(k: &str, v: String) -> (r: (String, String))
    ensures
        r.0@ == k@,
        r.1@ == v@,
{
    (k.to_owned(), v)
}

/// The JSON rendering of a list of ids, as embedded in a query string.
pub open spec fn int_list_body(v: Seq<i32>) -> Seq<u8>
    decreases v.len(),
{
    if v.len() == 0 {
        Seq::<u8>::empty()
    } else if v.len() == 1 {
        int_bytes(v[0] as int)
    } else {
        int_list_body(v.drop_last()) + seq![44u8] + int_bytes(v.last() as int)
    }
}

pub open spec fn int_list_bytes(v: Seq<i32>) -> Seq<u8> {
    seq![91u8] + int_list_body(v) + seq![93u8]
}

proof fn lemma_int_list_body_ascii(v: Seq<i32>)
    ensures
        ascii_bytes(int_list_body(v)),
    decreases v.len(),
{
    if v.len() == 1 {
        lemma_int_bytes_ascii(v[0] as int);
    } else if v.len() > 1 {
        lemma_int_list_body_ascii(v.drop_last());
        lemma_int_bytes_ascii(v.last() as int);
    }
}

/// Renders a list of ids as a JSON array literal.
#[verifier::loop_isolation(false)]
pub fn int_list_string(v: &Vec<i32>) -> (s: String)
    ensures
        s@ == ascii_view(int_list_bytes(v@)),
{
    let mut out: Vec<u8> = Vec::new();
    out.push(91);
    let mut i: usize = 0;
    while i < v.len()
        invariant
            i <= v@.len(),
            out@ == seq![91u8] + int_list_body(v@.take(i as int)),
        decreases v@.len() - i,
    {
        if i > 0 {
            out.push(44);
        }
        push_int_bytes(v[i] as i64, &mut out);
        i += 1;
        proof {
            assert(v@.take(i as int).drop_last() =~= v@.take(i as int - 1));
            assert(v@.take(i as int).last() == v@[i as int - 1]);
            assert(out@ =~= seq![91u8] + int_list_body(v@.take(i as int)));
        }
    }
    out.push(93);
    proof {
        assert(v@.take(v@.len() as int) =~= v@);
        assert(out@ =~= int_list_bytes(v@));
        lemma_int_list_body_ascii(v@);
    }
    ascii_string(out)
}

impl Api {
    /// A gateway for the given identity. Construction is all-or-nothing
    /// for the caller: the handshake request below must succeed before
    /// this value replaces the shared gateway.
    pub fn new(user_name: &str, password: &str) -> (r: Api)
        ensures
            r.username@ == user_name@,
            r.password@ == password@,
    {
        Api { username: user_name.to_owned(), password: password.to_owned() }
    }

    fn request(&self, path: String, query: Vec<(String, String)>) -> (r: RequestSpec)
        ensures
            r.path@ == path@,
            r.query == query,
            uses_identity(r, *self),
    {
        RequestSpec {
            path,
            query,
            username: self.username.clone(),
            password: self.password.clone(),
        }
    }

    /// The initialization handshake, credentials embedded in the path.
    pub fn init_request(&self) -> (r: RequestSpec)
        ensures
            r.path@ == "initialize/"@ + self.username@ + "/"@ + self.password@ + "/"@,
            r.query@.len() == 0,
            uses_identity(r, *self),
    {
        let path = "initialize/".to_owned().concat(self.username.as_str()).concat("/").concat(
            self.password.as_str(),
        ).concat("/");
        self.request(path, Vec::new())
    }

    /// Fetches the capability flags of the current user.
    pub fn permissions(&self) -> (r: RequestSpec)
        ensures
            r.path@ == "permissions"@,
            r.query@.len() == 0,
            uses_identity(r, *self),
    {
        self.request("permissions".to_owned(), Vec::new())
    }

    /// Asks the service to create an account.
    pub fn sign_up(&self, user_name: &str, password: &str) -> (r: RequestSpec)
        ensures
            r.path@ == "signup"@,
            r.query@.len() == 2,
            r.query@[0].0@ == "username"@ && r.query@[0].1@ == user_name@,
            r.query@[1].0@ == "password"@ && r.query@[1].1@ == password@,
            uses_identity(r, *self),
    {
        let mut query: Vec<(String, String)> = Vec::new();
        query.push(pair("username", user_name.to_owned()));
        query.push(pair("password", password.to_owned()));
        self.request("signup".to_owned(), query)
    }

    /// Upserts a user; the serialized record rides in the path.
    pub fn update_user(&self, user_json: &str) -> (r: RequestSpec)
        ensures
            r.path@ == "update_user/"@ + user_json@,
            r.query@.len() == 0,
            uses_identity(r, *self),
    {
        self.request("update_user/".to_owned().concat(user_json), Vec::new())
    }

    /// Upserts a product; the serialized record rides in the path.
    pub fn update_product(&self, product_json: &str) -> (r: RequestSpec)
        ensures
            r.path@ == "update_product/"@ + product_json@,
            r.query@.len() == 0,
            uses_identity(r, *self),
    {
        self.request("update_product/".to_owned().concat(product_json), Vec::new())
    }

    /// Upserts a supplier; the serialized record rides in the query.
    pub fn update_supplier(&self, supplier_json: &str) -> (r: RequestSpec)
        ensures
            r.path@ == "update_supplier"@,
            r.query@.len() == 1,
            r.query@[0].0@ == "supplier_info"@ && r.query@[0].1@ == supplier_json@,
            uses_identity(r, *self),
    {
        let mut query: Vec<(String, String)> = Vec::new();
        query.push(pair("supplier_info", supplier_json.to_owned()));
        self.request("update_supplier".to_owned(), query)
    }

    /// Upserts a brand; the serialized record rides in the query.
    pub fn update_brand(&self, brand_json: &str) -> (r: RequestSpec)
        ensures
            r.path@ == "update_brand"@,
            r.query@.len() == 1,
            r.query@[0].0@ == "brand_info"@ && r.query@[0].1@ == brand_json@,
            uses_identity(r, *self),
    {
        let mut query: Vec<(String, String)> = Vec::new();
        query.push(pair("brand_info", brand_json.to_owned()));
        self.request("update_brand".to_owned(), query)
    }

    /// Upserts a category; the serialized record rides in the query.
    pub fn update_category(&self, category_json: &str) -> (r: RequestSpec)
        ensures
            r.path@ == "update_category"@,
            r.query@.len() == 1,
            r.query@[0].0@ == "category_info"@ && r.query@[0].1@ == category_json@,
            uses_identity(r, *self),
    {
        let mut query: Vec<(String, String)> = Vec::new();
        query.push(pair("category_info", category_json.to_owned()));
        self.request("update_category".to_owned(), query)
    }

    /// Upserts a pending order; the serialized record rides in the query.
    pub fn update_pending_order(&self, order_json: &str) -> (r: RequestSpec)
        ensures
            r.path@ == "update_pending_order"@,
            r.query@.len() == 1,
            r.query@[0].0@ == "order_info"@ && r.query@[0].1@ == order_json@,
            uses_identity(r, *self),
    {
        let mut query: Vec<(String, String)> = Vec::new();
        query.push(pair("order_info", order_json.to_owned()));
        self.request("update_pending_order".to_owned(), query)
    }

    /// Upserts a received order; the serialized record rides in the
    /// query.
    pub fn update_received_order(&self, order_json: &str) -> (r: RequestSpec)
        ensures
            r.path@ == "update_received_order"@,
            r.query@.len() == 1,
            r.query@[0].0@ == "order_info"@ && r.query@[0].1@ == order_json@,
            uses_identity(r, *self),
    {
        let mut query: Vec<(String, String)> = Vec::new();
        query.push(pair("order_info", order_json.to_owned()));
        self.request("update_received_order".to_owned(), query)
    }

    /// Creates a brand with the given name; the service answers with the
    /// new id.
    pub fn new_brand(&self, name: &str) -> (r: RequestSpec)
        ensures
            r.path@ == "new_brand"@,
            r.query@.len() == 1,
            r.query@[0].0@ == "name"@ && r.query@[0].1@ == name@,
            uses_identity(r, *self),
    {
        let mut query: Vec<(String, String)> = Vec::new();
        query.push(pair("name", name.to_owned()));
        self.request("new_brand".to_owned(), query)
    }

    /// Creates a category with the given name.
    pub fn new_category(&self, name: &str) -> (r: RequestSpec)
        ensures
            r.path@ == "new_category"@,
            r.query@.len() == 1,
            r.query@[0].0@ == "name"@ && r.query@[0].1@ == name@,
            uses_identity(r, *self),
    {
        let mut query: Vec<(String, String)> = Vec::new();
        query.push(pair("name", name.to_owned()));
        self.request("new_category".to_owned(), query)
    }

    /// Creates a supplier with the given contact fields.
    pub fn new_supplier(&self, name: &str, phone_number: &str, email: &str) -> (r: RequestSpec)
        ensures
            r.path@ == "new_supplier"@,
            r.query@.len() == 3,
            r.query@[0].0@ == "name"@ && r.query@[0].1@ == name@,
            r.query@[1].0@ == "phone_number"@ && r.query@[1].1@ == phone_number@,
            r.query@[2].0@ == "email"@ && r.query@[2].1@ == email@,
            uses_identity(r, *self),
    {
        let mut query: Vec<(String, String)> = Vec::new();
        query.push(pair("name", name.to_owned()));
        query.push(pair("phone_number", phone_number.to_owned()));
        query.push(pair("email", email.to_owned()));
        self.request("new_supplier".to_owned(), query)
    }

    /// Creates a pending order over a product.
    pub fn new_pending_order(&self, amount: &Decimal, product_id: i32) -> (r: RequestSpec)
        requires
            dec_wf(*amount),
        ensures
            r.path@ == "new_pending_order"@,
            r.query@.len() == 2,
            r.query@[0].0@ == "amount"@ && r.query@[0].1@ == ascii_view(dec_bytes(*amount)),
            r.query@[1].0@ == "product_id"@ && r.query@[1].1@ == ascii_view(
                int_bytes(product_id as int),
            ),
            uses_identity(r, *self),
    {
        let mut query: Vec<(String, String)> = Vec::new();
        query.push(pair("amount", format_decimal(amount)));
        query.push(pair("product_id", int_string(product_id as i64)));
        self.request("new_pending_order".to_owned(), query)
    }

    /// Creates a product; the relation lists ride as JSON arrays, the
    /// brand only when one was chosen.
    pub fn new_product(
        &self,
        upc: &str,
        name: &str,
        description: &str,
        measure_by_weight: bool,
        cost_price_per_unit: &Decimal,
        selling_price_per_unit: &Decimal,
        buy_level: &Decimal,
        categories: &Vec<i32>,
        suppliers: &Vec<i32>,
        brand: Option<i32>,
    ) -> (r: RequestSpec)
        requires
            dec_wf(*cost_price_per_unit),
            dec_wf(*selling_price_per_unit),
            dec_wf(*buy_level),
        ensures
            r.path@ == "new_product"@,
            r.query@.len() == (if brand is Some {
                10int
            } else {
                9int
            }),
            r.query@[0].0@ == "upc"@ && r.query@[0].1@ == upc@,
            r.query@[1].0@ == "name"@ && r.query@[1].1@ == name@,
            r.query@[2].0@ == "description"@ && r.query@[2].1@ == description@,
            r.query@[3].0@ == "measure_by_weight"@ && r.query@[3].1@ == ascii_view(
                bool_bytes(measure_by_weight),
            ),
            r.query@[4].0@ == "cost_price_per_unit"@ && r.query@[4].1@ == ascii_view(
                dec_bytes(*cost_price_per_unit),
            ),
            r.query@[5].0@ == "selling_price_per_unit"@ && r.query@[5].1@ == ascii_view(
                dec_bytes(*selling_price_per_unit),
            ),
            r.query@[6].0@ == "categories"@ && r.query@[6].1@ == ascii_view(
                int_list_bytes(categories@),
            ),
            r.query@[7].0@ == "suppliers"@ && r.query@[7].1@ == ascii_view(
                int_list_bytes(suppliers@),
            ),
            brand matches Some(b) ==> r.query@[8].0@ == "brand"@ && r.query@[8].1@ == ascii_view(
                int_bytes(b as int),
            ) && r.query@[9].0@ == "buy_level"@ && r.query@[9].1@ == ascii_view(
                dec_bytes(*buy_level),
            ),
            brand is None ==> r.query@[8].0@ == "buy_level"@ && r.query@[8].1@ == ascii_view(
                dec_bytes(*buy_level),
            ),
            uses_identity(r, *self),
    {
        let mut query: Vec<(String, String)> = Vec::new();
        query.push(pair("upc", upc.to_owned()));
        query.push(pair("name", name.to_owned()));
        query.push(pair("description", description.to_owned()));
        query.push(pair("measure_by_weight", bool_string(measure_by_weight)));
        query.push(pair("cost_price_per_unit", format_decimal(cost_price_per_unit)));
        query.push(pair("selling_price_per_unit", format_decimal(selling_price_per_unit)));
        query.push(pair("categories", int_list_string(categories)));
        query.push(pair("suppliers", int_list_string(suppliers)));
        match brand {
            Some(b) => {
                query.push(pair("brand", int_string(b as i64)));
            },
            None => {},
        }
        query.push(pair("buy_level", format_decimal(buy_level)));
        self.request("new_product".to_owned(), query)
    }

    /// Converts a pending order into a received order server-side; the
    /// date travels as a timestamp of seconds.
    pub fn mark_as_received(
        &self,
        id: i32,
        date: &DateTime,
        actually_received: &Decimal,
        damaged: &Decimal,
    ) -> (r: RequestSpec)
        requires
            datetime_wf(*date),
            dec_wf(*actually_received),
            dec_wf(*damaged),
        ensures
            r.path@ == "mark_order_as_received"@,
            r.query@.len() == 4,
            r.query@[0].0@ == "order_id"@ && r.query@[0].1@ == ascii_view(int_bytes(id as int)),
            r.query@[1].0@ == "date"@ && r.query@[1].1@ == ascii_view(
                int_bytes(spec_timestamp(*date)),
            ),
            r.query@[2].0@ == "actually_received"@ && r.query@[2].1@ == ascii_view(
                dec_bytes(*actually_received),
            ),
            r.query@[3].0@ == "damaged"@ && r.query@[3].1@ == ascii_view(dec_bytes(*damaged)),
            uses_identity(r, *self),
    {
        let mut query: Vec<(String, String)> = Vec::new();
        query.push(pair("order_id", int_string(id as i64)));
        query.push(pair("date", int_string(date_timestamp(date))));
        query.push(pair("actually_received", format_decimal(actually_received)));
        query.push(pair("damaged", format_decimal(damaged)));
        self.request("mark_order_as_received".to_owned(), query)
    }

    /// The name-only projection of the product list.
    pub fn product_names(&self) -> (r: RequestSpec)
        ensures
            r.path@ == "products/names"@,
            r.query@.len() == 0,
            uses_identity(r, *self),
    {
        self.request("products/names".to_owned(), Vec::new())
    }

    /// The name-only projection of the category list.
    pub fn category_names(&self) -> (r: RequestSpec)
        ensures
            r.path@ == "categories/names"@,
            r.query@.len() == 0,
            uses_identity(r, *self),
    {
        self.request("categories/names".to_owned(), Vec::new())
    }

    /// The name-only projection of the supplier list.
    pub fn supplier_names(&self) -> (r: RequestSpec)
        ensures
            r.path@ == "suppliers/names"@,
            r.query@.len() == 0,
            uses_identity(r, *self),
    {
        self.request("suppliers/names".to_owned(), Vec::new())
    }

    /// The name-only projection of the brand list.
    pub fn brand_names(&self) -> (r: RequestSpec)
        ensures
            r.path@ == "brands/names"@,
            r.query@.len() == 0,
            uses_identity(r, *self),
    {
        self.request("brands/names".to_owned(), Vec::new())
    }

    fn remove_by_id(&self, prefix: &str, id: i32) -> (r: RequestSpec)
        ensures
            r.path@ == prefix@ + ascii_view(int_bytes(id as int)),
            r.query@.len() == 0,
            uses_identity(r, *self),
    {
        self.request(prefix.to_owned().concat(int_string(id as i64).as_str()), Vec::new())
    }

    /// Deletes a product by id; the caller sees no distinct signal for a
    /// missing one.
    pub fn remove_product(&self, id: i32) -> (r: RequestSpec)
        ensures
            r.path@ == "remove_product/"@ + ascii_view(int_bytes(id as int)),
            r.query@.len() == 0,
            uses_identity(r, *self),
    {
        self.remove_by_id("remove_product/", id)
    }

    /// Deletes a category by id.
    pub fn remove_category(&self, id: i32) -> (r: RequestSpec)
        ensures
            r.path@ == "remove_category/"@ + ascii_view(int_bytes(id as int)),
            r.query@.len() == 0,
            uses_identity(r, *self),
    {
        self.remove_by_id("remove_category/", id)
    }

    /// Deletes a brand by id.
    pub fn remove_brand(&self, id: i32) -> (r: RequestSpec)
        ensures
            r.path@ == "remove_brand/"@ + ascii_view(int_bytes(id as int)),
            r.query@.len() == 0,
            uses_identity(r, *self),
    {
        self.remove_by_id("remove_brand/", id)
    }

    /// Deletes a supplier by id.
    pub fn remove_supplier(&self, id: i32) -> (r: RequestSpec)
        ensures
            r.path@ == "remove_supplier/"@ + ascii_view(int_bytes(id as int)),
            r.query@.len() == 0,
            uses_identity(r, *self),
    {
        self.remove_by_id("remove_supplier/", id)
    }

    /// Deletes a pending order by id.
    pub fn remove_pending_order(&self, id: i32) -> (r: RequestSpec)
        ensures
            r.path@ == "remove_pending_order/"@ + ascii_view(int_bytes(id as int)),
            r.query@.len() == 0,
            uses_identity(r, *self),
    {
        self.remove_by_id("remove_pending_order/", id)
    }

    /// Deletes a received order by id.
    pub fn remove_received_order(&self, id: i32) -> (r: RequestSpec)
        ensures
            r.path@ == "remove_received_order/"@ + ascii_view(int_bytes(id as int)),
            r.query@.len() == 0,
            uses_identity(r, *self),
    {
        self.remove_by_id("remove_received_order/", id)
    }

    fn paginated(&self, path: &str, limit: i64, offset: i64) -> (r: RequestSpec)
        ensures
            r.path@ == path@,
            r.query@.len() == 2,
            r.query@[0].0@ == "limit"@ && r.query@[0].1@ == ascii_view(int_bytes(limit as int)),
            r.query@[1].0@ == "offset"@ && r.query@[1].1@ == ascii_view(int_bytes(offset as int)),
            uses_identity(r, *self),
    {
        let mut query: Vec<(String, String)> = Vec::new();
        query.push(pair("limit", int_string(limit)));
        query.push(pair("offset", int_string(offset)));
        self.request(path.to_owned(), query)
    }

    /// A page of the product list.
    pub fn get_products(&self, limit: i64, offset: i64) -> (r: RequestSpec)
        ensures
            r.path@ == "products"@,
            r.query@.len() == 2,
            r.query@[0].0@ == "limit"@ && r.query@[0].1@ == ascii_view(int_bytes(limit as int)),
            r.query@[1].0@ == "offset"@ && r.query@[1].1@ == ascii_view(int_bytes(offset as int)),
            uses_identity(r, *self),
    {
        self.paginated("products", limit, offset)
    }

    /// A page of the pending-order list.
    pub fn get_pending_orders(&self, limit: i64, offset: i64) -> (r: RequestSpec)
        ensures
            r.path@ == "pending_orders"@,
            r.query@.len() == 2,
            r.query@[0].0@ == "limit"@ && r.query@[0].1@ == ascii_view(int_bytes(limit as int)),
            r.query@[1].0@ == "offset"@ && r.query@[1].1@ == ascii_view(int_bytes(offset as int)),
            uses_identity(r, *self),
    {
        self.paginated("pending_orders", limit, offset)
    }

    /// A page of the received-order list.
    pub fn get_received_orders(&self, limit: i64, offset: i64) -> (r: RequestSpec)
        ensures
            r.path@ == "received_orders"@,
            r.query@.len() == 2,
            r.query@[0].0@ == "limit"@ && r.query@[0].1@ == ascii_view(int_bytes(limit as int)),
            r.query@[1].0@ == "offset"@ && r.query@[1].1@ == ascii_view(int_bytes(offset as int)),
            uses_identity(r, *self),
    {
        self.paginated("received_orders", limit, offset)
    }

    /// A page of the brand list.
    pub fn get_brands(&self, limit: i64, offset: i64) -> (r: RequestSpec)
        ensures
            r.path@ == "brands"@,
            r.query@.len() == 2,
            r.query@[0].0@ == "limit"@ && r.query@[0].1@ == ascii_view(int_bytes(limit as int)),
            r.query@[1].0@ == "offset"@ && r.query@[1].1@ == ascii_view(int_bytes(offset as int)),
            uses_identity(r, *self),
    {
        self.paginated("brands", limit, offset)
    }

    /// A page of the category list.
    pub fn get_categories(&self, limit: i64, offset: i64) -> (r: RequestSpec)
        ensures
            r.path@ == "categories"@,
            r.query@.len() == 2,
            r.query@[0].0@ == "limit"@ && r.query@[0].1@ == ascii_view(int_bytes(limit as int)),
            r.query@[1].0@ == "offset"@ && r.query@[1].1@ == ascii_view(int_bytes(offset as int)),
            uses_identity(r, *self),
    {
        self.paginated("categories", limit, offset)
    }

    /// A page of the supplier list.
    pub fn get_suppliers(&self, limit: i64, offset: i64) -> (r: RequestSpec)
        ensures
            r.path@ == "suppliers"@,
            r.query@.len() == 2,
            r.query@[0].0@ == "limit"@ && r.query@[0].1@ == ascii_view(int_bytes(limit as int)),
            r.query@[1].0@ == "offset"@ && r.query@[1].1@ == ascii_view(int_bytes(offset as int)),
            uses_identity(r, *self),
    {
        self.paginated("suppliers", limit, offset)
    }

    /// A single category; a missing id surfaces as a decode failure.
    pub fn get_category(&self, id: i32) -> (r: RequestSpec)
        ensures
            r.path@ == "category/"@ + ascii_view(int_bytes(id as int)),
            r.query@.len() == 0,
            uses_identity(r, *self),
    {
        self.remove_by_id("category/", id)
    }

    /// A single supplier.
    pub fn get_supplier(&self, id: i32) -> (r: RequestSpec)
        ensures
            r.path@ == "supplier/"@ + ascii_view(int_bytes(id as int)),
            r.query@.len() == 0,
            uses_identity(r, *self),
    {
        self.remove_by_id("supplier/", id)
    }

    /// A single product.
    pub fn get_product(&self, id: i32) -> (r: RequestSpec)
        ensures
            r.path@ == "product/"@ + ascii_view(int_bytes(id as int)),
            r.query@.len() == 0,
            uses_identity(r, *self),
    {
        self.remove_by_id("product/", id)
    }

    /// The brand attached to a product, if any.
    pub fn get_product_brand(&self, product: i32) -> (r: RequestSpec)
        ensures
            r.path@ == "product_brand/"@ + ascii_view(int_bytes(product as int)),
            r.query@.len() == 0,
            uses_identity(r, *self),
    {
        self.remove_by_id("product_brand/", product)
    }

    /// The suppliers attached to a product.
    pub fn get_product_suppliers(&self, product: i32) -> (r: RequestSpec)
        ensures
            r.path@ == "product_suppliers/"@ + ascii_view(int_bytes(product as int)),
            r.query@.len() == 0,
            uses_identity(r, *self),
    {
        self.remove_by_id("product_suppliers/", product)
    }

    /// The categories attached to a product.
    pub fn get_product_categories(&self, product: i32) -> (r: RequestSpec)
        ensures
            r.path@ == "product_categories/"@ + ascii_view(int_bytes(product as int)),
            r.query@.len() == 0,
            uses_identity(r, *self),
    {
        self.remove_by_id("product_categories/", product)
    }
}


/// Reads an HTTP status: any code outside the success range is the
/// service's refusal, surfaced as its own error.
pub fn status_outcome(status: u16) -> (r: Result<(), ApiError>)
    ensures
        r is Ok <==> 200 <= status < 300,
        r is Err ==> r == Err::<(), ApiError>(ApiError::Service),
{
    if 200 <= status && status < 300 {
        Ok(())
    } else {
        Err(ApiError::Service)
    }
}

/// Reads the service's answer to a sign-up: a null body means the
/// account could not be created, anything else is success.
pub fn sign_up_outcome(response: Option<()>) -> (r: Result<(), ApiError>)
    ensures
        r is Ok <==> response is Some,
        r is Err ==> r == Err::<(), ApiError>(ApiError::Service),
{
    match response {
        Some(u) => Ok(()),
        None => Err(ApiError::Service),
    }
}

} // verus!
