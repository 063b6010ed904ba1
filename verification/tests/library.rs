use inventory_gateway::adapter::{
    received_from_pending, AppBrand, AppPendingOrder, AppProduct, AppReceivedOrder, AppSupplier,
};
use inventory_gateway::date::{format_date, parse_date, Date};
use inventory_gateway::decimal::{format_decimal, parse_decimal, Decimal};
use inventory_gateway::err_to_string;
use inventory_gateway::gateway::{int_list_string, sign_up_outcome, status_outcome, Api};
use inventory_gateway::models::{Brand, PendingOrder, Product, ReceivedOrder, Supplier};
use inventory_gateway::ranking::{
    is_numeric_search, sort_brands, sort_categories, sort_products, sort_suppliers, BrandName,
    CategoryName, ProductName, SupplierName,
};
use inventory_gateway::validate::{supplier_for_save, validate_email, validate_phone_number};
use inventory_gateway::ApiError;

fn dec(s: &str) -> Decimal {
    parse_decimal(s).unwrap()
}

// ---------------------------------------------------------------------
// Decimals

#[test]
fn decimal_round_trips_exactly() {
    for lit in ["1.50", "2.99", "0.05", "10.0", "-3.25", "0", "12345", "0.00"] {
        let d = parse_decimal(lit).unwrap();
        assert_eq!(format_decimal(&d), lit);
    }
}

#[test]
fn decimal_parse_normalizes_redundant_forms() {
    assert_eq!(format_decimal(&dec("+01.50")), "1.50");
    assert_eq!(format_decimal(&dec("-0.00")), "0.00");
    assert_eq!(format_decimal(&dec("007")), "7");
}

#[test]
fn decimal_parse_rejects_non_literals() {
    for bad in ["", "$1.50", "1.", ".5", "1.5.0", "1,50", "1e3", " 1", "1 ", "--1", "abc"] {
        assert_eq!(parse_decimal(bad), Err(ApiError::Parse), "input {:?}", bad);
    }
}

// ---------------------------------------------------------------------
// Dates

#[test]
fn date_parses_and_formats() {
    let d = parse_date("03/14/2024").unwrap();
    assert_eq!(d, Date { year: 2024, month: 3, day: 14 });
    assert_eq!(format_date(&d), "03/14/2024");
}

#[test]
fn date_rejects_bad_shapes_and_impossible_days() {
    for bad in ["", "3/14/2024", "03-14-2024", "02/30/2023", "13/01/2023", "00/10/2023",
        "02/29/2023", "03/14/24"] {
        assert_eq!(parse_date(bad), Err(ApiError::Parse), "input {:?}", bad);
    }
    // a leap day in a leap year is fine
    assert!(parse_date("02/29/2024").is_ok());
}

// ---------------------------------------------------------------------
// Adapter round trips

#[test]
fn product_round_trips_through_ui() {
    let wire = Product {
        id: 4,
        upc: "012345678905".to_string(),
        name: "Widget".to_string(),
        description: "A widget".to_string(),
        amount: dec("3.0"),
        case_size: Some(12),
        measure_by_weight: false,
        cost_price_per_unit: dec("1.50"),
        selling_price_per_unit: dec("2.99"),
        sale_end: None,
        buy_level: Some(dec("2.0")),
        sale_price: None,
    };
    let ui = AppProduct::from_product(wire.clone());
    assert_eq!(ui.cost_price, "1.50");
    assert_eq!(ui.selling_price, "2.99");
    let back = ui.to_product().unwrap();
    assert_eq!(back, wire);
}

#[test]
fn product_to_wire_rejects_currency_symbols() {
    let wire = Product {
        id: 1,
        upc: String::new(),
        name: String::new(),
        description: String::new(),
        amount: dec("0"),
        case_size: None,
        measure_by_weight: false,
        cost_price_per_unit: dec("1.50"),
        selling_price_per_unit: dec("2.99"),
        sale_end: None,
        buy_level: None,
        sale_price: None,
    };
    let mut ui = AppProduct::from_product(wire);
    ui.cost_price = "$1.50".to_string();
    assert_eq!(ui.to_product(), Err(ApiError::Parse));
}

#[test]
fn brand_round_trips_and_empty_slot_is_decode_error() {
    let wire = Brand {
        id: 9,
        name: "Acme".to_string(),
        products: vec![Some(1), Some(2), Some(3)],
    };
    let ui = AppBrand::from_brand(wire.clone()).unwrap();
    assert_eq!(ui.products, vec![1, 2, 3]);
    assert_eq!(ui.to_brand().unwrap(), wire);

    let holed = Brand { id: 9, name: "Acme".to_string(), products: vec![Some(1), None] };
    assert_eq!(AppBrand::from_brand(holed), Err(ApiError::Decode));
}

#[test]
fn supplier_round_trips_with_absent_contact_as_empty_string() {
    let wire = Supplier {
        id: 2,
        products: vec![Some(7)],
        name: "North".to_string(),
        phone_number: None,
        email: Some("a@b.com".to_string()),
    };
    let ui = AppSupplier::from_supplier(wire.clone()).unwrap();
    assert_eq!(ui.phone_number, "");
    assert_eq!(ui.email, "a@b.com");
    let back = ui.to_supplier().unwrap();
    assert_eq!(back, wire);
}

#[test]
fn received_order_round_trips_on_midnight() {
    let ui = AppReceivedOrder {
        id: 5,
        product_id: 6,
        gross_amount: dec("10.0"),
        actually_received: dec("9.0"),
        damaged: dec("1.0"),
        received: "03/14/2024".to_string(),
    };
    let wire: ReceivedOrder = ui.to_order().unwrap();
    let dt = wire.received.unwrap();
    assert_eq!(dt.date, Date { year: 2024, month: 3, day: 14 });
    assert_eq!(dt.secs, 0);
    let again = AppReceivedOrder::from_order(wire);
    assert_eq!(again.received, "03/14/2024");
    assert_eq!(format_decimal(&again.gross_amount), "10.0");
}

#[test]
fn received_order_without_date_shows_epoch() {
    let wire = ReceivedOrder {
        id: 1,
        received: None,
        product_id: 2,
        gross_amount: dec("1"),
        actually_received: dec("1"),
        damaged: dec("0"),
    };
    let ui = AppReceivedOrder::from_order(wire);
    assert_eq!(ui.received, "01/01/1970");
}

#[test]
fn pending_order_round_trips() {
    let wire = PendingOrder { id: 3, product_id: 8, amount: dec("4.5") };
    let ui = AppPendingOrder::from_order(wire.clone());
    assert_eq!(ui.product, 8);
    assert_eq!(ui.to_order().unwrap(), wire);
}

// ---------------------------------------------------------------------
// Validation

#[test]
fn empty_contact_fields_are_valid() {
    assert!(validate_email(""));
    assert!(validate_phone_number(""));
}

#[test]
fn email_syntax() {
    assert!(!validate_email("not-an-email"));
    assert!(validate_email("user.name+tag@example.co"));
    assert!(validate_email("a@b.io"));
    assert!(!validate_email("a@b"));
    assert!(!validate_email("@b.com"));
    assert!(!validate_email("a@.c"));
    assert!(!validate_email("a@b.c"));
    assert!(!validate_email("a b@c.com"));
}

#[test]
fn phone_syntax() {
    assert!(!validate_phone_number("555-1234"));
    assert!(validate_phone_number("(555) 012-1234"));
    assert!(validate_phone_number("555-012-1234"));
    assert!(validate_phone_number("+1 (555) 012-1234"));
    assert!(validate_phone_number("5550121234"));
    assert!(validate_phone_number("555-012-1234 ext 7"));
    assert!(validate_phone_number("555-012-1234x99"));
    assert!(!validate_phone_number("(155) 012-1234"));
    assert!(!validate_phone_number("words"));
}

#[test]
fn supplier_save_gate() {
    let base = AppSupplier {
        id: 1,
        name: "North".to_string(),
        email: "a@b.com".to_string(),
        phone_number: "(555) 012-1234".to_string(),
        products: vec![1],
    };
    assert!(supplier_for_save(&base).is_ok());

    let mut both_empty = base.clone();
    both_empty.email = String::new();
    both_empty.phone_number = String::new();
    assert_eq!(supplier_for_save(&both_empty), Err(ApiError::Validation));

    let mut bad_phone = base.clone();
    bad_phone.phone_number = "555-1234".to_string();
    assert_eq!(supplier_for_save(&bad_phone), Err(ApiError::Validation));

    let mut only_email = base.clone();
    only_email.phone_number = String::new();
    assert!(supplier_for_save(&only_email).is_ok());
}

// ---------------------------------------------------------------------
// Ranking

#[test]
fn empty_search_keeps_order() {
    let names = vec![
        CategoryName { name: "Dairy".to_string(), id: 1 },
        CategoryName { name: "Bakery".to_string(), id: 2 },
        CategoryName { name: "Frozen Goods".to_string(), id: 3 },
    ];
    let out = sort_categories(names.clone(), "");
    assert_eq!(out, names);
}

#[test]
fn exact_name_match_comes_first() {
    let names = vec![
        BrandName { name: "Alpha".to_string(), id: 1 },
        BrandName { name: "Widget".to_string(), id: 2 },
        BrandName { name: "Gadget".to_string(), id: 3 },
    ];
    let out = sort_brands(names, "Widget");
    assert_eq!(out[0].name, "Widget");
}

#[test]
fn suppliers_rank_by_similarity() {
    let names = vec![
        SupplierName { name: "Farm Fresh".to_string(), id: 1 },
        SupplierName { name: "Northern Supply".to_string(), id: 2 },
    ];
    let out = sort_suppliers(names, "Northern Supply");
    assert_eq!(out[0].id, 2);
}

#[test]
fn numeric_search_ranks_products_by_upc() {
    let names = vec![
        ProductName { name: "Widget".to_string(), upc: "1111".to_string(), id: 1 },
        ProductName { name: "0123".to_string(), upc: "0123".to_string(), id: 2 },
    ];
    let out = sort_products(names.clone(), "0123");
    assert_eq!(out[0].id, 2);
    // a word search ranks by name
    let out2 = sort_products(names, "Widget");
    assert_eq!(out2[0].id, 1);
}

// ---------------------------------------------------------------------
// Gateway requests

#[test]
fn requests_carry_one_identity_only() {
    let old_api = Api::new("alice", "pw1");
    let new_api = Api::new("bob", "pw2");
    let in_flight = old_api.get_products(50, 0);
    let after = new_api.get_products(50, 0);
    assert_eq!(in_flight.username, "alice");
    assert_eq!(in_flight.password, "pw1");
    assert_eq!(after.username, "bob");
    assert_eq!(after.password, "pw2");
}

#[test]
fn paginated_request_shape() {
    let api = Api::new("u", "p");
    let r = api.get_products(50, 100);
    assert_eq!(r.path, "products");
    assert_eq!(r.query, vec![
        ("limit".to_string(), "50".to_string()),
        ("offset".to_string(), "100".to_string()),
    ]);
}

#[test]
fn remove_and_single_fetch_paths() {
    let api = Api::new("u", "p");
    assert_eq!(api.remove_product(-7).path, "remove_product/-7");
    assert_eq!(api.get_category(12).path, "category/12");
    assert_eq!(api.init_request().path, "initialize/u/p/");
}

#[test]
fn new_product_request_embeds_exact_prices() {
    let api = Api::new("u", "p");
    let r = api.new_product(
        "012345678905",
        "Widget",
        "A widget",
        false,
        &dec("1.50"),
        &dec("2.99"),
        &dec("0"),
        &vec![1, 2],
        &vec![3],
        Some(9),
    );
    assert_eq!(r.path, "new_product");
    assert_eq!(r.query[4], ("cost_price_per_unit".to_string(), "1.50".to_string()));
    assert_eq!(r.query[5], ("selling_price_per_unit".to_string(), "2.99".to_string()));
    assert_eq!(r.query[6], ("categories".to_string(), "[1,2]".to_string()));
    assert_eq!(r.query[7], ("suppliers".to_string(), "[3]".to_string()));
    assert_eq!(r.query[8], ("brand".to_string(), "9".to_string()));
    assert_eq!(r.query[9], ("buy_level".to_string(), "0".to_string()));
    assert_eq!(r.query[3], ("measure_by_weight".to_string(), "false".to_string()));

    let no_brand = api.new_product(
        "1", "n", "d", true, &dec("1"), &dec("2"), &dec("0"), &vec![], &vec![], None,
    );
    assert_eq!(no_brand.query.len(), 9);
    assert_eq!(no_brand.query[8].0, "buy_level");
}

#[test]
fn mark_as_received_sends_midnight_timestamp() {
    let api = Api::new("u", "p");
    let order = AppPendingOrder { id: 40, product: 8, amount: dec("10.0") };
    let received = received_from_pending(&order, "03/14/2024", &dec("9.0"), &dec("1.0"), 41);
    assert_eq!(received.id, 41);
    assert_eq!(received.product_id, 8);
    assert_eq!(format_decimal(&received.gross_amount), "10.0");
    assert_eq!(received.received, "03/14/2024");

    let wire = received.to_order().unwrap();
    let r = api.mark_as_received(order.id, &wire.received.unwrap(), &dec("9.0"), &dec("1.0"));
    assert_eq!(r.path, "mark_order_as_received");
    assert_eq!(r.query[0], ("order_id".to_string(), "40".to_string()));
    // 2024-03-14 midnight, in seconds since the epoch
    assert_eq!(r.query[1], ("date".to_string(), "1710374400".to_string()));
}

#[test]
fn sign_up_outcome_reads_null_as_rejection() {
    assert_eq!(sign_up_outcome(None), Err(ApiError::Service));
    assert_eq!(sign_up_outcome(Some(())), Ok(()));
}

#[test]
fn int_lists_render_as_json_arrays() {
    assert_eq!(int_list_string(&vec![]), "[]");
    assert_eq!(int_list_string(&vec![5]), "[5]");
    assert_eq!(int_list_string(&vec![1, -2, 3]), "[1,-2,3]");
}

#[test]
fn error_messages_are_stable() {
    assert_eq!(err_to_string(&ApiError::Transport), "transport failure");
    assert_eq!(err_to_string(&ApiError::Service), "service rejected the request");
    assert_eq!(err_to_string(&ApiError::Decode), "response did not match the expected shape");
    assert_eq!(err_to_string(&ApiError::Parse), "input could not be parsed");
    assert_eq!(err_to_string(&ApiError::Validation), "not a valid input");
}

#[test]
fn phone_extension_forms() {
    assert!(validate_phone_number("(555) 012-1234 extension 12"));
    assert!(validate_phone_number("(555) 012-1234 ext. 12"));
    assert!(validate_phone_number("(555) 012-1234#12"));
    assert!(!validate_phone_number("(555) 012-1234 ext"));
    assert!(!validate_phone_number("(555) 012-1234 12"));
}

#[test]
fn email_accepts_upper_case() {
    assert!(validate_email("Sales@Example.COM"));
    assert!(!validate_email("sales@example.c0m"));
}

#[test]
fn update_requests_embed_serialized_records() {
    let api = Api::new("u", "p");
    let r = api.update_supplier("{\"id\":1}");
    assert_eq!(r.path, "update_supplier");
    assert_eq!(r.query, vec![("supplier_info".to_string(), "{\"id\":1}".to_string())]);
    let r2 = api.update_user("{}");
    assert_eq!(r2.path, "update_user/{}");
    assert!(r2.query.is_empty());
}

#[test]
fn non_success_status_is_a_service_error() {
    assert_eq!(status_outcome(200), Ok(()));
    assert_eq!(status_outcome(204), Ok(()));
    assert_eq!(status_outcome(299), Ok(()));
    assert_eq!(status_outcome(199), Err(ApiError::Service));
    assert_eq!(status_outcome(300), Err(ApiError::Service));
    assert_eq!(status_outcome(404), Err(ApiError::Service));
    assert_eq!(status_outcome(500), Err(ApiError::Service));
}

#[test]
fn numeric_search_follows_the_float_grammar() {
    for numeric in ["0123", "1e5", ".5", "5.", "-3.5e-2", "+2", "inf", "Infinity", "NaN", "1.2E3"] {
        assert!(is_numeric_search(numeric), "input {:?}", numeric);
        assert_eq!(numeric.parse::<f64>().is_ok(), true, "input {:?}", numeric);
    }
    for word in ["", "Widget", "e5", ".", "1.2.3", "12a", "inf5", "+-1", "1e"] {
        assert!(!is_numeric_search(word), "input {:?}", word);
        assert_eq!(word.parse::<f64>().is_ok(), false, "input {:?}", word);
    }
}

#[test]
fn exponent_searches_rank_by_upc() {
    let names = vec![
        ProductName { name: "1e5".to_string(), upc: "9999".to_string(), id: 1 },
        ProductName { name: "Bulbs".to_string(), upc: "1e5x".to_string(), id: 2 },
    ];
    // "1e5" reads as a number, so it ranks against the UPC, not the
    // exactly matching name
    let out = sort_products(names, "1e5");
    assert_eq!(out[0].id, 2);
}
