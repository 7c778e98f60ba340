use inventory_system_app::DeleteError;
use inventory_system_app::Product;
use inventory_system_app::ValidationError;
use inventory_system_app::append_product;
use inventory_system_app::create;
use inventory_system_app::delete;
use inventory_system_app::delete_by_name;
use inventory_system_app::load_from_text;
use inventory_system_app::remove_at;
use inventory_system_app::save_to_text;
use inventory_system_app::snapshot_for_display;

fn product(name: &str, quantity: usize, price: u64, tax: u64, total: u64) -> Product {
    Product {
        product_name: name.to_string(),
        quantity,
        price_per_unit: price,
        sales_tax: tax,
        total_price: total,
    }
}

#[test]
fn test_save_and_load_products() {
    // Money amounts count thousandths: 20.0 -> 20000, 1.2 -> 1200, 212.0 -> 212000.
    let products = vec![product("Example", 10, 20000, 1200, 212000)];

    let text = save_to_text(&products);
    assert!(!text.is_empty());

    let loaded_products = load_from_text(Some(&text));
    assert_eq!(loaded_products, products);

    let mut remaining = loaded_products;
    delete_by_name(&mut remaining, &products[0].product_name);
    assert!(remaining.is_empty());
}

#[test]
fn test_round_trip_awkward_names() {
    let products = vec![
        product("plain name", 1, 1, 0, 1),
        product("with \"quotes\"", 2, 10, 1, 22),
        product("back\\slash \\\" mix", 3, 999, 99, 3294),
        product("unicode \u{e9}\u{4e16}", 4, 5, 0, 20),
    ];
    let text = save_to_text(&products);
    let loaded = load_from_text(Some(&text));
    assert_eq!(loaded, products);
}

#[test]
fn test_round_trip_empty_inventory() {
    let products: Vec<Product> = Vec::new();
    let text = save_to_text(&products);
    assert_eq!(text, "[]");
    assert_eq!(load_from_text(Some(&text)), products);
}

#[test]
fn test_round_trip_largest_values() {
    let products = vec![product("max", usize::MAX, u64::MAX, u64::MAX, u64::MAX)];
    let text = save_to_text(&products);
    assert_eq!(load_from_text(Some(&text)), products);
}

#[test]
fn test_encode_exact_document() {
    let p = create("A".to_string(), 2, 10000).unwrap();
    let text = save_to_text(&vec![p]);
    assert_eq!(
        text,
        "[{\"product_name\":\"A\",\"quantity\":2,\"price_per_unit\":10000,\
         \"sales_tax\":1000,\"total_price\":22000}]"
    );
}

#[test]
fn test_create_derived_fields() {
    // create("Widget", 10, 20.0): tax = 2.0, total = (20.0 + 2.0) * 10 = 220.0.
    let p = create("Widget".to_string(), 10, 20000).unwrap();
    assert_eq!(p.product_name, "Widget");
    assert_eq!(p.quantity, 10);
    assert_eq!(p.price_per_unit, 20000);
    assert_eq!(p.sales_tax, 2000);
    assert_eq!(p.total_price, 220000);
}

#[test]
fn test_create_rejects_empty_name() {
    assert_eq!(create(String::new(), 5, 10000), Err(ValidationError::EmptyName));
}

#[test]
fn test_create_rejects_zero_quantity() {
    assert_eq!(create("X".to_string(), 0, 10000), Err(ValidationError::InvalidQuantity));
}

#[test]
fn test_create_rejects_zero_price() {
    assert_eq!(create("X".to_string(), 5, 0), Err(ValidationError::InvalidPrice));
}

#[test]
fn test_delete_by_name_middle() {
    let a = product("A", 1, 100, 10, 110);
    let b = product("B", 2, 200, 20, 440);
    let c = product("C", 3, 300, 30, 990);
    let mut inv = vec![a.clone(), b, c.clone()];
    delete_by_name(&mut inv, &"B".to_string());
    assert_eq!(inv, vec![a, c]);
}

#[test]
fn test_delete_by_name_absent_is_identity() {
    let a = product("A", 1, 100, 10, 110);
    let b = product("B", 2, 200, 20, 440);
    let mut inv = vec![a.clone(), b.clone()];
    delete_by_name(&mut inv, &"Zed".to_string());
    assert_eq!(inv, vec![a, b]);
}

#[test]
fn test_delete_by_name_removes_duplicates() {
    let a = product("A", 1, 100, 10, 110);
    let b1 = product("B", 2, 200, 20, 440);
    let b2 = product("B", 9, 900, 90, 8910);
    let mut inv = vec![b1, a.clone(), b2];
    delete_by_name(&mut inv, &"B".to_string());
    assert_eq!(inv, vec![a]);
}

#[test]
fn test_remove_at_second_of_three() {
    let a = product("A", 1, 100, 10, 110);
    let b = product("B", 2, 200, 20, 440);
    let c = product("C", 3, 300, 30, 990);
    let mut inv = vec![a.clone(), b.clone(), c.clone()];
    let removed = remove_at(&mut inv, 2).unwrap();
    assert_eq!(removed, b);
    assert_eq!(inv, vec![a, c]);
}

#[test]
fn test_remove_at_out_of_range() {
    let a = product("A", 1, 100, 10, 110);
    let b = product("B", 2, 200, 20, 440);
    let mut inv = vec![a.clone(), b.clone()];
    assert_eq!(remove_at(&mut inv, 0), Err(DeleteError::OutOfRange));
    assert_eq!(inv, vec![a.clone(), b.clone()]);
    assert_eq!(remove_at(&mut inv, 3), Err(DeleteError::OutOfRange));
    assert_eq!(inv, vec![a, b]);
}

#[test]
fn test_delete_by_text_index() {
    let a = product("A", 1, 100, 10, 110);
    let b = product("B", 2, 200, 20, 440);
    let mut inv = vec![a.clone(), b.clone()];

    assert_eq!(delete(&mut inv, "two"), Err(DeleteError::NotANumber));
    assert_eq!(inv, vec![a.clone(), b.clone()]);
    assert_eq!(delete(&mut inv, ""), Err(DeleteError::NotANumber));
    assert_eq!(delete(&mut inv, "0"), Err(DeleteError::OutOfRange));
    assert_eq!(delete(&mut inv, "3"), Err(DeleteError::OutOfRange));
    assert_eq!(inv, vec![a.clone(), b.clone()]);

    assert_eq!(delete(&mut inv, "2"), Ok(()));
    assert_eq!(inv, vec![a]);
}

#[test]
fn test_load_fail_open() {
    // No readable store at all.
    assert!(load_from_text(None).is_empty());
    // Text that is not a well-formed document.
    assert!(load_from_text(Some("not an inventory")).is_empty());
    assert!(load_from_text(Some("[{\"product_name\":\"A\"")).is_empty());
    assert!(load_from_text(Some("")).is_empty());
    assert!(load_from_text(Some("[]trailing")).is_empty());
    // The reader takes exactly the compact shape the writer emits;
    // anything else falls open to the empty inventory.
    assert!(load_from_text(Some("[ ]")).is_empty());
}

#[test]
fn test_parse_handwritten_document() {
    let text = "[{\"product_name\":\"q\\\"x\\\\y\",\"quantity\":1,\"price_per_unit\":2,\
        \"sales_tax\":0,\"total_price\":2}]";
    let loaded = load_from_text(Some(text));
    assert_eq!(loaded.len(), 1);
    assert_eq!(loaded[0].product_name, "q\"x\\y");
    assert_eq!(loaded[0].quantity, 1);
    assert_eq!(loaded[0].price_per_unit, 2);
    assert_eq!(loaded[0].sales_tax, 0);
    assert_eq!(loaded[0].total_price, 2);
}

#[test]
fn test_append_and_snapshot() {
    let mut inv: Vec<Product> = Vec::new();
    append_product(&mut inv, product("A", 1, 100, 10, 110));
    append_product(&mut inv, product("B", 2, 200, 20, 440));
    assert_eq!(inv.len(), 2);
    assert_eq!(inv[1].product_name, "B");

    let view = snapshot_for_display(&inv);
    assert_eq!(view.len(), 2);
    assert_eq!(view[0].0, 1);
    assert_eq!(view[0].1.product_name, "A");
    assert_eq!(view[1].0, 2);
    assert_eq!(view[1].1.product_name, "B");
}

#[test]
fn test_number_too_large_rejected() {
    // One digit past the largest machine word: the document is rejected,
    // so loading falls open to the empty inventory.
    let text = "[{\"product_name\":\"A\",\"quantity\":1,\"price_per_unit\":99999999999999999999,\
        \"sales_tax\":0,\"total_price\":0}]";
    assert!(load_from_text(Some(text)).is_empty());
}
