use aerospike_rust_workshop::bin_value::{BinKey, BinValue};
use aerospike_rust_workshop::cart::Cart;
use aerospike_rust_workshop::cart_item::{default_quantity, CartItem};
use aerospike_rust_workshop::cart_ops::{
    add_write_step, clear_write_succeeded, plan_add_to_cart, plan_remove_from_cart, plan_update_cart_item,
    product_not_found, AddFault,
    CartWrite, NextStep, WriteGuard, WriteOutcome,
};
use aerospike_rust_workshop::fields::DecodeError;
use aerospike_rust_workshop::json::Json;
use aerospike_rust_workshop::product::Product;
use aerospike_rust_workshop::strmap::StrMap;

fn item(id: &str, quantity: i32) -> CartItem {
    CartItem {
        product_id: id.to_string(),
        name: Some(format!("Product {id}")),
        price: 100,
        brand_name: None,
        quantity,
        image: None,
        user_id: Some("u1".to_string()),
    }
}

fn product(id: Option<&str>) -> Product {
    let res = |u: &str| {
        let mut r: StrMap<Json> = StrMap::new();
        r.insert("125X161".to_string(), Json::Str(u.to_string()));
        let mut v: StrMap<Json> = StrMap::new();
        v.insert("resolutions".to_string(), Json::Object(r));
        Json::Object(v)
    };
    let mut images: StrMap<Json> = StrMap::new();
    images.insert("front".to_string(), res("front.jpg"));
    Product {
        id: id.map(str::to_string),
        brand_name: Some("Brand".to_string()),
        images: Some(Json::Object(images)),
        sub_category: None,
        gender: None,
        sale_price: None,
        added: None,
        usage: None,
        display_cat: None,
        age_group: None,
        colors: None,
        descriptors: None,
        article_type: None,
        price: Some(2500),
        name: Some("Shoe".to_string()),
        options: None,
        season: None,
        article_attr: None,
        variant_name: None,
        category: None,
    }
}

fn cart_record(items: Vec<&CartItem>) -> StrMap<BinValue> {
    let entries = items
        .into_iter()
        .map(|i| (BinKey::Str(i.product_id.clone()), i.to_value()))
        .collect();
    let mut bins: StrMap<BinValue> = StrMap::new();
    bins.insert("items".to_string(), BinValue::HashMap(entries));
    bins
}

fn ids(c: &Cart) -> Vec<String> {
    c.items_list().iter().map(|i| i.product_id.clone()).collect()
}

#[test]
fn default_quantity_is_one() {
    assert_eq!(default_quantity(), 1);
    let mut m: StrMap<Json> = StrMap::new();
    m.insert("productId".to_string(), Json::Str("p".to_string()));
    let it = CartItem::from_json(&m).unwrap();
    assert_eq!(it.quantity, 1);
    assert_eq!(it.price, 0);
}

#[test]
fn add_find_remove() {
    let mut c = Cart::new();
    assert_eq!(c.item_count(), 0);
    c.add(item("a", 2));
    c.add(item("b", 3));
    assert_eq!(c.item_count(), 5);
    assert_eq!(c.find_item("a").map(|i| i.quantity), Some(2));
    assert!(c.find_item("z").is_none());
    c.add(item("a", 7));
    assert_eq!(ids(&c), vec!["a", "b"]);
    assert_eq!(c.item_count(), 10);
    assert_eq!(c.remove("a").map(|i| i.quantity), Some(7));
    assert!(c.find_item("a").is_none());
    assert_eq!(c.remove("a"), None);
    assert_eq!(ids(&c), vec!["b"]);
}

#[test]
fn add_then_remove_restores_the_cart() {
    let mut c = Cart::default();
    c.add(item("a", 1));
    let before: Vec<CartItem> = c.items_list().into_iter().map(|i| i.deep_clone()).collect();
    c.add(item("new", 4));
    c.remove("new");
    let after: Vec<CartItem> = c.items_list().into_iter().map(|i| i.deep_clone()).collect();
    assert_eq!(before, after);
}

#[test]
fn items_change_in_place() {
    let mut c = Cart::new();
    c.add(item("a", 1));
    c.add(item("c", 4));
    if let Some(it) = c.find_item_mut("a") {
        it.quantity = 9;
    }
    assert_eq!(c.find_item("a").map(|i| i.quantity), Some(9));
    assert_eq!(c.find_item("c").map(|i| i.quantity), Some(4));
    assert_eq!(ids(&c), vec!["a".to_string(), "c".to_string()]);
    assert!(c.find_item_mut("b").is_none());
}

#[test]
fn negative_quantities_count() {
    let mut c = Cart::new();
    c.add(item("a", -4));
    c.add(item("b", i32::MAX));
    assert_eq!(c.item_count(), i32::MAX as i64 - 4);
}

#[test]
fn stored_cart_reads_back() {
    let a = item("a", 2);
    let b = item("b", 1);
    let bins = cart_record(vec![&a, &b]);
    let c = Cart::from_bins(&bins).unwrap();
    let got: Vec<CartItem> = c.items_list().into_iter().map(|i| i.deep_clone()).collect();
    assert_eq!(got, vec![a, b]);
}

#[test]
fn cart_record_entries_that_are_not_items_are_skipped() {
    let a = item("a", 2);
    let entries = vec![
        (BinKey::Str("x".to_string()), BinValue::Int(3)),
        (BinKey::Str("y".to_string()), BinValue::HashMap(vec![(BinKey::Str("quantity".to_string()), BinValue::Int(1))])),
        (BinKey::Str("a".to_string()), a.to_value()),
    ];
    let mut bins: StrMap<BinValue> = StrMap::new();
    bins.insert("items".to_string(), BinValue::OrderedMap(entries));
    let c = Cart::from_bins(&bins).unwrap();
    assert_eq!(ids(&c), vec!["a"]);
    let mut none: StrMap<BinValue> = StrMap::new();
    none.insert("items".to_string(), BinValue::Str("oops".to_string()));
    assert!(Cart::from_bins(&none).unwrap().items_list().is_empty());
    assert!(Cart::from_bins(&StrMap::new()).unwrap().items_list().is_empty());
}

#[test]
fn cart_item_bins_read_back() {
    let a = item("a", 2);
    assert_eq!(CartItem::from_bins(&a.to_bins()).unwrap(), a);
    let mut bins: StrMap<BinValue> = StrMap::new();
    bins.insert("quantity".to_string(), BinValue::Int(1));
    let e = CartItem::from_bins(&bins).unwrap_err();
    assert_eq!(e, DecodeError::MissingField("productId".to_string()));
    assert_eq!(e.message(), "missing field `productId`");
    let mut bins: StrMap<BinValue> = StrMap::new();
    bins.insert("productId".to_string(), BinValue::Str("p".to_string()));
    bins.insert("quantity".to_string(), BinValue::Int(1 << 40));
    assert!(CartItem::from_bins(&bins).is_err());
}

#[test]
fn item_for_a_product() {
    let p = product(Some("15970"));
    let it = CartItem::from_product("u9", 3, Some("img".to_string()), &p);
    assert_eq!(it.product_id, "15970");
    assert_eq!(it.price, 2500);
    assert_eq!(it.quantity, 3);
    assert_eq!(it.user_id.as_deref(), Some("u9"));
    let it = CartItem::from_product("u9", 3, None, &product(None));
    assert_eq!(it.product_id, "");
}

#[test]
fn adding_to_a_new_cart() {
    let p = product(Some("15970"));
    let plan = plan_add_to_cart("u1", "15970", 2, &p, None).unwrap();
    assert_eq!(plan.guard, WriteGuard::CreateOnly);
    let it = plan.cart.find_item("15970").unwrap();
    assert_eq!(it.quantity, 2);
    assert_eq!(it.image.as_deref(), Some("front.jpg"));
    match &plan.write {
        CartWrite::PutItem { product_id, item } => {
            assert_eq!(product_id, "15970");
            assert_eq!(item, &it.to_value());
        }
        other => panic!("unexpected write {other:?}"),
    }
}

#[test]
fn adding_to_an_existing_cart() {
    let p = product(Some("15970"));
    let other = item("a", 1);
    let bins = cart_record(vec![&other]);
    let plan = plan_add_to_cart("u1", "15970", 2, &p, Some((&bins, 7))).unwrap();
    assert_eq!(plan.guard, WriteGuard::ExpectGeneration(7));
    assert_eq!(ids(&plan.cart), vec!["a", "15970"]);
    assert!(matches!(plan.write, CartWrite::PutItem { .. }));
}

#[test]
fn adding_more_of_an_item_raises_its_quantity() {
    let p = product(Some("a"));
    let held = item("a", 3);
    let bins = cart_record(vec![&held]);
    let plan = plan_add_to_cart("u1", "a", 4, &p, Some((&bins, 2))).unwrap();
    assert_eq!(plan.guard, WriteGuard::ExpectGeneration(2));
    assert_eq!(plan.cart.find_item("a").map(|i| i.quantity), Some(7));
    assert_eq!(plan.cart.find_item("a").and_then(|i| i.name.clone()), Some("Product a".to_string()));
    match plan.write {
        CartWrite::IncrementQuantity { product_id, by } => {
            assert_eq!(product_id, "a");
            assert_eq!(by, 4);
        }
        other => panic!("unexpected write {other:?}"),
    }
}

#[test]
fn additions_that_cannot_go_on() {
    let p = product(Some("a"));
    let held = item("a", i32::MAX);
    let bins = cart_record(vec![&held]);
    assert_eq!(plan_add_to_cart("u1", "a", 1, &p, Some((&bins, 1))).unwrap_err(), AddFault::QuantityOverflow);
    let p = product(Some("other-id"));
    assert_eq!(plan_add_to_cart("u1", "a", 1, &p, None).unwrap_err(), AddFault::ItemNotStored);
}

#[test]
fn updating_quantities() {
    let a = item("a", 3);
    let b = item("b", 1);
    let bins = cart_record(vec![&a, &b]);

    let plan = plan_update_cart_item(Some(&bins), "a", 5);
    assert_eq!(plan.cart.find_item("a").map(|i| i.quantity), Some(5));
    assert!(matches!(plan.write, Some(CartWrite::SetQuantity { ref product_id, quantity: 5 }) if product_id == "a"));

    let plan = plan_update_cart_item(Some(&bins), "a", 0);
    assert_eq!(ids(&plan.cart), vec!["b"]);
    assert!(matches!(plan.write, Some(CartWrite::RemoveItem { ref product_id }) if product_id == "a"));

    let plan = plan_update_cart_item(Some(&bins), "zzz", -3);
    assert_eq!(ids(&plan.cart), vec!["a", "b"]);
    assert!(matches!(plan.write, Some(CartWrite::RemoveItem { .. })));

    let plan = plan_update_cart_item(Some(&bins), "zzz", 2);
    assert_eq!(ids(&plan.cart), vec!["a", "b"]);
    assert!(plan.write.is_none());

    let plan = plan_update_cart_item(None, "a", 2);
    assert!(plan.cart.items_list().is_empty());
    assert!(plan.write.is_none());
}

#[test]
fn removing_is_updating_to_zero() {
    let a = item("a", 3);
    let bins = cart_record(vec![&a]);
    let plan = plan_remove_from_cart(Some(&bins), "a");
    assert!(plan.cart.items_list().is_empty());
    assert!(matches!(plan.write, Some(CartWrite::RemoveItem { .. })));
    assert!(plan_remove_from_cart(None, "a").write.is_none());
}

#[test]
fn write_outcomes() {
    assert_eq!(add_write_step(WriteOutcome::Written), NextStep::Finish);
    assert_eq!(add_write_step(WriteOutcome::GenerationMismatch), NextStep::Retry);
    assert_eq!(add_write_step(WriteOutcome::KeyNotFound), NextStep::Fail);
    assert_eq!(add_write_step(WriteOutcome::Failed), NextStep::Fail);
    assert!(clear_write_succeeded(WriteOutcome::Written));
    assert!(clear_write_succeeded(WriteOutcome::KeyNotFound));
    assert!(!clear_write_succeeded(WriteOutcome::Failed));
    assert!(!clear_write_succeeded(WriteOutcome::GenerationMismatch));
}

#[test]
fn stored_item_value_is_a_map_of_its_members() {
    let a = item("a", 2);
    match a.to_value() {
        BinValue::HashMap(entries) => {
            let names: Vec<String> = entries
                .iter()
                .map(|(k, _)| match k {
                    BinKey::Str(s) => s.clone(),
                    _ => String::new(),
                })
                .collect();
            assert_eq!(names, vec!["productId", "name", "price", "quantity", "userId"]);
            assert!(entries.iter().any(|(_, v)| *v == BinValue::Int(2)));
        }
        other => panic!("not a map: {other:?}"),
    }
}

/// The store's map operations, as the database documents them, on an items bin.
fn apply(bins: &mut StrMap<BinValue>, w: &CartWrite) {
    let mut entries = match bins.get("items") {
        Some(BinValue::HashMap(es)) => es.iter().map(|(k, v)| (k.deep_clone(), v.deep_clone())).collect(),
        _ => Vec::new(),
    };
    let pos = |es: &Vec<(BinKey, BinValue)>, id: &str| es.iter().position(|(k, _)| *k == BinKey::Str(id.to_string()));
    let set_quantity = |v: &mut BinValue, f: &dyn Fn(i64) -> i64| {
        if let BinValue::HashMap(inner) = v {
            match inner.iter().position(|(k, _)| *k == BinKey::Str("quantity".to_string())) {
                Some(i) => {
                    let old = match inner[i].1 {
                        BinValue::Int(x) => x,
                        _ => 0,
                    };
                    inner[i].1 = BinValue::Int(f(old));
                }
                None => inner.push((BinKey::Str("quantity".to_string()), BinValue::Int(f(0)))),
            }
        }
    };
    match w {
        CartWrite::PutItem { product_id, item } => match pos(&entries, product_id) {
            Some(i) => entries[i].1 = item.deep_clone(),
            None => entries.push((BinKey::Str(product_id.clone()), item.deep_clone())),
        },
        CartWrite::IncrementQuantity { product_id, by } => {
            if let Some(i) = pos(&entries, product_id) {
                set_quantity(&mut entries[i].1, &|x| x + by);
            }
        }
        CartWrite::SetQuantity { product_id, quantity } => {
            if let Some(i) = pos(&entries, product_id) {
                set_quantity(&mut entries[i].1, &|_| *quantity);
            }
        }
        CartWrite::RemoveItem { product_id } => {
            if let Some(i) = pos(&entries, product_id) {
                entries.remove(i);
            }
        }
        CartWrite::Clear => entries.clear(),
    }
    bins.insert("items".to_string(), BinValue::HashMap(entries));
}

fn lines(c: &Cart) -> Vec<CartItem> {
    c.items_list().into_iter().map(|i| i.deep_clone()).collect()
}

#[test]
fn planned_writes_leave_the_answered_cart_in_the_store() {
    let held = item("a", 3);
    let mut bins = cart_record(vec![&held]);

    let p = product(Some("a"));
    let plan = plan_add_to_cart("u1", "a", 4, &p, Some((&bins, 1))).unwrap();
    apply(&mut bins, &plan.write);
    assert_eq!(lines(&Cart::from_bins(&bins).unwrap()), lines(&plan.cart));

    let p = product(Some("b"));
    let plan = plan_add_to_cart("u1", "b", 2, &p, Some((&bins, 2))).unwrap();
    apply(&mut bins, &plan.write);
    assert_eq!(lines(&Cart::from_bins(&bins).unwrap()), lines(&plan.cart));

    let plan = plan_update_cart_item(Some(&bins), "b", 9);
    apply(&mut bins, plan.write.as_ref().unwrap());
    assert_eq!(lines(&Cart::from_bins(&bins).unwrap()), lines(&plan.cart));

    let plan = plan_update_cart_item(Some(&bins), "a", 0);
    apply(&mut bins, plan.write.as_ref().unwrap());
    assert_eq!(lines(&Cart::from_bins(&bins).unwrap()), lines(&plan.cart));
    assert_eq!(lines(&plan.cart).len(), 1);

    apply(&mut bins, &CartWrite::Clear);
    assert!(Cart::from_bins(&bins).unwrap().items_list().is_empty());
}

/// A guarded write to an existing record, as the store makes it: a write
/// expecting the record's generation is made and moves the generation on; one
/// expecting another is refused; a create-only write fails.
fn guarded_write(bins: &mut StrMap<BinValue>, generation: &mut u32, guard: &WriteGuard, w: &CartWrite) -> WriteOutcome {
    match guard {
        WriteGuard::ExpectGeneration(g) if *g == *generation => {
            apply(bins, w);
            *generation += 1;
            WriteOutcome::Written
        }
        WriteGuard::ExpectGeneration(_) => WriteOutcome::GenerationMismatch,
        WriteGuard::CreateOnly => WriteOutcome::Failed,
    }
}

/// Two additions read the same generation; the second is refused, retried on
/// a fresh read, and both amounts end up in the store.
fn race(start: Vec<&CartItem>, q1: i32, q2: i32) -> (StrMap<BinValue>, Cart) {
    let mut bins = cart_record(start);
    let mut generation: u32 = 4;
    let p = product(Some("a"));
    let first = plan_add_to_cart("u1", "a", q1, &p, Some((&bins, generation))).unwrap();
    let second = plan_add_to_cart("u1", "a", q2, &p, Some((&bins, generation))).unwrap();
    assert_eq!(first.guard, WriteGuard::ExpectGeneration(4));
    assert_eq!(second.guard, WriteGuard::ExpectGeneration(4));

    let o = guarded_write(&mut bins, &mut generation, &first.guard, &first.write);
    assert_eq!(o, WriteOutcome::Written);
    assert_eq!(add_write_step(o), NextStep::Finish);
    assert_eq!(lines(&Cart::from_bins(&bins).unwrap()), lines(&first.cart));

    let before = lines(&Cart::from_bins(&bins).unwrap());
    let o = guarded_write(&mut bins, &mut generation, &second.guard, &second.write);
    assert_eq!(o, WriteOutcome::GenerationMismatch);
    assert_eq!(add_write_step(o), NextStep::Retry);
    assert_eq!(lines(&Cart::from_bins(&bins).unwrap()), before);

    let retry = plan_add_to_cart("u1", "a", q2, &p, Some((&bins, generation))).unwrap();
    assert_eq!(retry.guard, WriteGuard::ExpectGeneration(5));
    let o = guarded_write(&mut bins, &mut generation, &retry.guard, &retry.write);
    assert_eq!(o, WriteOutcome::Written);
    assert_eq!(add_write_step(o), NextStep::Finish);
    (bins, retry.cart)
}

#[test]
fn concurrent_additions_of_a_held_item_both_count() {
    let held = item("a", 3);
    let other = item("b", 5);
    let (bins, answered) = race(vec![&held, &other], 2, 7);
    let stored = Cart::from_bins(&bins).unwrap();
    assert_eq!(stored.find_item("a").unwrap().quantity, 12);
    assert_eq!(stored.find_item("b").unwrap().quantity, 5);
    assert_eq!(lines(&stored), lines(&answered));
}

#[test]
fn concurrent_additions_of_a_new_item_both_count() {
    let other = item("b", 5);
    let (bins, answered) = race(vec![&other], 2, 7);
    let stored = Cart::from_bins(&bins).unwrap();
    assert_eq!(stored.find_item("a").unwrap().quantity, 9);
    assert_eq!(stored.find_item("b").unwrap().quantity, 5);
    assert_eq!(ids(&stored), vec!["b".to_string(), "a".to_string()]);
    assert_eq!(lines(&stored), lines(&answered));
}

#[test]
fn missing_product_message() {
    assert_eq!(product_not_found("15970"), "Product not found: 15970");
    assert_eq!(product_not_found(""), "Product not found: ");
}
