use aerospike_rust_workshop::bin_value::{
    bins_to_json_map, json_to_value, value_as_i64, value_as_list, value_as_map, value_as_string, value_key_to_string,
    value_to_json, BinKey, BinValue,
};
use aerospike_rust_workshop::fields::DecodeError;
use aerospike_rust_workshop::json::{Json, JsonNumber};
use aerospike_rust_workshop::product::Product;
use aerospike_rust_workshop::strmap::StrMap;

fn s(t: &str) -> Json {
    Json::Str(t.to_string())
}

fn obj(members: Vec<(&str, Json)>) -> Json {
    let mut m: StrMap<Json> = StrMap::new();
    for (k, v) in members {
        m.insert(k.to_string(), v);
    }
    Json::Object(m)
}

fn key(t: &str) -> BinKey {
    BinKey::Str(t.to_string())
}

fn text(t: &str) -> BinValue {
    BinValue::Str(t.to_string())
}

#[test]
fn map_keys_as_text() {
    assert_eq!(value_key_to_string(&key("a")), "a");
    assert_eq!(value_key_to_string(&BinKey::Geo("g".to_string())), "g");
    assert_eq!(value_key_to_string(&BinKey::Int(-17)), "-17");
    assert_eq!(value_key_to_string(&BinKey::Other("Bool(true)".to_string())), "Bool(true)");
}

#[test]
fn record_values_as_json() {
    assert_eq!(value_to_json(&BinValue::Nil), Json::Null);
    assert_eq!(value_to_json(&BinValue::Bool(true)), Json::Bool(true));
    assert_eq!(value_to_json(&BinValue::Int(5)), Json::Number(JsonNumber::Int(5)));
    assert_eq!(value_to_json(&BinValue::Float(1.5f64.to_bits())), Json::Number(JsonNumber::Real(1.5f64.to_bits())));
    assert_eq!(value_to_json(&BinValue::Float(f64::NAN.to_bits())), Json::Null);
    assert_eq!(value_to_json(&BinValue::Float(f64::INFINITY.to_bits())), Json::Null);
    assert_eq!(value_to_json(&BinValue::GeoJson("{}".to_string())), s("{}"));
    assert_eq!(value_to_json(&BinValue::Blob(b"hi".to_vec())), s("hi"));
    assert_eq!(value_to_json(&BinValue::Blob(vec![0x61, 0xff])), s("a\u{FFFD}"));
    assert_eq!(value_to_json(&BinValue::Opaque("HLL([1])".to_string())), s("HLL([1])"));
    assert_eq!(
        value_to_json(&BinValue::List(vec![BinValue::Int(1), text("x")])),
        Json::Array(vec![Json::Number(JsonNumber::Int(1)), s("x")])
    );
}

#[test]
fn maps_as_json_objects_last_value_wins() {
    let v = BinValue::KeyValueList(vec![
        (key("a"), BinValue::Int(1)),
        (BinKey::Int(2), text("two")),
        (key("a"), BinValue::Int(3)),
    ]);
    let expected = obj(vec![("a", Json::Number(JsonNumber::Int(3))), ("2", s("two"))]);
    assert_eq!(value_to_json(&v), expected);
    let m = value_as_map(&v).unwrap();
    assert_eq!(m.entries.len(), 2);
    assert_eq!(m.get("a"), Some(&BinValue::Int(3)));
    assert_eq!(m.get("2"), Some(&text("two")));
    assert_eq!(value_as_map(&BinValue::Int(1)), None);
}

#[test]
fn json_as_record_values() {
    let j = obj(vec![
        ("n", Json::Null),
        ("list", Json::Array(vec![Json::Bool(false), Json::Number(JsonNumber::Real(2.5f64.to_bits()))])),
    ]);
    let v = json_to_value(&j);
    assert_eq!(
        v,
        BinValue::HashMap(vec![
            (key("n"), BinValue::Nil),
            (key("list"), BinValue::List(vec![BinValue::Bool(false), BinValue::Float(2.5f64.to_bits())])),
        ])
    );
    assert_eq!(value_to_json(&v), j);
}

#[test]
fn plain_json_round_trips_through_record_values() {
    let j = obj(vec![
        ("a", s("x")),
        ("b", Json::Array(vec![obj(vec![("c", Json::Number(JsonNumber::Int(-1)))]), Json::Null])),
        ("d", Json::Bool(true)),
    ]);
    assert_eq!(value_to_json(&json_to_value(&j)), j);
}

#[test]
fn scalar_readers() {
    assert_eq!(value_as_string(&text("t")), Some("t".to_string()));
    assert_eq!(value_as_string(&BinValue::GeoJson("g".to_string())), Some("g".to_string()));
    assert_eq!(value_as_string(&BinValue::Int(1)), None);
    assert_eq!(value_as_i64(&BinValue::Int(-9)), Some(-9));
    assert_eq!(value_as_i64(&text("9")), None);
    assert_eq!(value_as_list(&BinValue::List(vec![BinValue::Nil])), vec![BinValue::Nil]);
    assert_eq!(value_as_list(&text("x")), Vec::<BinValue>::new());
}

#[test]
fn bins_as_json_object() {
    let mut bins: StrMap<BinValue> = StrMap::new();
    bins.insert("id".to_string(), text("1"));
    bins.insert("price".to_string(), BinValue::Int(10));
    let m = bins_to_json_map(&bins);
    assert_eq!(m.get("id"), Some(&s("1")));
    assert_eq!(m.get("price"), Some(&Json::Number(JsonNumber::Int(10))));
    assert_eq!(m.entries.len(), 2);
}

fn sample_product() -> Product {
    let mut attrs: StrMap<String> = StrMap::new();
    attrs.insert("Fit".to_string(), "Regular".to_string());
    attrs.insert("Sleeve".to_string(), "Short".to_string());
    Product {
        id: Some("15970".to_string()),
        brand_name: Some("Turtle".to_string()),
        images: Some(obj(vec![("search", s("img.jpg"))])),
        sub_category: Some("Topwear".to_string()),
        gender: Some("Men".to_string()),
        sale_price: Some(1000),
        added: Some(1_320_000_000),
        usage: Some("Casual".to_string()),
        display_cat: Some(vec!["Casual".to_string(), "Sale".to_string()]),
        age_group: None,
        colors: Some(vec!["Navy Blue".to_string()]),
        descriptors: None,
        article_type: Some("Shirts".to_string()),
        price: Some(1299),
        name: Some("Turtle Check Men Navy Blue Shirt".to_string()),
        options: Some(vec![obj(vec![("value", s("M"))])]),
        season: Some("Fall".to_string()),
        article_attr: Some(attrs),
        variant_name: None,
        category: Some("Apparel".to_string()),
    }
}

#[test]
fn product_bins_read_back() {
    let p = sample_product();
    let bins = p.to_bins();
    assert!(bins.get("ageGroup").is_none());
    assert_eq!(bins.get("price"), Some(&BinValue::Int(1299)));
    let back = Product::from_bins(&bins).unwrap();
    assert_eq!(back, p);
}

#[test]
fn product_json_reads_back() {
    let p = sample_product();
    let back = Product::from_json(&p.to_json()).unwrap();
    assert_eq!(back, p);
}

#[test]
fn product_decode_errors_name_the_field() {
    let mut bins: StrMap<BinValue> = StrMap::new();
    bins.insert("price".to_string(), text("cheap"));
    let e = Product::from_bins(&bins).unwrap_err();
    assert_eq!(e, DecodeError::InvalidField("price".to_string()));
    assert_eq!(e.message(), "invalid value for field `price`");
    let mut bins: StrMap<BinValue> = StrMap::new();
    bins.insert("colors".to_string(), BinValue::List(vec![text("Blue"), BinValue::Nil]));
    assert!(Product::from_bins(&bins).is_err());
    let mut bins: StrMap<BinValue> = StrMap::new();
    bins.insert("name".to_string(), BinValue::Nil);
    bins.insert("unknown".to_string(), BinValue::Int(1));
    let p = Product::from_bins(&bins).unwrap();
    assert_eq!(p.name, None);
    assert_eq!(p.id, None);
}
