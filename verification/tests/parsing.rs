use aerospike_rust_workshop::json::{Json, JsonNumber};
use aerospike_rust_workshop::json_parsing::{resolve_data_path, JsonParsingService, DATA_DIR_BELOW, DATA_DIR_BESIDE};
use aerospike_rust_workshop::paths::{file_stem_or_empty, has_json_extension, join_path};
use aerospike_rust_workshop::strmap::StrMap;
use aerospike_rust_workshop::utils::extract_product_image;

fn obj(members: Vec<(&str, Json)>) -> Json {
    let mut m: StrMap<Json> = StrMap::new();
    for (k, v) in members {
        m.insert(k.to_string(), v);
    }
    Json::Object(m)
}

fn s(t: &str) -> Json {
    Json::Str(t.to_string())
}

fn num(i: i64) -> Json {
    Json::Number(JsonNumber::Int(i))
}

fn member<'a>(j: &'a Json, k: &str) -> Option<&'a Json> {
    j.get(k)
}

#[test]
fn product_id_is_the_file_stem() {
    let svc = JsonParsingService;
    assert_eq!(svc.extract_product_id("/data/styles/15970.json"), "15970");
    assert_eq!(svc.extract_product_id("15970.json"), "15970");
    assert_eq!(svc.extract_product_id("dir/archive.tar.json"), "archive.tar");
    assert_eq!(svc.extract_product_id("dir/.hidden"), ".hidden");
    assert_eq!(svc.extract_product_id("dir/noext"), "noext");
    assert_eq!(svc.extract_product_id("dir/sub/"), "sub");
    assert_eq!(svc.extract_product_id("/"), "");
    assert_eq!(svc.extract_product_id(""), "");
    assert_eq!(svc.extract_product_id("a/.."), "");
}

#[test]
fn stems_and_extensions_follow_std_paths() {
    for p in ["a/b.c", "x.", "..", ".", "a/b/", "a//b.json", "c.JSON", "d.json", "e.json/"] {
        let path = std::path::Path::new(p);
        let stem = path.file_stem().and_then(|x| x.to_str()).unwrap_or_default();
        assert_eq!(file_stem_or_empty(p), stem, "stem of {p}");
        let is_json = path.extension().and_then(|e| e.to_str()) == Some("json");
        assert_eq!(has_json_extension(p), is_json, "extension of {p}");
    }
}

#[test]
fn joining_paths() {
    assert_eq!(join_path("data", "styles"), "data/styles");
    assert_eq!(join_path("data/", "styles"), "data/styles");
    assert_eq!(join_path("", "styles"), "styles");
    let svc = JsonParsingService;
    assert_eq!(svc.styles_dir("../data"), "../data/styles");
}

#[test]
fn style_files_are_the_json_files_sorted() {
    let svc = JsonParsingService;
    let found = vec![
        "d/styles/20.json".to_string(),
        "d/styles/readme.txt".to_string(),
        "d/styles/10.json".to_string(),
        "d/styles/sub/3.json".to_string(),
    ];
    let r = svc.get_style_files("d", true, Ok(found)).unwrap();
    assert_eq!(r, vec!["d/styles/10.json", "d/styles/20.json", "d/styles/sub/3.json"]);
}

#[test]
fn style_files_errors() {
    let svc = JsonParsingService;
    assert_eq!(
        svc.get_style_files("nowhere", false, Ok(vec![])),
        Err("Styles directory not found: nowhere/styles".to_string())
    );
    assert_eq!(
        svc.get_style_files("d", true, Err("permission denied".to_string())),
        Err("permission denied".to_string())
    );
}

#[test]
fn data_node_is_required() {
    let svc = JsonParsingService;
    let root = obj(vec![("meta", s("x"))]);
    assert_eq!(svc.data_node(&root), Err("Invalid JSON structure - missing 'data' node".to_string()));
    let root = obj(vec![("data", obj(vec![("id", num(1))]))]);
    assert_eq!(svc.data_node(&root), Ok(obj(vec![("id", num(1))])));
    assert!(svc.data_node(&s("data")).is_err());
}

#[test]
fn product_file_text_is_parsed() {
    let svc = JsonParsingService;
    let text = r#"{"data": {"id": 15970, "price": 1.5, "big": 18446744073709551615, "tags": ["a", null, true]}, "meta": {}}"#;
    let data = svc.parse_product_file("f.json", text).unwrap();
    assert_eq!(member(&data, "id"), Some(&num(15970)));
    assert_eq!(member(&data, "price"), Some(&Json::Number(JsonNumber::Real(1.5f64.to_bits()))));
    assert_eq!(
        member(&data, "big"),
        Some(&Json::Number(JsonNumber::Real((u64::MAX as f64).to_bits())))
    );
    assert_eq!(member(&data, "tags"), Some(&Json::Array(vec![s("a"), Json::Null, Json::Bool(true)])));
    assert_eq!(
        svc.parse_product_file("f.json", r#"{"meta": 1}"#),
        Err("Invalid JSON structure - missing 'data' node".to_string())
    );
    let bad = "{\"data\": ";
    let expected = serde_json::from_str::<serde_json::Value>(bad).unwrap_err().to_string();
    assert_eq!(svc.parse_product_file("x/f.json", bad), Err(format!("Invalid JSON in x/f.json: {expected}")));
}

#[test]
fn product_data_is_reshaped() {
    let svc = JsonParsingService;
    let data = obj(vec![
        ("price", num(1299)),
        ("discountedPrice", num(999)),
        ("productDisplayName", s("Running Shoe")),
        ("brandName", s("Nike")),
        ("gender", s("Men")),
        ("baseColour", s("Blue")),
        ("displayCategories", s("Sports,Casual")),
        ("masterCategory", obj(vec![("typeName", s("Footwear"))])),
        ("subCategory", obj(vec![("typeName", s("Shoes"))])),
        ("articleType", obj(vec![("id", num(3))])),
        ("styleImages", obj(vec![("search", s("img"))])),
        ("catalogAddDate", s("not a number")),
    ]);
    let r = svc.format_product_data(&data, "42");
    assert_eq!(member(&r, "id"), Some(&s("42")));
    assert_eq!(member(&r, "price"), Some(&num(1299)));
    assert_eq!(member(&r, "salePrice"), Some(&num(999)));
    assert_eq!(member(&r, "name"), Some(&s("Running Shoe")));
    assert_eq!(member(&r, "brandName"), Some(&s("Nike")));
    assert_eq!(member(&r, "gender"), Some(&s("Men")));
    assert_eq!(member(&r, "colors"), Some(&Json::Array(vec![s("Blue"), Json::Null, Json::Null])));
    assert_eq!(member(&r, "displayCat"), Some(&Json::Array(vec![s("Sports"), s("Casual")])));
    assert_eq!(member(&r, "category"), Some(&s("Footwear")));
    assert_eq!(member(&r, "subCategory"), Some(&s("Shoes")));
    assert_eq!(member(&r, "articleType"), None);
    assert_eq!(member(&r, "images"), Some(&obj(vec![("search", s("img"))])));
    assert_eq!(member(&r, "added"), None);
    assert_eq!(member(&r, "usage"), None);
    assert_eq!(member(&r, "descriptors"), None);
}

#[test]
fn product_data_defaults() {
    let svc = JsonParsingService;
    let r = svc.format_product_data(&Json::Null, "7");
    assert_eq!(member(&r, "id"), Some(&s("7")));
    assert_eq!(member(&r, "displayCat"), Some(&Json::Array(vec![s("NA")])));
    assert_eq!(member(&r, "colors"), Some(&Json::Array(vec![Json::Null, Json::Null, Json::Null])));
    assert_eq!(member(&r, "price"), None);
    let keys: Vec<&str> = match &r {
        Json::Object(m) => m.entries.iter().map(|(k, _)| k.as_str()).collect(),
        _ => vec![],
    };
    assert_eq!(keys.len(), 3);
}

#[test]
fn data_path_resolution() {
    assert_eq!(resolve_data_path(true, Some("/abs/data".to_string()), true, None), "/abs/data");
    assert_eq!(resolve_data_path(true, None, false, None), DATA_DIR_BESIDE);
    assert_eq!(resolve_data_path(false, None, true, Some("/w/data".to_string())), "/w/data");
    assert_eq!(resolve_data_path(false, None, true, None), DATA_DIR_BELOW);
    assert_eq!(resolve_data_path(false, Some("/x".to_string()), false, Some("/y".to_string())), "../data");
}

#[test]
fn product_image_prefers_search_view() {
    let res = |u: &str| obj(vec![("resolutions", obj(vec![("125X161", s(u))]))]);
    let both = obj(vec![("front", res("front.jpg")), ("search", res("search.jpg"))]);
    assert_eq!(extract_product_image(Some(&both)), Some("search.jpg".to_string()));
    let front = obj(vec![("front", res("front.jpg")), ("search", obj(vec![]))]);
    assert_eq!(extract_product_image(Some(&front)), Some("front.jpg".to_string()));
    let bad = obj(vec![("front", obj(vec![("resolutions", obj(vec![("125X161", num(3))]))]))]);
    assert_eq!(extract_product_image(Some(&bad)), None);
    assert_eq!(extract_product_image(None), None);
}
