use aerospike_rust_workshop::bin_value::BinValue;
use aerospike_rust_workshop::json::{Json, JsonNumber};
use aerospike_rust_workshop::loading::{
    check_load_request, clear_confirmed, formatted_product, index_creation_step, index_report, known_values,
    loading_indexes,
    product_categories, product_from_formatted, should_autoload, single_file_error, startup_indexes, static_dir,
    tally_loads, texts_of_values, IndexStep, LoadRequestError,
};
use aerospike_rust_workshop::search::{
    filter_expression, home_sub_categories, listing_bins, plan_advanced_search, search_terms,
};
use aerospike_rust_workshop::strmap::StrMap;

fn s(t: &str) -> Json {
    Json::Str(t.to_string())
}

fn obj(members: Vec<(&str, Json)>) -> Json {
    let mut m: StrMap<Json> = StrMap::new();
    for (k, v) in members {
        m.insert(k.to_string(), v);
    }
    Json::Object(m)
}

fn pairs(v: &[(String, String)]) -> Vec<(&str, &str)> {
    v.iter().map(|(a, b)| (a.as_str(), b.as_str())).collect()
}

#[test]
fn tally_of_a_load() {
    let r = tally_loads(&vec![true, false, true, true]);
    assert_eq!((r.success_count, r.error_count, r.total_files), (3, 1, 4));
    let r = tally_loads(&vec![]);
    assert_eq!((r.success_count, r.error_count, r.total_files), (0, 0, 0));
}

#[test]
fn index_lists() {
    assert_eq!(
        pairs(&loading_indexes()),
        vec![
            ("category", "cat_idx"),
            ("subCategory", "subCat_idx"),
            ("articleType", "articleType_idx"),
            ("usage", "usage_idx"),
            ("brandName", "brand_idx"),
        ]
    );
    assert_eq!(
        pairs(&startup_indexes()),
        vec![
            ("category", "cat_idx"),
            ("subCategory", "subCat_idx"),
            ("usage", "usage_idx"),
            ("brandName", "brand_idx"),
            ("articleType", "article_idx"),
        ]
    );
}

#[test]
fn index_report_counts_and_texts() {
    let idx = startup_indexes();
    let outcomes = vec![Ok(()), Err("boom".to_string()), Ok(()), Ok(()), Err("x".to_string())];
    let r = index_report(&idx, &outcomes);
    assert_eq!(r.total_indexes, 5);
    assert_eq!(r.success_count, 3);
    assert_eq!(r.error_count, 2);
    assert!(!r.success);
    assert_eq!(r.results.get("cat_idx").map(String::as_str), Some("Created successfully"));
    assert_eq!(r.results.get("subCat_idx").map(String::as_str), Some("Error: boom"));
    assert_eq!(r.results.get("article_idx").map(String::as_str), Some("Error: x"));
    let all_ok = index_report(&idx, &vec![Ok(()); 5]);
    assert!(all_ok.success);
}

#[test]
fn categories_of_a_product() {
    let p = obj(vec![
        ("category", s("Apparel")),
        ("subCategory", s("Topwear")),
        ("articleType", s("Shirts")),
        ("usage", s("Casual")),
        ("brandName", s("Turtle")),
    ]);
    let c = product_categories(&p).unwrap();
    assert_eq!(
        (c.category.as_str(), c.sub_category.as_str(), c.article_type.as_str(), c.usage.as_str(), c.brand_name.as_str()),
        ("Apparel", "Topwear", "Shirts", "Casual", "Turtle")
    );
    let missing = obj(vec![("category", s("Apparel")), ("subCategory", s("Topwear"))]);
    assert!(product_categories(&missing).is_none());
    assert!(product_categories(&s("x")).is_none());
}

#[test]
fn product_file_to_product() {
    let text = r#"{"data": {
        "price": 1299,
        "productDisplayName": "Shirt",
        "baseColour": "Navy", "colour1": "White", "colour2": "Red",
        "masterCategory": {"typeName": "Apparel"}
    }}"#;
    let map = formatted_product(text, "/d/styles/15970.json").unwrap();
    let p = product_from_formatted(&map).unwrap();
    assert_eq!(p.id.as_deref(), Some("15970"));
    assert_eq!(p.price, Some(1299));
    assert_eq!(p.name.as_deref(), Some("Shirt"));
    assert_eq!(p.category.as_deref(), Some("Apparel"));
    assert_eq!(p.colors, Some(vec!["Navy".to_string(), "White".to_string(), "Red".to_string()]));
    assert_eq!(p.display_cat, Some(vec!["NA".to_string()]));
}

#[test]
fn product_file_errors() {
    assert_eq!(
        formatted_product("{}", "a.json"),
        Err("Invalid JSON structure - missing 'data' node".to_string())
    );
    assert!(formatted_product("not json", "a.json").unwrap_err().starts_with("Invalid JSON in a.json: "));
    assert_eq!(product_from_formatted(&s("x")), Err("formatted product is not an object".to_string()));
    let map = formatted_product(r#"{"data": {"baseColour": "Navy"}}"#, "a.json").unwrap();
    assert_eq!(product_from_formatted(&map), Err("invalid value for field `colors`".to_string()));
}

#[test]
fn request_checks() {
    assert!(clear_confirmed("yes-delete-all"));
    assert!(!clear_confirmed("yes"));
    assert!(!clear_confirmed("YES-DELETE-ALL"));
    assert!(should_autoload(None));
    assert!(should_autoload(Some(0)));
    assert!(!should_autoload(Some(12)));
    assert_eq!(check_load_request(true, true), None);
    assert_eq!(check_load_request(false, true), Some(LoadRequestError::NotADirectory));
    assert_eq!(check_load_request(true, false), Some(LoadRequestError::MissingStyles));
    assert_eq!(LoadRequestError::NotADirectory.error_text("/x"), "Invalid data path: /x");
    assert_eq!(LoadRequestError::NotADirectory.message_text(), "Path does not exist or is not a directory");
    assert_eq!(LoadRequestError::MissingStyles.error_text("/x"), "Missing styles directory");
    assert_eq!(
        LoadRequestError::MissingStyles.message_text(),
        "The data path must contain a 'styles' subdirectory with JSON files"
    );
    assert_eq!(single_file_error("/f.json", true), None);
    assert_eq!(single_file_error("/f.json", false), Some("Invalid file path: /f.json".to_string()));
    assert_eq!(static_dir("/srv/app"), "/srv/app/static");
}

#[test]
fn listed_values() {
    let v = vec!["Casual".to_string(), "".to_string(), "NA".to_string(), "Sports".to_string(), "na".to_string()];
    assert_eq!(known_values(v), vec!["Casual", "Sports", "na"]);
    let vals = vec![
        BinValue::Str("Apparel".to_string()),
        BinValue::Int(3),
        BinValue::GeoJson("g".to_string()),
        BinValue::Nil,
    ];
    assert_eq!(texts_of_values(&vals), vec!["Apparel", "g"]);
}

#[test]
fn search_without_terms() {
    let plan = plan_advanced_search(None, Some(""), None, None);
    assert!(plan.index_filter.is_none());
    assert!(plan.expression_filters.is_empty());
    assert_eq!(filter_expression(&search_terms(None, None, None, None)), "");
}

#[test]
fn first_term_goes_to_the_index() {
    let plan = plan_advanced_search(None, Some("Shirts"), Some("Casual"), Some("Nike"));
    assert_eq!(plan.index_filter, Some(("articleType".to_string(), "Shirts".to_string())));
    assert_eq!(
        pairs(&plan.expression_filters),
        vec![("usage", "Casual"), ("brandName", "Nike")]
    );
    let plan = plan_advanced_search(Some("Apparel"), None, None, None);
    assert_eq!(plan.index_filter, Some(("category".to_string(), "Apparel".to_string())));
    assert!(plan.expression_filters.is_empty());
}

#[test]
fn filter_expression_text() {
    let ts = search_terms(Some("Apparel"), None, Some("Casual"), None);
    assert_eq!(filter_expression(&ts), "$.category == 'Apparel' AND $.usage == 'Casual'");
    let ts = search_terms(None, None, None, Some("Nike"));
    assert_eq!(filter_expression(&ts), "$.brandName == 'Nike'");
}

#[test]
fn home_page_sections() {
    assert_eq!(home_sub_categories(), vec!["Shoes", "Bags", "Wallets", "Watches", "Headwear"]);
}

#[test]
fn index_creation_stops_at_the_first_error() {
    assert_eq!(index_creation_step(Ok(())), IndexStep::Continue);
    assert_eq!(index_creation_step(Err("index exists".to_string())), IndexStep::Stop("index exists".to_string()));
    let outcomes = vec![Ok(()), Ok(()), Err("down".to_string()), Ok(())];
    let mut made = 0;
    let mut answer = Ok(());
    for o in outcomes {
        match index_creation_step(o) {
            IndexStep::Continue => made += 1,
            IndexStep::Stop(e) => {
                answer = Err(e);
                break;
            }
        }
    }
    assert_eq!(made, 2);
    assert_eq!(answer, Err("down".to_string()));
}

#[test]
fn listings_read_five_bins() {
    assert_eq!(listing_bins(), vec!["id", "name", "images", "brandName", "price"]);
}
