//! Loading the product catalogue: from a parsed product file to a product
//! record and its catalogue categories, the tally of a load, and the
//! secondary indexes the catalogue is searched by.
use vstd::prelude::*;
use crate::bin_value::{json_of_pairs, lemma_json_of_named_pairs, value_as_string, BinValue, BinView};
use crate::json::{view_entries, view_get, Json, JsonView};
use crate::json_text::parsed_json;
use crate::json_parsing::{product_id_spec, JsonParsingService};
use crate::paths::{join_path, join_spec};
use crate::product::{bins_of_members, product_error_field, decode_product, json_object_to_bins, Product, ProductView};
use crate::strmap::StrMap;
use crate::text::str_eq;

verus! {

/// How a load of the catalogue went.
#[derive(Debug, Clone, Copy, PartialEq, Eq, Structural)]
pub struct LoadResult {
    pub success_count: usize,
    pub error_count: usize,
    pub total_files: usize,
}

/// The number of `true` entries of `s`.
pub open spec fn count_true(s: Seq<bool>) -> nat
    decreases s.len(),
{
    if s.len() == 0 {
        0
    } else {
        count_true(s.drop_last()) + if s.last() { 1nat } else { 0nat }
    }
}

/// The tally of a load in which file `i` loaded when `loaded[i]` holds.
pub fn tally_loads(loaded: &Vec<bool>) -> (r: LoadResult)
    ensures
        r.success_count == count_true(loaded@),
        r.error_count == loaded@.len() - count_true(loaded@),
        r.total_files == loaded@.len(),
        r.success_count + r.error_count == r.total_files,
{
    let n = loaded.len();
    let mut success_count: usize = 0;
    let mut error_count: usize = 0;
    let mut i: usize = 0;
    while i < n
        invariant
            n == loaded@.len(),
            i <= n,
            success_count == count_true(loaded@.take(i as int)),
            success_count + error_count == i,
        decreases n - i,
    {
        proof {
            assert(loaded@.take(i + 1).drop_last() =~= loaded@.take(i as int));
        }
        if loaded[i] {
            success_count = success_count + 1;
        } else {
            error_count = error_count + 1;
        }
        i = i + 1;
    }
    assert(loaded@.take(n as int) =~= loaded@);
    LoadResult { success_count, error_count, total_files: n }
}

/// The catalogue categories a product is filed under.
#[derive(Debug)]
pub struct CategoryEntry {
    pub category: String,
    pub sub_category: String,
    pub article_type: String,
    pub usage: String,
    pub brand_name: String,
}

/// The text of member `k` of `j`, when `j` is an object and that member is a string.
pub open spec fn text_member(j: Json, k: Seq<char>) -> Option<Seq<char>> {
    match j.get_spec(k) {
        Some(v) => v.str_spec(),
        None => None,
    }
}

fn text_member_of(j: &Json, key: &str) -> (r: Option<String>)
    ensures
        match text_member(*j, key@) {
            Some(s) => r matches Some(t) && t@ == s,
            None => r is None,
        },
{
    match j.get(key) {
        Some(v) => match v.as_str() {
            Some(s) => Some(String::from_str(s)),
            None => None,
        },
        None => None,
    }
}

/// The categories a formatted product record is filed under: present when
/// its `category`, `subCategory`, `articleType`, `usage` and `brandName`
/// members are all strings.
pub fn product_categories(product: &Json) -> (r: Option<CategoryEntry>)
    ensures
        ({
            let c = text_member(*product, "category"@);
            let s = text_member(*product, "subCategory"@);
            let a = text_member(*product, "articleType"@);
            let u = text_member(*product, "usage"@);
            let b = text_member(*product, "brandName"@);
            if c is Some && s is Some && a is Some && u is Some && b is Some {
                r matches Some(e) && e.category@ == c->Some_0 && e.sub_category@ == s->Some_0
                    && e.article_type@ == a->Some_0 && e.usage@ == u->Some_0 && e.brand_name@ == b->Some_0
            } else {
                r is None
            }
        }),
{
    let category = text_member_of(product, "category");
    let sub_category = text_member_of(product, "subCategory");
    let article_type = text_member_of(product, "articleType");
    let usage = text_member_of(product, "usage");
    let brand_name = text_member_of(product, "brandName");
    match (category, sub_category, article_type, usage, brand_name) {
        (Some(category), Some(sub_category), Some(article_type), Some(usage), Some(brand_name)) =>
            Some(CategoryEntry { category, sub_category, article_type, usage, brand_name }),
        _ => None,
    }
}

/// The product a record made of the members `es` reads back as.
pub open spec fn product_of_members(es: Seq<(Seq<char>, JsonView)>) -> Result<ProductView, ()> {
    decode_product(json_of_pairs(bins_of_members(es)))
}

/// The product record a formatted product object is stored as, read back
/// as a product. Fails for a value that is not an object, and for an object
/// whose members do not decode as a product.
pub fn product_from_formatted(product_map: &Json) -> (r: Result<Product, String>)
    ensures
        match *product_map {
            Json::Object(m) => match product_of_members(view_entries(m.entries@)) {
                Ok(pv) => r matches Ok(p) && p@ == pv,
                Err(_) => r matches Err(e) && e@ == "invalid value for field `"@
                    + product_error_field(json_of_pairs(bins_of_members(view_entries(m.entries@)))) + "`"@,
            },
            _ => r matches Err(e) && e@ == "formatted product is not an object"@,
        },
{
    match product_map {
        Json::Object(m) => {
            let bins = json_object_to_bins(m);
            proof {
                lemma_json_of_named_pairs(bins);
                assert(bins.pairs() =~= crate::product::bin_pairs(bins));
            }
            match Product::from_bins(&bins) {
                Ok(p) => Ok(p),
                Err(e) => Err(e.message()),
            }
        },
        _ => Err(String::from_str("formatted product is not an object")),
    }
}

/// The product record made of the product file `file_path`, whose text is
/// `content`: the file's `data` node, reshaped for the product whose id is
/// the file's name without its extension.
pub fn formatted_product(content: &str, file_path: &str) -> (r: Result<Json, String>)
    ensures
        match parsed_json(content@) {
            Err(e) => r matches Err(m) && m@ == "Invalid JSON in "@ + file_path@ + ": "@ + e,
            Ok(root) => match view_get(root, "data"@) {
                Some(d) => r matches Ok(Json::Object(m))
                    && crate::json_parsing::is_formatted_product(m, d, product_id_spec(file_path@))
                    && crate::roundtrip::plain(d),
                None => r matches Err(e) && e@ == "Invalid JSON structure - missing 'data' node"@,
            },
        },
{
    let svc = JsonParsingService;
    let raw = svc.parse_product_file(file_path, content)?;
    let product_id = svc.extract_product_id(file_path);
    let product_map = svc.format_product_data(&raw, product_id.as_str());
    Ok(product_map)
}

/// The secondary indexes the loader makes before loading: bin name and
/// index name.
pub fn loading_indexes() -> (r: Vec<(String, String)>)
    ensures
        crate::search::term_views(r@) == seq![
            ("category"@, "cat_idx"@),
            ("subCategory"@, "subCat_idx"@),
            ("articleType"@, "articleType_idx"@),
            ("usage"@, "usage_idx"@),
            ("brandName"@, "brand_idx"@),
        ],
{
    let r = vec![
        (String::from_str("category"), String::from_str("cat_idx")),
        (String::from_str("subCategory"), String::from_str("subCat_idx")),
        (String::from_str("articleType"), String::from_str("articleType_idx")),
        (String::from_str("usage"), String::from_str("usage_idx")),
        (String::from_str("brandName"), String::from_str("brand_idx")),
    ];
    assert(crate::search::term_views(r@) =~= seq![
        ("category"@, "cat_idx"@),
        ("subCategory"@, "subCat_idx"@),
        ("articleType"@, "articleType_idx"@),
        ("usage"@, "usage_idx"@),
        ("brandName"@, "brand_idx"@),
    ]);
    r
}

/// The secondary indexes made at start-up and on request: bin name and
/// index name.
pub fn startup_indexes() -> (r: Vec<(String, String)>)
    ensures
        crate::search::term_views(r@) == seq![
            ("category"@, "cat_idx"@),
            ("subCategory"@, "subCat_idx"@),
            ("usage"@, "usage_idx"@),
            ("brandName"@, "brand_idx"@),
            ("articleType"@, "article_idx"@),
        ],
{
    let r = vec![
        (String::from_str("category"), String::from_str("cat_idx")),
        (String::from_str("subCategory"), String::from_str("subCat_idx")),
        (String::from_str("usage"), String::from_str("usage_idx")),
        (String::from_str("brandName"), String::from_str("brand_idx")),
        (String::from_str("articleType"), String::from_str("article_idx")),
    ];
    assert(crate::search::term_views(r@) =~= seq![
        ("category"@, "cat_idx"@),
        ("subCategory"@, "subCat_idx"@),
        ("usage"@, "usage_idx"@),
        ("brandName"@, "brand_idx"@),
        ("articleType"@, "article_idx"@),
    ]);
    r
}

/// The outcome of making each of a list of indexes.
#[derive(Debug)]
pub struct IndexReport {
    /// Per index name: `Created successfully`, or `Error: ` and the error.
    pub results: StrMap<String>,
    pub success_count: usize,
    pub error_count: usize,
    pub total_indexes: usize,
    pub success: bool,
}

/// The text reported for one index.
pub open spec fn index_result_text(o: Result<(), String>) -> Seq<char> {
    match o {
        Ok(_) => "Created successfully"@,
        Err(e) => "Error: "@ + e@,
    }
}

/// The number of failed outcomes.
pub open spec fn count_failed(s: Seq<Result<(), String>>) -> nat
    decreases s.len(),
{
    if s.len() == 0 {
        0
    } else {
        count_failed(s.drop_last()) + if s.last() is Err { 1nat } else { 0nat }
    }
}

/// The report on making the indexes `indexes` (bin name, index name), where
/// making index `i` ended with `outcomes[i]`.
#[verifier::spinoff_prover]
pub fn index_report(indexes: &Vec<(String, String)>, outcomes: &Vec<Result<(), String>>) -> (r: IndexReport)
    requires
        indexes@.len() == outcomes@.len(),
    ensures
        r.total_indexes == indexes@.len(),
        r.error_count == count_failed(outcomes@),
        r.success_count + r.error_count == r.total_indexes,
        r.success == (r.error_count == 0),
        forall|i: int| 0 <= i < indexes@.len() && (forall|j: int| i < j < indexes@.len() ==> indexes@[j].1@ != indexes@[i].1@)
            ==> #[trigger] r.results.as_map().contains_key(indexes@[i].1@)
                && r.results.as_map()[indexes@[i].1@]@ == index_result_text(outcomes@[i]),
        forall|k: Seq<char>| #[trigger] r.results.as_map().contains_key(k)
            ==> exists|i: int| 0 <= i < indexes@.len() && indexes@[i].1@ == k,
        r.results.unique_keys(),
{
    let n = indexes.len();
    let mut results: StrMap<String> = StrMap::new();
    let mut success_count: usize = 0;
    let mut error_count: usize = 0;
    let mut i: usize = 0;
    while i < n
        invariant
            n == indexes@.len(),
            n == outcomes@.len(),
            i <= n,
            error_count == count_failed(outcomes@.take(i as int)),
            success_count + error_count == i,
            results.unique_keys(),
            forall|a: int| 0 <= a < i && (forall|j: int| a < j < i ==> indexes@[j].1@ != indexes@[a].1@)
                ==> #[trigger] results.as_map().contains_key(indexes@[a].1@)
                    && results.as_map()[indexes@[a].1@]@ == index_result_text(outcomes@[a]),
            forall|k: Seq<char>| #[trigger] results.as_map().contains_key(k)
                ==> exists|a: int| 0 <= a < i && indexes@[a].1@ == k,
        decreases n - i,
    {
        proof {
            assert(outcomes@.take(i + 1).drop_last() =~= outcomes@.take(i as int));
        }
        let text = match &outcomes[i] {
            Ok(()) => {
                success_count = success_count + 1;
                String::from_str("Created successfully")
            },
            Err(e) => {
                error_count = error_count + 1;
                let mut s = String::from_str("Error: ");
                s.append(e.as_str());
                s
            },
        };
        assert(text@ == index_result_text(outcomes@[i as int]));
        let ghost old_results = results;
        let ghost key = indexes@[i as int].1@;
        let ghost tv = text@;
        results.insert(indexes[i].1.clone(), text);
        proof {
            assert(results.as_map() == old_results.as_map().insert(key, results.as_map()[key]));
            assert(results.as_map()[key]@ == tv);
            assert forall|a: int| 0 <= a < i + 1 && (forall|j: int| a < j < i + 1 ==> indexes@[j].1@ != indexes@[a].1@)
                implies #[trigger] results.as_map().contains_key(indexes@[a].1@)
                    && results.as_map()[indexes@[a].1@]@ == index_result_text(outcomes@[a]) by {
                if a < i {
                    assert(indexes@[i as int].1@ != indexes@[a].1@);
                    assert(forall|j: int| a < j < i ==> indexes@[j].1@ != indexes@[a].1@);
                    assert(old_results.as_map().contains_key(indexes@[a].1@));
                    assert(results.as_map()[indexes@[a].1@] == old_results.as_map()[indexes@[a].1@]);
                } else {
                    assert(indexes@[a].1@ == key);
                }
            }
            assert forall|k: Seq<char>| #[trigger] results.as_map().contains_key(k)
                implies exists|a: int| 0 <= a < i + 1 && indexes@[a].1@ == k by {
                if k != key {
                    assert(old_results.as_map().contains_key(k));
                }
            }
        }
        i = i + 1;
    }
    assert(outcomes@.take(n as int) =~= outcomes@);
    IndexReport {
        results,
        success_count,
        error_count,
        total_indexes: n,
        success: error_count == 0,
    }
}

/// What to do once one index of a list has been asked for.
#[derive(Debug, PartialEq, Eq)]
pub enum IndexStep {
    /// Go on with the next index.
    Continue,
    /// Stop here, and answer with this error.
    Stop(String),
}

/// Creating a list of indexes goes on past each index that was made and
/// stops at the first that was not, answering with its error.
pub fn index_creation_step(outcome: Result<(), String>) -> (r: IndexStep)
    ensures
        match outcome {
            Ok(()) => r == IndexStep::Continue,
            Err(e) => r matches IndexStep::Stop(m) && m@ == e@,
        },
{
    match outcome {
        Ok(()) => IndexStep::Continue,
        Err(e) => IndexStep::Stop(e),
    }
}

/// Clearing all data is confirmed only by the exact word `yes-delete-all`.
pub fn clear_confirmed(confirm: &str) -> (r: bool)
    ensures
        r == (confirm@ == "yes-delete-all"@),
{
    str_eq(confirm, "yes-delete-all")
}

/// Whether start-up loads the sample data, given the product count (`None`
/// when it could not be read): only a store known to hold products is left
/// as it is.
pub fn should_autoload(product_count: Option<i64>) -> (r: bool)
    ensures
        r == !(product_count matches Some(c) && c > 0),
{
    match product_count {
        Some(c) => c <= 0,
        None => true,
    }
}

/// The values worth listing: neither empty nor `NA`.
pub open spec fn is_known_value(v: Seq<char>) -> bool {
    v.len() > 0 && v != "NA"@
}

/// The texts of `values` that are worth listing, in order.
pub fn known_values(values: Vec<String>) -> (r: Vec<String>)
    ensures
        crate::text::texts(r@) == crate::text::texts(values@).filter(|v: Seq<char>| is_known_value(v)),
{
    let mut out: Vec<String> = Vec::new();
    let n = values.len();
    let mut i: usize = 0;
    while i < n
        invariant
            n == values@.len(),
            i <= n,
            crate::text::texts(out@) == crate::text::texts(values@.take(i as int)).filter(|v: Seq<char>| is_known_value(v)),
        decreases n - i,
    {
        proof {
            reveal_with_fuel(Seq::<_>::filter, 1);
            let t = crate::text::texts(values@.take(i + 1));
            assert(values@.take(i + 1).drop_last() =~= values@.take(i as int));
            assert(t.drop_last() =~= crate::text::texts(values@.take(i as int)));
            assert(t.last() == values@[i as int]@);
        }
        let keep = values[i].unicode_len() > 0 && !str_eq(values[i].as_str(), "NA");
        if keep {
            let ghost before = out@;
            out.push(values[i].clone());
            assert(crate::text::texts(out@) =~= crate::text::texts(before).push(values@[i as int]@));
        }
        i = i + 1;
    }
    assert(values@.take(n as int) =~= values@);
    out
}

/// The texts of the string values among `values`, in order.
pub open spec fn string_texts(vs: Seq<BinView>) -> Seq<Seq<char>>
    decreases vs.len(),
{
    if vs.len() == 0 {
        seq![]
    } else {
        let rest = string_texts(vs.drop_last());
        match vs.last() {
            BinView::Str(s) => rest.push(s),
            BinView::GeoJson(s) => rest.push(s),
            _ => rest,
        }
    }
}

/// The texts of the string values in a list read from the store.
pub fn texts_of_values(values: &Vec<BinValue>) -> (r: Vec<String>)
    ensures
        crate::text::texts(r@) == string_texts(crate::bin_value::bin_items(values@)),
{
    let mut out: Vec<String> = Vec::new();
    let n = values.len();
    let mut i: usize = 0;
    let ghost vs = crate::bin_value::bin_items(values@);
    proof {
        crate::bin_value::lemma_bin_items_index(values@);
    }
    while i < n
        invariant
            n == values@.len(),
            vs == crate::bin_value::bin_items(values@),
            vs.len() == n,
            forall|j: int| 0 <= j < n ==> #[trigger] vs[j] == values@[j]@,
            i <= n,
            crate::text::texts(out@) == string_texts(vs.take(i as int)),
        decreases n - i,
    {
        proof {
            assert(vs.take(i + 1).drop_last() =~= vs.take(i as int));
            assert(vs.take(i + 1).last() == values@[i as int]@);
        }
        match value_as_string(&values[i]) {
            Some(s) => {
                let ghost before = out@;
                out.push(s);
                assert(crate::text::texts(out@) =~= crate::text::texts(before).push(out@.last()@));
            },
            None => {},
        }
        i = i + 1;
    }
    assert(vs.take(n as int) =~= vs);
    out
}

/// The directory the web front end is served from, under the project directory.
pub fn static_dir(project_dir: &str) -> (r: String)
    ensures
        r@ == join_spec(project_dir@, "static"@),
{
    join_path(project_dir, "static")
}

/// Why a request to load the catalogue from a directory is refused.
#[derive(Debug, PartialEq, Eq)]
pub enum LoadRequestError {
    /// The path is not a directory.
    NotADirectory,
    /// The directory has no `styles` directory.
    MissingStyles,
}

/// Checks a request to load the catalogue from `data_path`, given whether
/// it is a directory and whether its `styles` directory is one.
pub fn check_load_request(is_dir: bool, styles_is_dir: bool) -> (r: Option<LoadRequestError>)
    ensures
        r == (if !is_dir {
            Some(LoadRequestError::NotADirectory)
        } else if !styles_is_dir {
            Some(LoadRequestError::MissingStyles)
        } else {
            None
        }),
{
    if !is_dir {
        Some(LoadRequestError::NotADirectory)
    } else if !styles_is_dir {
        Some(LoadRequestError::MissingStyles)
    } else {
        None
    }
}

impl LoadRequestError {
    /// The error the request is answered with.
    pub fn error_text(&self, data_path: &str) -> (r: String)
        ensures
            r@ == match *self {
                LoadRequestError::NotADirectory => "Invalid data path: "@ + data_path@,
                LoadRequestError::MissingStyles => "Missing styles directory"@,
            },
    {
        match self {
            LoadRequestError::NotADirectory => {
                let mut s = String::from_str("Invalid data path: ");
                s.append(data_path);
                s
            },
            LoadRequestError::MissingStyles => String::from_str("Missing styles directory"),
        }
    }

    /// The explanation the request is answered with.
    pub fn message_text(&self) -> (r: String)
        ensures
            r@ == match *self {
                LoadRequestError::NotADirectory => "Path does not exist or is not a directory"@,
                LoadRequestError::MissingStyles => "The data path must contain a 'styles' subdirectory with JSON files"@,
            },
    {
        match self {
            LoadRequestError::NotADirectory => String::from_str("Path does not exist or is not a directory"),
            LoadRequestError::MissingStyles => String::from_str("The data path must contain a 'styles' subdirectory with JSON files"),
        }
    }
}

/// The error a request to load one product file is refused with, when the
/// path is not a regular file.
pub fn single_file_error(file_path: &str, is_file: bool) -> (r: Option<String>)
    ensures
        is_file ==> r is None,
        !is_file ==> (r matches Some(e) && e@ == "Invalid file path: "@ + file_path@),
{
    if is_file {
        None
    } else {
        let mut s = String::from_str("Invalid file path: ");
        s.append(file_path);
        Some(s)
    }
}

} // verus!
