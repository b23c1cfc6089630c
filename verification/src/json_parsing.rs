//! Turning the catalogue's product files into product records.
use vstd::prelude::*;
use crate::json::{lemma_get_view, view_get, get_member_i64, get_member_str, lemma_view_items_index, member, member_i64, member_str, member_view, nested_str, view_items, Json, JsonNumber, JsonView};
use crate::json_text::{parse_json, parsed_json};
use crate::roundtrip::plain;
use crate::strmap::StrMap;
use crate::paths::{file_name_spec, file_stem_or_empty, has_json_extension, join_path, join_spec, extension_spec, stem_spec};
use crate::text::{chars_of, lex_sorted, sort_strings, split_chars, split_spec, texts};

verus! {

/// Reads the catalogue's style files: picks them out of a directory listing,
/// names products after their files and reshapes their contents.
pub struct JsonParsingService;

/// The text of field `k` of `data`, when `data` is an object and the field is a string.
pub open spec fn field_str(data: JsonView, k: Seq<char>) -> Option<Seq<char>> {
    match view_get(data, k) {
        Some(JsonView::Str(s)) => Some(s),
        _ => None,
    }
}

/// The value of field `k` of `data`, when it is a number that is an `i64`.
pub open spec fn field_i64(data: JsonView, k: Seq<char>) -> Option<i64> {
    match view_get(data, k) {
        Some(JsonView::Number(JsonNumber::Int(i))) => Some(i),
        _ => None,
    }
}

/// Field `k` of `data`.
pub open spec fn field_view(data: JsonView, k: Seq<char>) -> Option<JsonView> {
    view_get(data, k)
}

/// The text of `typeName` inside field `k` of `data`.
pub open spec fn field_type_name(data: JsonView, k: Seq<char>) -> Option<Seq<char>> {
    match view_get(data, k) {
        Some(v) => field_str(v, "typeName"@),
        None => None,
    }
}

pub open spec fn str_view(s: Option<Seq<char>>) -> Option<JsonView> {
    match s {
        Some(t) => Some(JsonView::Str(t)),
        None => None,
    }
}

pub open spec fn num_view(n: Option<i64>) -> Option<JsonView> {
    match n {
        Some(i) => Some(JsonView::Number(JsonNumber::Int(i))),
        None => None,
    }
}

pub open spec fn str_or_null(s: Option<Seq<char>>) -> JsonView {
    match s {
        Some(t) => JsonView::Str(t),
        None => JsonView::Null,
    }
}

/// `displayCategories` split at commas into an array of strings, or `["NA"]`
/// when the field is not a string.
pub open spec fn display_categories(data: JsonView) -> JsonView {
    match field_str(data, "displayCategories"@) {
        Some(s) => JsonView::Array(split_spec(s, ',').map_values(|p: Seq<char>| JsonView::Str(p))),
        None => JsonView::Array(seq![JsonView::Str("NA"@)]),
    }
}

/// The members of `m`, each by its view.
pub open spec fn members_view(m: StrMap<Json>) -> Map<Seq<char>, JsonView> {
    Map::new(|k: Seq<char>| m.as_map().contains_key(k), |k: Seq<char>| m.as_map()[k]@)
}

/// `m` holds, once each, exactly the members of the product record made from
/// the product file contents `data` for the product `id`.
pub open spec fn is_formatted_product(m: StrMap<Json>, data: JsonView, id: Seq<char>) -> bool {
    &&& m.unique_keys()
    &&& members_view(m) == formatted_members(data, id)
}

fn put(m: &mut StrMap<Json>, key: &str, v: Json, Ghost(g): Ghost<Map<Seq<char>, JsonView>>) -> (g2: Ghost<Map<Seq<char>, JsonView>>)
    requires
        old(m).unique_keys(),
        forall|k: Seq<char>| #[trigger] old(m).as_map().contains_key(k) <==> g.contains_key(k),
        forall|k: Seq<char>| #[trigger] old(m).as_map().contains_key(k) ==> old(m).as_map()[k]@ == g[k],
    ensures
        g2@ == g.insert(key@, v@),
        final(m).unique_keys(),
        forall|k: Seq<char>| #[trigger] final(m).as_map().contains_key(k) <==> g2@.contains_key(k),
        forall|k: Seq<char>| #[trigger] final(m).as_map().contains_key(k) ==> final(m).as_map()[k]@ == g2@[k],
{
    let ghost vv = v@;
    m.insert(String::from_str(key), v);
    Ghost(g.insert(key@, vv))
}

pub open spec fn put_opt(g: Map<Seq<char>, JsonView>, k: Seq<char>, o: Option<JsonView>) -> Map<Seq<char>, JsonView> {
    match o {
        Some(v) => g.insert(k, v),
        None => g,
    }
}

pub open spec fn opt_view(v: Option<Json>) -> Option<JsonView> {
    match v {
        Some(j) => Some(j@),
        None => None,
    }
}

/// The members of the product record made from the product file contents
/// `data` for the product `id`: `put_opt` adds a member when its source field
/// is there with the right type. The member names are all distinct.
pub open spec fn formatted_members(data: JsonView, id: Seq<char>) -> Map<Seq<char>, JsonView> {
    let g = Map::<Seq<char>, JsonView>::empty().insert("id"@, JsonView::Str(id));
    let g = put_opt(g, "price"@, num_view(field_i64(data, "price"@)));
    let g = put_opt(g, "salePrice"@, num_view(field_i64(data, "discountedPrice"@)));
    let g = put_opt(g, "name"@, str_view(field_str(data, "productDisplayName"@)));
    let g = put_opt(g, "descriptors"@, field_view(data, "productDescriptors"@));
    let g = put_opt(g, "variantName"@, str_view(field_str(data, "variantName"@)));
    let g = put_opt(g, "added"@, num_view(field_i64(data, "catalogAddDate"@)));
    let g = put_opt(g, "brandName"@, str_view(field_str(data, "brandName"@)));
    let g = put_opt(g, "ageGroup"@, str_view(field_str(data, "ageGroup"@)));
    let g = put_opt(g, "gender"@, str_view(field_str(data, "gender"@)));
    let g = g.insert("colors"@, JsonView::Array(seq![
        str_or_null(field_str(data, "baseColour"@)),
        str_or_null(field_str(data, "colour1"@)),
        str_or_null(field_str(data, "colour2"@)),
    ]));
    let g = put_opt(g, "season"@, str_view(field_str(data, "season"@)));
    let g = put_opt(g, "usage"@, str_view(field_str(data, "usage"@)));
    let g = put_opt(g, "articleAttr"@, field_view(data, "articleAttributes"@));
    let g = put_opt(g, "images"@, field_view(data, "styleImages"@));
    let g = put_opt(g, "options"@, field_view(data, "styleOptions"@));
    let g = g.insert("displayCat"@, display_categories(data));
    let g = put_opt(g, "category"@, str_view(field_type_name(data, "masterCategory"@)));
    let g = put_opt(g, "subCategory"@, str_view(field_type_name(data, "subCategory"@)));
    put_opt(g, "articleType"@, str_view(field_type_name(data, "articleType"@)))
}

fn put_maybe(m: &mut StrMap<Json>, key: &str, v: Option<Json>, Ghost(g): Ghost<Map<Seq<char>, JsonView>>) -> (g2: Ghost<Map<Seq<char>, JsonView>>)
    requires
        old(m).unique_keys(),
        forall|k: Seq<char>| #[trigger] old(m).as_map().contains_key(k) <==> g.contains_key(k),
        forall|k: Seq<char>| #[trigger] old(m).as_map().contains_key(k) ==> old(m).as_map()[k]@ == g[k],
    ensures
        g2@ == put_opt(g, key@, opt_view(v)),
        final(m).unique_keys(),
        forall|k: Seq<char>| #[trigger] final(m).as_map().contains_key(k) <==> g2@.contains_key(k),
        forall|k: Seq<char>| #[trigger] final(m).as_map().contains_key(k) ==> final(m).as_map()[k]@ == g2@[k],
{
    match v {
        Some(j) => put(m, key, j, Ghost(g)),
        None => Ghost(g),
    }
}

fn int_json(v: Option<i64>) -> (r: Option<Json>)
    ensures
        opt_view(r) == num_view(v),
{
    match v {
        Some(i) => Some(Json::from_i64(i)),
        None => None,
    }
}

fn text_json(v: Option<String>) -> (r: Option<Json>)
    ensures
        opt_view(r) == str_view(match v { Some(t) => Some(t@), None => None }),
{
    match v {
        Some(t) => Some(Json::Str(t)),
        None => None,
    }
}

fn copy_json(v: Option<&Json>) -> (r: Option<Json>)
    ensures
        opt_view(r) == match v { Some(j) => Some(j@), None => None },
{
    match v {
        Some(j) => Some(j.deep_clone()),
        None => None,
    }
}

fn str_json(s: Option<String>) -> (r: Json)
    ensures
        r@ == str_or_null(match s { Some(t) => Some(t@), None => None }),
{
    match s {
        Some(t) => Json::Str(t),
        None => Json::Null,
    }
}

/// The product id named by a product file's path: the stem of its final
/// component, or empty text when there is none.
pub open spec fn product_id_spec(path: Seq<char>) -> Seq<char> {
    match file_name_spec(path) {
        Some(n) => stem_spec(n),
        None => Seq::<char>::empty(),
    }
}

/// The final component of `path` has the extension `json`.
pub open spec fn is_json_path(path: Seq<char>) -> bool {
    file_name_spec(path) matches Some(n) && extension_spec(n) == Some("json"@)
}

/// The paths among `s` whose final component has the extension `json`.
pub open spec fn json_paths(s: Seq<Seq<char>>) -> Seq<Seq<char>> {
    s.filter(|p: Seq<char>| is_json_path(p))
}

/// The catalogue's style files directory under `data_root`.
pub open spec fn styles_dir_spec(data_root: Seq<char>) -> Seq<char> {
    join_spec(data_root, "styles"@)
}

/// What `get_style_files` answers for the data root `root`, whether its
/// styles directory exists, and the file paths found under that directory.
pub open spec fn style_files_ok(found: Seq<String>, r: Seq<String>) -> bool {
    &&& lex_sorted(texts(r))
    &&& texts(r).to_multiset() == json_paths(texts(found)).to_multiset()
}

impl JsonParsingService {
    /// The id of the product described by the file at `file_path`: the file
    /// name without its extension.
    pub fn extract_product_id(&self, file_path: &str) -> (r: String)
        ensures
            r@ == product_id_spec(file_path@),
    {
        file_stem_or_empty(file_path)
    }

    /// The path of the styles directory under `data_root_path`.
    pub fn styles_dir(&self, data_root_path: &str) -> (r: String)
        ensures
            r@ == styles_dir_spec(data_root_path@),
    {
        join_path(data_root_path, "styles")
    }

    /// The product files of the catalogue, in lexicographic order of their
    /// paths: those of `found` (every file under the styles directory, or the
    /// error met while walking it) whose extension is `json`. Fails when the
    /// styles directory under `data_root_path` does not exist.
    pub fn get_style_files(&self, data_root_path: &str, styles_is_dir: bool, found: Result<Vec<String>, String>)
        -> (r: Result<Vec<String>, String>)
        ensures
            !styles_is_dir ==> (r matches Err(e)
                && e@ == "Styles directory not found: "@ + styles_dir_spec(data_root_path@)),
            styles_is_dir ==> match found {
                Err(e) => r matches Err(e2) && e2@ == e@,
                Ok(files) => r matches Ok(v) && style_files_ok(files@, v@),
            },
    {
        if !styles_is_dir {
            let mut msg = String::from_str("Styles directory not found: ");
            let dir = self.styles_dir(data_root_path);
            msg.append(dir.as_str());
            return Err(msg);
        }
        match found {
            Err(e) => Err(e),
            Ok(files) => {
                let mut picked: Vec<String> = Vec::new();
                let n = files.len();
                let mut i: usize = 0;
                proof {
                    reveal_strlit("json");
                }
                while i < n
                    invariant
                        n == files@.len(),
                        i <= n,
                        texts(picked@) == json_paths(texts(files@.take(i as int))),
                    decreases n - i,
                {
                    proof {
                        reveal_with_fuel(Seq::<_>::filter, 1);
                        reveal_strlit("json");
                        assert(texts(files@.take(i + 1)) =~= texts(files@.take(i as int)).push(files@[i as int]@));
                        assert(texts(files@.take(i + 1)).drop_last() =~= texts(files@.take(i as int)));
                    }
                    let keep = has_json_extension(files[i].as_str());
                    proof {
                        assert("json"@ =~= seq!['j', 's', 'o', 'n']);
                        assert(keep == is_json_path(files@[i as int]@));
                        let t1 = texts(files@.take(i + 1));
                        assert(t1.last() == files@[i as int]@);
                        if keep {
                            assert(json_paths(t1) == json_paths(t1.drop_last()).push(t1.last()));
                        } else {
                            assert(json_paths(t1) == json_paths(t1.drop_last()));
                        }
                    }
                    if keep {
                        picked.push(files[i].clone());
                        assert(texts(picked@) =~= json_paths(texts(files@.take(i as int))).push(files@[i as int]@));
                    }
                    i = i + 1;
                }
                assert(files@.take(n as int) =~= files@);
                let sorted = sort_strings(picked);
                Ok(sorted)
            },
        }
    }

    /// The `data` node of a product file's parsed contents.
    pub fn data_node(&self, root: &Json) -> (r: Result<Json, String>)
        ensures
            match view_get(root@, "data"@) {
                Some(d) => r matches Ok(v) && v@ == d,
                None => r matches Err(e) && e@ == "Invalid JSON structure - missing 'data' node"@,
            },
    {
        proof {
            lemma_get_view(*root, "data"@);
        }
        match root.get("data") {
            Some(d) => Ok(d.deep_clone()),
            None => Err(String::from_str("Invalid JSON structure - missing 'data' node")),
        }
    }

    /// The `data` node of the product file `file_path`, whose text is `content`.
    pub fn parse_product_file(&self, file_path: &str, content: &str) -> (r: Result<Json, String>)
        ensures
            match parsed_json(content@) {
                Err(e) => r matches Err(m) && m@ == "Invalid JSON in "@ + file_path@ + ": "@ + e,
                Ok(root) => match view_get(root, "data"@) {
                    Some(d) => r matches Ok(v) && v@ == d,
                    None => r matches Err(m) && m@ == "Invalid JSON structure - missing 'data' node"@,
                },
            },
            r matches Ok(v) ==> plain(v@),
    {
        match parse_json(content) {
            Err(e) => {
                let mut m = String::from_str("Invalid JSON in ");
                m.append(file_path);
                m.append(": ");
                m.append(e.as_str());
                Err(m)
            },
            Ok(root) => {
                proof {
                    crate::roundtrip::lemma_view_get_plain(root@, "data"@);
                }
                self.data_node(&root)
            },
        }
    }

    /// Reshapes the `data` node of a product file into a product record for
    /// the product `product_id`.
    #[verifier::rlimit(60)]
    pub fn format_product_data(&self, data: &Json, product_id: &str) -> (r: Json)
        ensures
            r matches Json::Object(m) && is_formatted_product(m, data@, product_id@),
    {
        let empty: StrMap<Json> = StrMap::new();
        let obj: &StrMap<Json> = match data.as_object() {
            Some(m) => m,
            None => &empty,
        };
        assert(forall|k: Seq<char>| #[trigger] data.get_spec(k) == member(*obj, k));
        assert forall|k: Seq<char>| #[trigger] member_view(*obj, k) == field_view(data@, k) by {
            lemma_get_view(*data, k);
        }
        assert forall|k: Seq<char>| #[trigger] member_i64(*obj, k) == field_i64(data@, k) by {
            lemma_get_view(*data, k);
        }
        assert forall|k: Seq<char>| #[trigger] member_str(*obj, k) == field_str(data@, k) by {
            lemma_get_view(*data, k);
        }
        assert forall|k: Seq<char>| #[trigger] nested_str(*obj, k, "typeName"@) == field_type_name(data@, k) by {
            lemma_get_view(*data, k);
            if let Some(v) = data.get_spec(k) {
                lemma_get_view(v, "typeName"@);
            }
        }

        let display_cat: Json = match get_member_str(obj, "displayCategories") {
            Some(s) => {
                let chars = chars_of(s.as_str());
                let parts = split_chars(&chars, ',');
                let mut items: Vec<Json> = Vec::new();
                let mut i: usize = 0;
                while i < parts.len()
                    invariant
                        i <= parts@.len(),
                        items@.len() == i,
                        forall|j: int| 0 <= j < i ==> #[trigger] items@[j]@ == JsonView::Str(parts@[j]@),
                    decreases parts@.len() - i,
                {
                    items.push(Json::Str(parts[i].clone()));
                    i = i + 1;
                }
                proof {
                    lemma_view_items_index(items@);
                    let sp = split_spec(s@, ',');
                    assert(view_items(items@) =~= sp.map_values(|p: Seq<char>| JsonView::Str(p)));
                }
                Json::Array(items)
            },
            None => {
                let mut items: Vec<Json> = Vec::new();
                items.push(Json::from_str("NA"));
                proof {
                    lemma_view_items_index(items@);
                    assert(view_items(items@) =~= seq![JsonView::Str("NA"@)]);
                }
                Json::Array(items)
            },
        };
        assert(display_cat@ == display_categories(data@));

        let category = member_type_name(obj, "masterCategory");
        let sub_category = member_type_name(obj, "subCategory");
        let article_type = member_type_name(obj, "articleType");

        let mut product: StrMap<Json> = StrMap::new();
        let ghost g0 = Map::<Seq<char>, JsonView>::empty();
        let Ghost(g) = put(&mut product, "id", Json::Str(String::from_str(product_id)), Ghost(g0));
        let Ghost(g) = put_maybe(&mut product, "price", int_json(get_member_i64(obj, "price")), Ghost(g));
        let Ghost(g) = put_maybe(&mut product, "salePrice", int_json(get_member_i64(obj, "discountedPrice")), Ghost(g));
        let Ghost(g) = put_maybe(&mut product, "name", text_json(get_member_str(obj, "productDisplayName")), Ghost(g));
        let Ghost(g) = put_maybe(&mut product, "descriptors", copy_json(obj.get("productDescriptors")), Ghost(g));
        let Ghost(g) = put_maybe(&mut product, "variantName", text_json(get_member_str(obj, "variantName")), Ghost(g));
        let Ghost(g) = put_maybe(&mut product, "added", int_json(get_member_i64(obj, "catalogAddDate")), Ghost(g));
        let Ghost(g) = put_maybe(&mut product, "brandName", text_json(get_member_str(obj, "brandName")), Ghost(g));
        let Ghost(g) = put_maybe(&mut product, "ageGroup", text_json(get_member_str(obj, "ageGroup")), Ghost(g));
        let Ghost(g) = put_maybe(&mut product, "gender", text_json(get_member_str(obj, "gender")), Ghost(g));
        let mut colors: Vec<Json> = Vec::new();
        colors.push(str_json(get_member_str(obj, "baseColour")));
        colors.push(str_json(get_member_str(obj, "colour1")));
        colors.push(str_json(get_member_str(obj, "colour2")));
        proof {
            lemma_view_items_index(colors@);
            assert(view_items(colors@) =~= seq![
                str_or_null(field_str(data@, "baseColour"@)),
                str_or_null(field_str(data@, "colour1"@)),
                str_or_null(field_str(data@, "colour2"@)),
            ]);
        }
        let Ghost(g) = put(&mut product, "colors", Json::Array(colors), Ghost(g));
        let Ghost(g) = put_maybe(&mut product, "season", text_json(get_member_str(obj, "season")), Ghost(g));
        let Ghost(g) = put_maybe(&mut product, "usage", text_json(get_member_str(obj, "usage")), Ghost(g));
        let Ghost(g) = put_maybe(&mut product, "articleAttr", copy_json(obj.get("articleAttributes")), Ghost(g));
        let Ghost(g) = put_maybe(&mut product, "images", copy_json(obj.get("styleImages")), Ghost(g));
        let Ghost(g) = put_maybe(&mut product, "options", copy_json(obj.get("styleOptions")), Ghost(g));
        let Ghost(g) = put(&mut product, "displayCat", display_cat, Ghost(g));
        let Ghost(g) = put_maybe(&mut product, "category", text_json(category), Ghost(g));
        let Ghost(g) = put_maybe(&mut product, "subCategory", text_json(sub_category), Ghost(g));
        let Ghost(g) = put_maybe(&mut product, "articleType", text_json(article_type), Ghost(g));
        proof {
            assert(member_i64(*obj, "price"@) == field_i64(data@, "price"@));
            assert(member_i64(*obj, "discountedPrice"@) == field_i64(data@, "discountedPrice"@));
            assert(member_i64(*obj, "catalogAddDate"@) == field_i64(data@, "catalogAddDate"@));
            assert(member_view(*obj, "productDescriptors"@) == field_view(data@, "productDescriptors"@));
            assert(member_view(*obj, "articleAttributes"@) == field_view(data@, "articleAttributes"@));
            assert(member_view(*obj, "styleImages"@) == field_view(data@, "styleImages"@));
            assert(member_view(*obj, "styleOptions"@) == field_view(data@, "styleOptions"@));
            assert(nested_str(*obj, "masterCategory"@, "typeName"@) == field_type_name(data@, "masterCategory"@));
            assert(nested_str(*obj, "subCategory"@, "typeName"@) == field_type_name(data@, "subCategory"@));
            assert(nested_str(*obj, "articleType"@, "typeName"@) == field_type_name(data@, "articleType"@));
            assert(g == formatted_members(data@, product_id@));
            assert(members_view(product) =~= g);
        }
        Json::Object(product)
    }
}

/// The text of `typeName` inside member `key` of `m`.
fn member_type_name(m: &StrMap<Json>, key: &str) -> (r: Option<String>)
    ensures
        match r {
            Some(s) => nested_str(*m, key@, "typeName"@) == Some(s@),
            None => nested_str(*m, key@, "typeName"@) is None,
        },
{
    match m.get(key) {
        Some(v) => match v.get("typeName") {
            Some(w) => match w.as_str() {
                Some(s) => Some(String::from_str(s)),
                None => None,
            },
            None => None,
        },
        None => None,
    }
}

} // verus!

verus! {

/// Where the sample data is looked for first, relative to the working directory.
pub const DATA_DIR_BESIDE: &'static str = "../data";

/// Where the sample data is looked for next, relative to the working directory.
pub const DATA_DIR_BELOW: &'static str = "data";

/// The sample data directory: `../data` when it holds a `styles` directory,
/// else `data` when that one does, else `../data`. A chosen directory is
/// given by its canonical path when that could be found.
pub fn resolve_data_path(
    beside_has_styles: bool,
    beside_canonical: Option<String>,
    below_has_styles: bool,
    below_canonical: Option<String>,
) -> (r: String)
    ensures
        beside_has_styles ==> r@ == match beside_canonical { Some(c) => c@, None => DATA_DIR_BESIDE@ },
        !beside_has_styles && below_has_styles ==> r@ == match below_canonical { Some(c) => c@, None => DATA_DIR_BELOW@ },
        !beside_has_styles && !below_has_styles ==> r@ == DATA_DIR_BESIDE@,
{
    if beside_has_styles {
        return match beside_canonical {
            Some(c) => c,
            None => String::from_str(DATA_DIR_BESIDE),
        };
    }
    if below_has_styles {
        return match below_canonical {
            Some(c) => c,
            None => String::from_str(DATA_DIR_BELOW),
        };
    }
    String::from_str(DATA_DIR_BESIDE)
}

} // verus!
