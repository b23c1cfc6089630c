//! Product records and their JSON layout.
use vstd::prelude::*;
use crate::fields::{
    opt_any_spec, seq_member, opt_i64_spec, opt_items, opt_json, opt_list_spec, opt_pairs, opt_text, opt_text_list_spec,
    opt_text_map_spec, opt_text_spec, opt_texts, read_opt_any, read_opt_i64, read_opt_list, read_opt_text,
    read_opt_text_list, read_opt_text_map, text_pairs, DecodeError,
};
use crate::json::{lemma_view_entries_index, lemma_view_items_index, member_insert, object_insert, view_entries, view_items, Json, JsonNumber, JsonView};
use crate::strmap::StrMap;
use crate::bin_value::{bin_of, bins_to_json_map, json_of_named, json_to_value, BinValue, BinView};

verus! {

/// Sets member `k` to `o`'s value, or leaves the members as they are when
/// there is none.
pub open spec fn opt_put(es: Seq<(Seq<char>, JsonView)>, k: Seq<char>, o: Option<JsonView>) -> Seq<(Seq<char>, JsonView)> {
    match o {
        Some(v) => member_insert(es, k, v),
        None => es,
    }
}

pub open spec fn text_json(o: Option<Seq<char>>) -> Option<JsonView> {
    match o {
        Some(s) => Some(JsonView::Str(s)),
        None => None,
    }
}

pub open spec fn int_json(o: Option<i64>) -> Option<JsonView> {
    match o {
        Some(i) => Some(JsonView::Number(JsonNumber::Int(i))),
        None => None,
    }
}

pub open spec fn any_json(o: Option<JsonView>) -> Option<JsonView> {
    o
}

pub open spec fn text_items(ts: Seq<Seq<char>>) -> Seq<JsonView> {
    ts.map_values(|t: Seq<char>| JsonView::Str(t))
}

pub open spec fn texts_json(o: Option<Seq<Seq<char>>>) -> Option<JsonView> {
    match o {
        Some(ts) => Some(JsonView::Array(text_items(ts))),
        None => None,
    }
}

pub open spec fn items_json(o: Option<Seq<JsonView>>) -> Option<JsonView> {
    match o {
        Some(items) => Some(JsonView::Array(items)),
        None => None,
    }
}

pub open spec fn text_members(ps: Seq<(Seq<char>, Seq<char>)>) -> Seq<(Seq<char>, JsonView)> {
    ps.map_values(|p: (Seq<char>, Seq<char>)| (p.0, JsonView::Str(p.1)))
}

pub open spec fn pairs_json(o: Option<Seq<(Seq<char>, Seq<char>)>>) -> Option<JsonView> {
    match o {
        Some(ps) => Some(JsonView::Object(text_members(ps))),
        None => None,
    }
}

fn put_json(m: &mut StrMap<Json>, key: &str, v: Option<Json>, Ghost(es): Ghost<Seq<(Seq<char>, JsonView)>>)
    -> (g: Ghost<Seq<(Seq<char>, JsonView)>>)
    requires
        view_entries(old(m).entries@) == es,
        old(m).unique_keys(),
    ensures
        g@ == opt_put(es, key@, opt_json(v)),
        view_entries(final(m).entries@) == g@,
        final(m).unique_keys(),
{
    match v {
        Some(j) => {
            let ghost jv = j@;
            object_insert(m, String::from_str(key), j);
            Ghost(member_insert(es, key@, jv))
        },
        None => Ghost(es),
    }
}

pub(crate) fn put_text(m: &mut StrMap<Json>, key: &str, v: &Option<String>, Ghost(es): Ghost<Seq<(Seq<char>, JsonView)>>)
    -> (g: Ghost<Seq<(Seq<char>, JsonView)>>)
    requires
        view_entries(old(m).entries@) == es,
        old(m).unique_keys(),
    ensures
        g@ == opt_put(es, key@, text_json(opt_text(*v))),
        view_entries(final(m).entries@) == g@,
        final(m).unique_keys(),
{
    let j = match v {
        Some(s) => Some(Json::Str(s.clone())),
        None => None,
    };
    put_json(m, key, j, Ghost(es))
}

pub(crate) fn put_int(m: &mut StrMap<Json>, key: &str, v: &Option<i64>, Ghost(es): Ghost<Seq<(Seq<char>, JsonView)>>)
    -> (g: Ghost<Seq<(Seq<char>, JsonView)>>)
    requires
        view_entries(old(m).entries@) == es,
        old(m).unique_keys(),
    ensures
        g@ == opt_put(es, key@, int_json(*v)),
        view_entries(final(m).entries@) == g@,
        final(m).unique_keys(),
{
    let j = match v {
        Some(i) => Some(Json::Number(JsonNumber::Int(*i))),
        None => None,
    };
    put_json(m, key, j, Ghost(es))
}

fn put_any(m: &mut StrMap<Json>, key: &str, v: &Option<Json>, Ghost(es): Ghost<Seq<(Seq<char>, JsonView)>>)
    -> (g: Ghost<Seq<(Seq<char>, JsonView)>>)
    requires
        view_entries(old(m).entries@) == es,
        old(m).unique_keys(),
    ensures
        g@ == opt_put(es, key@, any_json(opt_json(*v))),
        view_entries(final(m).entries@) == g@,
        final(m).unique_keys(),
{
    let j = match v {
        Some(x) => Some(x.deep_clone()),
        None => None,
    };
    put_json(m, key, j, Ghost(es))
}

fn put_texts(m: &mut StrMap<Json>, key: &str, v: &Option<Vec<String>>, Ghost(es): Ghost<Seq<(Seq<char>, JsonView)>>)
    -> (g: Ghost<Seq<(Seq<char>, JsonView)>>)
    requires
        view_entries(old(m).entries@) == es,
        old(m).unique_keys(),
    ensures
        g@ == opt_put(es, key@, texts_json(opt_texts(*v))),
        view_entries(final(m).entries@) == g@,
        final(m).unique_keys(),
{
    let j = match v {
        Some(ts) => {
            let mut items: Vec<Json> = Vec::new();
            let mut i: usize = 0;
            while i < ts.len()
                invariant
                    i <= ts@.len(),
                    items@.len() == i,
                    forall|k: int| 0 <= k < i ==> #[trigger] items@[k]@ == JsonView::Str(ts@[k]@),
                decreases ts@.len() - i,
            {
                items.push(Json::Str(ts[i].clone()));
                i = i + 1;
            }
            proof {
                lemma_view_items_index(items@);
                assert(view_items(items@) =~= text_items(ts@.map_values(|s: String| s@)));
            }
            Some(Json::Array(items))
        },
        None => None,
    };
    put_json(m, key, j, Ghost(es))
}

fn put_items(m: &mut StrMap<Json>, key: &str, v: &Option<Vec<Json>>, Ghost(es): Ghost<Seq<(Seq<char>, JsonView)>>)
    -> (g: Ghost<Seq<(Seq<char>, JsonView)>>)
    requires
        view_entries(old(m).entries@) == es,
        old(m).unique_keys(),
    ensures
        g@ == opt_put(es, key@, items_json(opt_items(*v))),
        view_entries(final(m).entries@) == g@,
        final(m).unique_keys(),
{
    let j = match v {
        Some(xs) => {
            let mut items: Vec<Json> = Vec::new();
            let mut i: usize = 0;
            while i < xs.len()
                invariant
                    i <= xs@.len(),
                    view_items(items@) == view_items(xs@.take(i as int)),
                decreases xs@.len() - i,
            {
                let c = xs[i].deep_clone();
                let ghost before = items@;
                items.push(c);
                proof {
                    assert(items@.drop_last() =~= before);
                    assert(xs@.take(i + 1).drop_last() =~= xs@.take(i as int));
                }
                i = i + 1;
            }
            assert(xs@.take(xs@.len() as int) =~= xs@);
            Some(Json::Array(items))
        },
        None => None,
    };
    put_json(m, key, j, Ghost(es))
}

fn put_pairs(m: &mut StrMap<Json>, key: &str, v: &Option<StrMap<String>>, Ghost(es): Ghost<Seq<(Seq<char>, JsonView)>>)
    -> (g: Ghost<Seq<(Seq<char>, JsonView)>>)
    requires
        view_entries(old(m).entries@) == es,
        old(m).unique_keys(),
    ensures
        g@ == opt_put(es, key@, pairs_json(opt_pairs(*v))),
        view_entries(final(m).entries@) == g@,
        final(m).unique_keys(),
{
    let j = match v {
        Some(ps) => {
            let mut entries: Vec<(String, Json)> = Vec::new();
            let mut i: usize = 0;
            while i < ps.entries.len()
                invariant
                    i <= ps.entries@.len(),
                    entries@.len() == i,
                    forall|k: int| #![trigger entries@[k]] 0 <= k < i ==> entries@[k].0@ == ps.entries@[k].0@
                        && entries@[k].1@ == JsonView::Str(ps.entries@[k].1@),
                decreases ps.entries@.len() - i,
            {
                entries.push((ps.entries[i].0.clone(), Json::Str(ps.entries[i].1.clone())));
                i = i + 1;
            }
            proof {
                lemma_view_entries_index(entries@);
                assert(view_entries(entries@) =~= text_members(text_pairs(*ps)));
            }
            Some(Json::Object(StrMap { entries }))
        },
        None => None,
    };
    put_json(m, key, j, Ghost(es))
}

#[derive(Debug, PartialEq)]
pub struct Product {
    pub id: Option<String>,
    pub brand_name: Option<String>,
    pub images: Option<Json>,
    pub sub_category: Option<String>,
    pub gender: Option<String>,
    pub sale_price: Option<i64>,
    pub added: Option<i64>,
    pub usage: Option<String>,
    pub display_cat: Option<Vec<String>>,
    pub age_group: Option<String>,
    pub colors: Option<Vec<String>>,
    pub descriptors: Option<Json>,
    pub article_type: Option<String>,
    pub price: Option<i64>,
    pub name: Option<String>,
    pub options: Option<Vec<Json>>,
    pub season: Option<String>,
    pub article_attr: Option<StrMap<String>>,
    pub variant_name: Option<String>,
    pub category: Option<String>,
}

/// The mathematical value of a [`Product`].
pub struct ProductView {
    pub id: Option<Seq<char>>,
    pub brand_name: Option<Seq<char>>,
    pub images: Option<JsonView>,
    pub sub_category: Option<Seq<char>>,
    pub gender: Option<Seq<char>>,
    pub sale_price: Option<i64>,
    pub added: Option<i64>,
    pub usage: Option<Seq<char>>,
    pub display_cat: Option<Seq<Seq<char>>>,
    pub age_group: Option<Seq<char>>,
    pub colors: Option<Seq<Seq<char>>>,
    pub descriptors: Option<JsonView>,
    pub article_type: Option<Seq<char>>,
    pub price: Option<i64>,
    pub name: Option<Seq<char>>,
    pub options: Option<Seq<JsonView>>,
    pub season: Option<Seq<char>>,
    pub article_attr: Option<Seq<(Seq<char>, Seq<char>)>>,
    pub variant_name: Option<Seq<char>>,
    pub category: Option<Seq<char>>,
}

impl View for Product {
    type V = ProductView;

    open spec fn view(&self) -> ProductView {
        ProductView {
            id: opt_text(self.id),
            brand_name: opt_text(self.brand_name),
            images: opt_json(self.images),
            sub_category: opt_text(self.sub_category),
            gender: opt_text(self.gender),
            sale_price: self.sale_price,
            added: self.added,
            usage: opt_text(self.usage),
            display_cat: opt_texts(self.display_cat),
            age_group: opt_text(self.age_group),
            colors: opt_texts(self.colors),
            descriptors: opt_json(self.descriptors),
            article_type: opt_text(self.article_type),
            price: self.price,
            name: opt_text(self.name),
            options: opt_items(self.options),
            season: opt_text(self.season),
            article_attr: opt_pairs(self.article_attr),
            variant_name: opt_text(self.variant_name),
            category: opt_text(self.category),
        }
    }
}

/// The members of a product's JSON object, set in field order; a field
/// without a value is left out.
pub open spec fn product_members(p: ProductView) -> Seq<(Seq<char>, JsonView)> {
    let es = Seq::<(Seq<char>, JsonView)>::empty();
    let es = opt_put(es, "id"@, text_json(p.id));
    let es = opt_put(es, "brandName"@, text_json(p.brand_name));
    let es = opt_put(es, "images"@, any_json(p.images));
    let es = opt_put(es, "subCategory"@, text_json(p.sub_category));
    let es = opt_put(es, "gender"@, text_json(p.gender));
    let es = opt_put(es, "salePrice"@, int_json(p.sale_price));
    let es = opt_put(es, "added"@, int_json(p.added));
    let es = opt_put(es, "usage"@, text_json(p.usage));
    let es = opt_put(es, "displayCat"@, texts_json(p.display_cat));
    let es = opt_put(es, "ageGroup"@, text_json(p.age_group));
    let es = opt_put(es, "colors"@, texts_json(p.colors));
    let es = opt_put(es, "descriptors"@, any_json(p.descriptors));
    let es = opt_put(es, "articleType"@, text_json(p.article_type));
    let es = opt_put(es, "price"@, int_json(p.price));
    let es = opt_put(es, "name"@, text_json(p.name));
    let es = opt_put(es, "options"@, items_json(p.options));
    let es = opt_put(es, "season"@, text_json(p.season));
    let es = opt_put(es, "articleAttr"@, pairs_json(p.article_attr));
    let es = opt_put(es, "variantName"@, text_json(p.variant_name));
    let es = opt_put(es, "category"@, text_json(p.category));
    es
}

/// The product a JSON object with the members `es` decodes to, when every
/// field has a value of its type or none; members of other names are ignored.
pub open spec fn decode_product(es: Seq<(Seq<char>, JsonView)>) -> Result<ProductView, ()> {
    if opt_text_spec(seq_member(es, "id"@)) is Ok
        && opt_text_spec(seq_member(es, "brandName"@)) is Ok
        && opt_text_spec(seq_member(es, "subCategory"@)) is Ok
        && opt_text_spec(seq_member(es, "gender"@)) is Ok
        && opt_i64_spec(seq_member(es, "salePrice"@)) is Ok
        && opt_i64_spec(seq_member(es, "added"@)) is Ok
        && opt_text_spec(seq_member(es, "usage"@)) is Ok
        && opt_text_list_spec(seq_member(es, "displayCat"@)) is Ok
        && opt_text_spec(seq_member(es, "ageGroup"@)) is Ok
        && opt_text_list_spec(seq_member(es, "colors"@)) is Ok
        && opt_text_spec(seq_member(es, "articleType"@)) is Ok
        && opt_i64_spec(seq_member(es, "price"@)) is Ok
        && opt_text_spec(seq_member(es, "name"@)) is Ok
        && opt_list_spec(seq_member(es, "options"@)) is Ok
        && opt_text_spec(seq_member(es, "season"@)) is Ok
        && opt_text_map_spec(seq_member(es, "articleAttr"@)) is Ok
        && opt_text_spec(seq_member(es, "variantName"@)) is Ok
        && opt_text_spec(seq_member(es, "category"@)) is Ok {
        Ok(ProductView {
            id: opt_text_spec(seq_member(es, "id"@))->Ok_0,
            brand_name: opt_text_spec(seq_member(es, "brandName"@))->Ok_0,
            images: opt_any_spec(seq_member(es, "images"@)),
            sub_category: opt_text_spec(seq_member(es, "subCategory"@))->Ok_0,
            gender: opt_text_spec(seq_member(es, "gender"@))->Ok_0,
            sale_price: opt_i64_spec(seq_member(es, "salePrice"@))->Ok_0,
            added: opt_i64_spec(seq_member(es, "added"@))->Ok_0,
            usage: opt_text_spec(seq_member(es, "usage"@))->Ok_0,
            display_cat: opt_text_list_spec(seq_member(es, "displayCat"@))->Ok_0,
            age_group: opt_text_spec(seq_member(es, "ageGroup"@))->Ok_0,
            colors: opt_text_list_spec(seq_member(es, "colors"@))->Ok_0,
            descriptors: opt_any_spec(seq_member(es, "descriptors"@)),
            article_type: opt_text_spec(seq_member(es, "articleType"@))->Ok_0,
            price: opt_i64_spec(seq_member(es, "price"@))->Ok_0,
            name: opt_text_spec(seq_member(es, "name"@))->Ok_0,
            options: opt_list_spec(seq_member(es, "options"@))->Ok_0,
            season: opt_text_spec(seq_member(es, "season"@))->Ok_0,
            article_attr: opt_text_map_spec(seq_member(es, "articleAttr"@))->Ok_0,
            variant_name: opt_text_spec(seq_member(es, "variantName"@))->Ok_0,
            category: opt_text_spec(seq_member(es, "category"@))->Ok_0,
        })
    } else {
        Err(())
    }
}

/// The field a product object fails to decode at: the first field, in
/// field order, whose value has the wrong type.
pub open spec fn product_error_field(es: Seq<(Seq<char>, JsonView)>) -> Seq<char> {
    if opt_text_spec(seq_member(es, "id"@)) is Err {
        "id"@
    } else if opt_text_spec(seq_member(es, "brandName"@)) is Err {
        "brandName"@
    } else if opt_text_spec(seq_member(es, "subCategory"@)) is Err {
        "subCategory"@
    } else if opt_text_spec(seq_member(es, "gender"@)) is Err {
        "gender"@
    } else if opt_i64_spec(seq_member(es, "salePrice"@)) is Err {
        "salePrice"@
    } else if opt_i64_spec(seq_member(es, "added"@)) is Err {
        "added"@
    } else if opt_text_spec(seq_member(es, "usage"@)) is Err {
        "usage"@
    } else if opt_text_list_spec(seq_member(es, "displayCat"@)) is Err {
        "displayCat"@
    } else if opt_text_spec(seq_member(es, "ageGroup"@)) is Err {
        "ageGroup"@
    } else if opt_text_list_spec(seq_member(es, "colors"@)) is Err {
        "colors"@
    } else if opt_text_spec(seq_member(es, "articleType"@)) is Err {
        "articleType"@
    } else if opt_i64_spec(seq_member(es, "price"@)) is Err {
        "price"@
    } else if opt_text_spec(seq_member(es, "name"@)) is Err {
        "name"@
    } else if opt_list_spec(seq_member(es, "options"@)) is Err {
        "options"@
    } else if opt_text_spec(seq_member(es, "season"@)) is Err {
        "season"@
    } else if opt_text_map_spec(seq_member(es, "articleAttr"@)) is Err {
        "articleAttr"@
    } else if opt_text_spec(seq_member(es, "variantName"@)) is Err {
        "variantName"@
    } else if opt_text_spec(seq_member(es, "category"@)) is Err {
        "category"@
    } else {
        Seq::<char>::empty()
    }
}

impl Product {
    /// The product's JSON object: one member per field that has a value.
    pub fn to_json(&self) -> (r: StrMap<Json>)
        ensures
            view_entries(r.entries@) == product_members(self@),
            r.unique_keys(),
    {
        let mut m: StrMap<Json> = StrMap::new();
        let ghost es = Seq::<(Seq<char>, JsonView)>::empty();
        assert(view_entries(m.entries@) =~= es);
        let Ghost(es) = put_text(&mut m, "id", &self.id, Ghost(es));
        let Ghost(es) = put_text(&mut m, "brandName", &self.brand_name, Ghost(es));
        let Ghost(es) = put_any(&mut m, "images", &self.images, Ghost(es));
        let Ghost(es) = put_text(&mut m, "subCategory", &self.sub_category, Ghost(es));
        let Ghost(es) = put_text(&mut m, "gender", &self.gender, Ghost(es));
        let Ghost(es) = put_int(&mut m, "salePrice", &self.sale_price, Ghost(es));
        let Ghost(es) = put_int(&mut m, "added", &self.added, Ghost(es));
        let Ghost(es) = put_text(&mut m, "usage", &self.usage, Ghost(es));
        let Ghost(es) = put_texts(&mut m, "displayCat", &self.display_cat, Ghost(es));
        let Ghost(es) = put_text(&mut m, "ageGroup", &self.age_group, Ghost(es));
        let Ghost(es) = put_texts(&mut m, "colors", &self.colors, Ghost(es));
        let Ghost(es) = put_any(&mut m, "descriptors", &self.descriptors, Ghost(es));
        let Ghost(es) = put_text(&mut m, "articleType", &self.article_type, Ghost(es));
        let Ghost(es) = put_int(&mut m, "price", &self.price, Ghost(es));
        let Ghost(es) = put_text(&mut m, "name", &self.name, Ghost(es));
        let Ghost(es) = put_items(&mut m, "options", &self.options, Ghost(es));
        let Ghost(es) = put_text(&mut m, "season", &self.season, Ghost(es));
        let Ghost(es) = put_pairs(&mut m, "articleAttr", &self.article_attr, Ghost(es));
        let Ghost(es) = put_text(&mut m, "variantName", &self.variant_name, Ghost(es));
        let Ghost(es) = put_text(&mut m, "category", &self.category, Ghost(es));
        m
    }

    /// Decodes a product from its JSON object.
    pub fn from_json(m: &StrMap<Json>) -> (r: Result<Product, DecodeError>)
        ensures
            match decode_product(view_entries(m.entries@)) {
                Ok(pv) => r matches Ok(p) && p@ == pv,
                Err(_) => r matches Err(e) && e is InvalidField
                    && e.field() == product_error_field(view_entries(m.entries@)),
            },
    {
        let id = read_opt_text(m, "id")?;
        let brand_name = read_opt_text(m, "brandName")?;
        let images = read_opt_any(m, "images");
        let sub_category = read_opt_text(m, "subCategory")?;
        let gender = read_opt_text(m, "gender")?;
        let sale_price = read_opt_i64(m, "salePrice")?;
        let added = read_opt_i64(m, "added")?;
        let usage = read_opt_text(m, "usage")?;
        let display_cat = read_opt_text_list(m, "displayCat")?;
        let age_group = read_opt_text(m, "ageGroup")?;
        let colors = read_opt_text_list(m, "colors")?;
        let descriptors = read_opt_any(m, "descriptors");
        let article_type = read_opt_text(m, "articleType")?;
        let price = read_opt_i64(m, "price")?;
        let name = read_opt_text(m, "name")?;
        let options = read_opt_list(m, "options")?;
        let season = read_opt_text(m, "season")?;
        let article_attr = read_opt_text_map(m, "articleAttr")?;
        let variant_name = read_opt_text(m, "variantName")?;
        let category = read_opt_text(m, "category")?;
        Ok(Product {
            id,
            brand_name,
            images,
            sub_category,
            gender,
            sale_price,
            added,
            usage,
            display_cat,
            age_group,
            colors,
            descriptors,
            article_type,
            price,
            name,
            options,
            season,
            article_attr,
            variant_name,
            category,
        })
    }
}


/// A record's bins made of a JSON object's members, each value made a record value.
pub open spec fn bins_of_members(es: Seq<(Seq<char>, JsonView)>) -> Seq<(Seq<char>, BinView)> {
    es.map_values(|e: (Seq<char>, JsonView)| (e.0, bin_of(e.1)))
}

/// The bins of a record, as names and values.
pub open spec fn bin_pairs(m: StrMap<BinValue>) -> Seq<(Seq<char>, BinView)> {
    m.entries@.map_values(|e: (String, BinValue)| (e.0@, e.1@))
}

/// A record's bins made of a JSON object: one bin per member.
pub fn json_object_to_bins(m: &StrMap<Json>) -> (r: StrMap<BinValue>)
    ensures
        bin_pairs(r) == bins_of_members(view_entries(m.entries@)),
        m.unique_keys() ==> r.unique_keys(),
{
    let mut entries: Vec<(String, BinValue)> = Vec::new();
    let mut i: usize = 0;
    proof {
        lemma_view_entries_index(m.entries@);
    }
    while i < m.entries.len()
        invariant
            i <= m.entries@.len(),
            entries@.len() == i,
            view_entries(m.entries@).len() == m.entries@.len(),
            forall|k: int| 0 <= k < m.entries@.len() ==> #[trigger] view_entries(m.entries@)[k] == (m.entries@[k].0@, m.entries@[k].1@),
            forall|k: int| #![trigger entries@[k]] 0 <= k < i ==> entries@[k].0@ == m.entries@[k].0@
                && entries@[k].1@ == bin_of(m.entries@[k].1@),
        decreases m.entries@.len() - i,
    {
        let k = m.entries[i].0.clone();
        let b = json_to_value(&m.entries[i].1);
        entries.push((k, b));
        i = i + 1;
    }
    let r = StrMap { entries };
    assert(bin_pairs(r) =~= bins_of_members(view_entries(m.entries@)));
    proof {
        if m.unique_keys() {
            assert forall|a: int, b: int| 0 <= a < r.entries@.len() && 0 <= b < r.entries@.len() && a != b
                implies #[trigger] r.key_at(a) != #[trigger] r.key_at(b) by {
                assert(m.key_at(a) != m.key_at(b));
            }
        }
    }
    r
}

impl Product {
    /// The product's bins: one per field that has a value.
    pub fn to_bins(&self) -> (r: StrMap<BinValue>)
        ensures
            bin_pairs(r) == bins_of_members(product_members(self@)),
            r.unique_keys(),
    {
        let m = self.to_json();
        json_object_to_bins(&m)
    }

    /// Decodes a product from a record's bins.
    pub fn from_bins(bins: &StrMap<BinValue>) -> (r: Result<Product, DecodeError>)
        ensures
            match decode_product(json_of_named(bins.entries@)) {
                Ok(pv) => r matches Ok(p) && p@ == pv,
                Err(_) => r matches Err(e) && e is InvalidField
                    && e.field() == product_error_field(json_of_named(bins.entries@)),
            },
    {
        let m = bins_to_json_map(bins);
        Product::from_json(&m)
    }
}

} // verus!
