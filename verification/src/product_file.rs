//! What a product file loads as: the product that the reshaped `data` node
//! of a product file is stored and read back as.
use vstd::prelude::*;
use crate::fields::{
    all_texts, lemma_field_of, opt_any_spec, opt_list_spec, opt_text_list_spec, opt_text_map_spec,
    opt_text_spec, seq_member, texts_of,
};
use crate::json::{lemma_view_entries_index, view_entries, Json, JsonView};
use crate::json_parsing::{
    display_categories, field_i64, field_str, field_type_name, field_view, formatted_members, is_formatted_product,
    members_view, num_view, put_opt, str_or_null, str_view,
};
use crate::loading::product_of_members;
use crate::product::{decode_product, ProductView};
use crate::roundtrip::{lemma_members_back, plain, plain_members};
use crate::strmap::StrMap;
use crate::text::split_spec;

verus! {

/// The colours member of a reshaped product: base colour and the two
/// further colours, `null` where the field is not a string.
pub open spec fn colors_view(data: JsonView) -> JsonView {
    JsonView::Array(seq![
        str_or_null(field_str(data, "baseColour"@)),
        str_or_null(field_str(data, "colour1"@)),
        str_or_null(field_str(data, "colour2"@)),
    ])
}

/// The display categories of a product file: its `displayCategories` text
/// split at commas, or `NA`.
pub open spec fn display_texts(data: JsonView) -> Seq<Seq<char>> {
    match field_str(data, "displayCategories"@) {
        Some(s) => split_spec(s, ','),
        None => seq!["NA"@],
    }
}

/// A product file's `data` node loads: all three colour fields are strings,
/// the style options are a list (or absent or `null`), and the article
/// attributes an object of strings (or absent or `null`).
pub open spec fn loadable(data: JsonView) -> bool {
    &&& field_str(data, "baseColour"@) is Some
    &&& field_str(data, "colour1"@) is Some
    &&& field_str(data, "colour2"@) is Some
    &&& opt_list_spec(field_view(data, "styleOptions"@)) is Ok
    &&& opt_text_map_spec(field_view(data, "articleAttributes"@)) is Ok
}

/// The product a loadable `data` node of the product file for `id` loads as.
pub open spec fn loaded_product(data: JsonView, id: Seq<char>) -> ProductView {
    ProductView {
        id: Some(id),
        brand_name: field_str(data, "brandName"@),
        images: opt_any_spec(field_view(data, "styleImages"@)),
        sub_category: field_type_name(data, "subCategory"@),
        gender: field_str(data, "gender"@),
        sale_price: field_i64(data, "discountedPrice"@),
        added: field_i64(data, "catalogAddDate"@),
        usage: field_str(data, "usage"@),
        display_cat: Some(display_texts(data)),
        age_group: field_str(data, "ageGroup"@),
        colors: Some(seq![
            field_str(data, "baseColour"@)->Some_0,
            field_str(data, "colour1"@)->Some_0,
            field_str(data, "colour2"@)->Some_0,
        ]),
        descriptors: opt_any_spec(field_view(data, "productDescriptors"@)),
        article_type: field_type_name(data, "articleType"@),
        price: field_i64(data, "price"@),
        name: field_str(data, "productDisplayName"@),
        options: opt_list_spec(field_view(data, "styleOptions"@))->Ok_0,
        season: field_str(data, "season"@),
        article_attr: opt_text_map_spec(field_view(data, "articleAttributes"@))->Ok_0,
        variant_name: field_str(data, "variantName"@),
        category: field_type_name(data, "masterCategory"@),
    }
}

/// Member `k` of a member map, if there is one.
pub open spec fn map_get(g: Map<Seq<char>, JsonView>, k: Seq<char>) -> Option<JsonView> {
    if g.contains_key(k) {
        Some(g[k])
    } else {
        None
    }
}

/// Every member of `g` is plain.
pub open spec fn map_all_plain(g: Map<Seq<char>, JsonView>) -> bool {
    forall|k: Seq<char>| g.contains_key(k) ==> plain(#[trigger] g[k])
}

proof fn lemma_field_values_plain(data: JsonView)
    requires
        plain(data),
    ensures
        forall|k: Seq<char>| #[trigger] field_view(data, k) matches Some(v) ==> plain(v),
        plain(colors_view(data)),
        plain(display_categories(data)),
{
    assert forall|k: Seq<char>| (#[trigger] field_view(data, k) matches Some(v) ==> plain(v)) by {
        crate::roundtrip::lemma_view_get_plain(data, k);
    }
    let c = colors_view(data);
    if let JsonView::Array(items) = c {
        assert forall|i: int| 0 <= i < items.len() implies plain(#[trigger] items[i]) by {
            assert(items[i] is Str || items[i] is Null);
        }
    }
    let d = display_categories(data);
    if let JsonView::Array(items) = d {
        assert forall|i: int| 0 <= i < items.len() implies plain(#[trigger] items[i]) by {
            assert(items[i] is Str);
        }
    }
}

/// The names of a formatted product's members, in the order they are set.
pub open spec fn member_names() -> Seq<Seq<char>> {
    seq!["id"@, "price"@, "salePrice"@, "name"@, "descriptors"@, "variantName"@, "added"@, "brandName"@, "ageGroup"@, "gender"@, "colors"@, "season"@, "usage"@, "articleAttr"@, "images"@, "options"@, "displayCat"@, "category"@, "subCategory"@, "articleType"@]
}

proof fn lemma_member_names_distinct()
    ensures
        forall|a: int, b: int| 0 <= a < b < 20 ==> #[trigger] member_names()[a] != #[trigger] member_names()[b],
{
    let names = member_names();
    assert forall|a: int, b: int| 0 <= a < b < 20 implies #[trigger] names[a] != #[trigger] names[b] by {
        reveal_strlit("id");
        reveal_strlit("price");
        reveal_strlit("salePrice");
        reveal_strlit("name");
        reveal_strlit("descriptors");
        reveal_strlit("variantName");
        reveal_strlit("added");
        reveal_strlit("brandName");
        reveal_strlit("ageGroup");
        reveal_strlit("gender");
        reveal_strlit("colors");
        reveal_strlit("season");
        reveal_strlit("usage");
        reveal_strlit("articleAttr");
        reveal_strlit("images");
        reveal_strlit("options");
        reveal_strlit("displayCat");
        reveal_strlit("category");
        reveal_strlit("subCategory");
        reveal_strlit("articleType");
        if names[a].len() == names[b].len() && names[a][0] == names[b][0] {
            assert(names[a][7] != names[b][7]);
        }
    }
}

/// The members set one after the other, each when it has a value.
pub open spec fn put_all(steps: Seq<(Seq<char>, Option<JsonView>)>) -> Map<Seq<char>, JsonView>
    decreases steps.len(),
{
    if steps.len() == 0 {
        Map::empty()
    } else {
        put_opt(put_all(steps.drop_last()), steps.last().0, steps.last().1)
    }
}

proof fn lemma_put_all_absent(steps: Seq<(Seq<char>, Option<JsonView>)>, k: Seq<char>)
    requires
        forall|i: int| 0 <= i < steps.len() ==> #[trigger] steps[i].0 != k,
    ensures
        map_get(put_all(steps), k) is None,
    decreases steps.len(),
{
    if steps.len() > 0 {
        lemma_put_all_absent(steps.drop_last(), k);
        assert(steps[steps.len() - 1].0 != k);
    }
}

/// With no name set twice, each name reads as the value it was set to.
proof fn lemma_put_all_get(steps: Seq<(Seq<char>, Option<JsonView>)>, j: int)
    requires
        0 <= j < steps.len(),
        forall|a: int, b: int| 0 <= a < b < steps.len() ==> #[trigger] steps[a].0 != #[trigger] steps[b].0,
    ensures
        map_get(put_all(steps), steps[j].0) == steps[j].1,
    decreases steps.len(),
{
    let init = steps.drop_last();
    let n = steps.len() - 1;
    if j == n {
        assert forall|i: int| 0 <= i < init.len() implies #[trigger] init[i].0 != steps[j].0 by {
            assert(steps[i].0 != steps[n].0);
        }
        lemma_put_all_absent(init, steps[j].0);
    } else {
        assert forall|a: int, b: int| 0 <= a < b < init.len() implies #[trigger] init[a].0 != #[trigger] init[b].0 by {
            assert(steps[a].0 != steps[b].0);
        }
        lemma_put_all_get(init, j);
        assert(steps[j].0 != steps[n].0);
    }
}

/// The steps that set a formatted product's members.
pub open spec fn formatted_steps(data: JsonView, id: Seq<char>) -> Seq<(Seq<char>, Option<JsonView>)> {
    let names = member_names();
    seq![
        (names[0], Some(JsonView::Str(id))),
        (names[1], num_view(field_i64(data, "price"@))),
        (names[2], num_view(field_i64(data, "discountedPrice"@))),
        (names[3], str_view(field_str(data, "productDisplayName"@))),
        (names[4], field_view(data, "productDescriptors"@)),
        (names[5], str_view(field_str(data, "variantName"@))),
        (names[6], num_view(field_i64(data, "catalogAddDate"@))),
        (names[7], str_view(field_str(data, "brandName"@))),
        (names[8], str_view(field_str(data, "ageGroup"@))),
        (names[9], str_view(field_str(data, "gender"@))),
        (names[10], Some(colors_view(data))),
        (names[11], str_view(field_str(data, "season"@))),
        (names[12], str_view(field_str(data, "usage"@))),
        (names[13], field_view(data, "articleAttributes"@)),
        (names[14], field_view(data, "styleImages"@)),
        (names[15], field_view(data, "styleOptions"@)),
        (names[16], Some(display_categories(data))),
        (names[17], str_view(field_type_name(data, "masterCategory"@))),
        (names[18], str_view(field_type_name(data, "subCategory"@))),
        (names[19], str_view(field_type_name(data, "articleType"@))),
    ]
}

proof fn lemma_put_all_prefix(steps: Seq<(Seq<char>, Option<JsonView>)>, k: int)
    requires
        0 <= k < steps.len(),
    ensures
        put_all(steps.take(k + 1)) == put_opt(put_all(steps.take(k)), steps[k].0, steps[k].1),
{
    assert(steps.take(k + 1).drop_last() =~= steps.take(k));
}

proof fn lemma_formatted_steps(data: JsonView, id: Seq<char>)
    ensures
        put_all(formatted_steps(data, id)) == formatted_members(data, id),
{
    let steps = formatted_steps(data, id);
    lemma_put_all_prefix(steps, 0);
    lemma_put_all_prefix(steps, 1);
    lemma_put_all_prefix(steps, 2);
    lemma_put_all_prefix(steps, 3);
    lemma_put_all_prefix(steps, 4);
    lemma_put_all_prefix(steps, 5);
    lemma_put_all_prefix(steps, 6);
    lemma_put_all_prefix(steps, 7);
    lemma_put_all_prefix(steps, 8);
    lemma_put_all_prefix(steps, 9);
    lemma_put_all_prefix(steps, 10);
    lemma_put_all_prefix(steps, 11);
    lemma_put_all_prefix(steps, 12);
    lemma_put_all_prefix(steps, 13);
    lemma_put_all_prefix(steps, 14);
    lemma_put_all_prefix(steps, 15);
    lemma_put_all_prefix(steps, 16);
    lemma_put_all_prefix(steps, 17);
    lemma_put_all_prefix(steps, 18);
    lemma_put_all_prefix(steps, 19);
    assert(steps.take(20) =~= steps);
}

proof fn lemma_put_all_plain(steps: Seq<(Seq<char>, Option<JsonView>)>)
    requires
        forall|i: int| 0 <= i < steps.len() ==> (#[trigger] steps[i].1 matches Some(v) ==> plain(v)),
    ensures
        map_all_plain(put_all(steps)),
    decreases steps.len(),
{
    if steps.len() > 0 {
        let init = steps.drop_last();
        assert forall|i: int| 0 <= i < init.len() implies (#[trigger] init[i].1 matches Some(v) ==> plain(v)) by {
            assert(init[i] == steps[i]);
        }
        lemma_put_all_plain(init);
        assert(steps[steps.len() - 1].1 matches Some(v) ==> plain(v));
    }
}

/// Every member of a formatted product is plain when the data is.
proof fn lemma_formatted_plain(data: JsonView, id: Seq<char>)
    requires
        plain(data),
    ensures
        map_all_plain(formatted_members(data, id)),
{
    let steps = formatted_steps(data, id);
    lemma_field_values_plain(data);
    assert forall|i: int| 0 <= i < steps.len() implies (#[trigger] steps[i].1 matches Some(v) ==> plain(v)) by {}
    lemma_put_all_plain(steps);
    lemma_formatted_steps(data, id);
}

/// Each member of a product formatted by `format_product_data` (whose member
/// map is `formatted_members`) reads as its source field gives it: the id
/// as given, prices and the date as integers, texts as texts, the
/// descriptors, attributes, images and options as they are, the colours and
/// display categories as built from their fields, and each category by its
/// type name. A member whose source is missing, or is not the text or
/// integer it is read as, is absent.
pub proof fn lemma_formatted_lookups(data: JsonView, id: Seq<char>)
    ensures
        map_get(formatted_members(data, id), "id"@) == Some(JsonView::Str(id)),
        map_get(formatted_members(data, id), "price"@) == num_view(field_i64(data, "price"@)),
        map_get(formatted_members(data, id), "salePrice"@) == num_view(field_i64(data, "discountedPrice"@)),
        map_get(formatted_members(data, id), "name"@) == str_view(field_str(data, "productDisplayName"@)),
        map_get(formatted_members(data, id), "descriptors"@) == field_view(data, "productDescriptors"@),
        map_get(formatted_members(data, id), "variantName"@) == str_view(field_str(data, "variantName"@)),
        map_get(formatted_members(data, id), "added"@) == num_view(field_i64(data, "catalogAddDate"@)),
        map_get(formatted_members(data, id), "brandName"@) == str_view(field_str(data, "brandName"@)),
        map_get(formatted_members(data, id), "ageGroup"@) == str_view(field_str(data, "ageGroup"@)),
        map_get(formatted_members(data, id), "gender"@) == str_view(field_str(data, "gender"@)),
        map_get(formatted_members(data, id), "colors"@) == Some(colors_view(data)),
        map_get(formatted_members(data, id), "season"@) == str_view(field_str(data, "season"@)),
        map_get(formatted_members(data, id), "usage"@) == str_view(field_str(data, "usage"@)),
        map_get(formatted_members(data, id), "articleAttr"@) == field_view(data, "articleAttributes"@),
        map_get(formatted_members(data, id), "images"@) == field_view(data, "styleImages"@),
        map_get(formatted_members(data, id), "options"@) == field_view(data, "styleOptions"@),
        map_get(formatted_members(data, id), "displayCat"@) == Some(display_categories(data)),
        map_get(formatted_members(data, id), "category"@) == str_view(field_type_name(data, "masterCategory"@)),
        map_get(formatted_members(data, id), "subCategory"@) == str_view(field_type_name(data, "subCategory"@)),
        map_get(formatted_members(data, id), "articleType"@) == str_view(field_type_name(data, "articleType"@)),
{
    let steps = formatted_steps(data, id);
    let names = member_names();
    lemma_member_names_distinct();
    assert forall|a: int, b: int| 0 <= a < b < steps.len() implies #[trigger] steps[a].0 != #[trigger] steps[b].0 by {
        assert(steps[a].0 == names[a] && steps[b].0 == names[b]);
    }
    lemma_formatted_steps(data, id);
    lemma_put_all_get(steps, 0);
    assert(names[0] == "id"@);
    lemma_put_all_get(steps, 1);
    assert(names[1] == "price"@);
    lemma_put_all_get(steps, 2);
    assert(names[2] == "salePrice"@);
    lemma_put_all_get(steps, 3);
    assert(names[3] == "name"@);
    lemma_put_all_get(steps, 4);
    assert(names[4] == "descriptors"@);
    lemma_put_all_get(steps, 5);
    assert(names[5] == "variantName"@);
    lemma_put_all_get(steps, 6);
    assert(names[6] == "added"@);
    lemma_put_all_get(steps, 7);
    assert(names[7] == "brandName"@);
    lemma_put_all_get(steps, 8);
    assert(names[8] == "ageGroup"@);
    lemma_put_all_get(steps, 9);
    assert(names[9] == "gender"@);
    lemma_put_all_get(steps, 10);
    assert(names[10] == "colors"@);
    lemma_put_all_get(steps, 11);
    assert(names[11] == "season"@);
    lemma_put_all_get(steps, 12);
    assert(names[12] == "usage"@);
    lemma_put_all_get(steps, 13);
    assert(names[13] == "articleAttr"@);
    lemma_put_all_get(steps, 14);
    assert(names[14] == "images"@);
    lemma_put_all_get(steps, 15);
    assert(names[15] == "options"@);
    lemma_put_all_get(steps, 16);
    assert(names[16] == "displayCat"@);
    lemma_put_all_get(steps, 17);
    assert(names[17] == "category"@);
    lemma_put_all_get(steps, 18);
    assert(names[18] == "subCategory"@);
    lemma_put_all_get(steps, 19);
    assert(names[19] == "articleType"@);
}

proof fn lemma_decode_loaded(data: JsonView, id: Seq<char>, es: Seq<(Seq<char>, JsonView)>)
    requires
        seq_member(es, "id"@) == Some(JsonView::Str(id)),
        seq_member(es, "price"@) == num_view(field_i64(data, "price"@)),
        seq_member(es, "salePrice"@) == num_view(field_i64(data, "discountedPrice"@)),
        seq_member(es, "name"@) == str_view(field_str(data, "productDisplayName"@)),
        seq_member(es, "descriptors"@) == field_view(data, "productDescriptors"@),
        seq_member(es, "variantName"@) == str_view(field_str(data, "variantName"@)),
        seq_member(es, "added"@) == num_view(field_i64(data, "catalogAddDate"@)),
        seq_member(es, "brandName"@) == str_view(field_str(data, "brandName"@)),
        seq_member(es, "ageGroup"@) == str_view(field_str(data, "ageGroup"@)),
        seq_member(es, "gender"@) == str_view(field_str(data, "gender"@)),
        seq_member(es, "colors"@) == Some(colors_view(data)),
        seq_member(es, "season"@) == str_view(field_str(data, "season"@)),
        seq_member(es, "usage"@) == str_view(field_str(data, "usage"@)),
        seq_member(es, "articleAttr"@) == field_view(data, "articleAttributes"@),
        seq_member(es, "images"@) == field_view(data, "styleImages"@),
        seq_member(es, "options"@) == field_view(data, "styleOptions"@),
        seq_member(es, "displayCat"@) == Some(display_categories(data)),
        seq_member(es, "category"@) == str_view(field_type_name(data, "masterCategory"@)),
        seq_member(es, "subCategory"@) == str_view(field_type_name(data, "subCategory"@)),
        seq_member(es, "articleType"@) == str_view(field_type_name(data, "articleType"@)),
    ensures
        decode_product(es) == (if loadable(data) {
            Ok::<ProductView, ()>(loaded_product(data, id))
        } else {
            Err::<ProductView, ()>(())
        }),
{
    let dc = display_categories(data);
    if let JsonView::Array(items) = dc {
        assert(all_texts(items));
        assert(texts_of(items) =~= display_texts(data));
    }
    let c = colors_view(data);
    if let JsonView::Array(items) = c {
        if loadable(data) {
            assert(all_texts(items));
            assert(texts_of(items) =~= seq![
                field_str(data, "baseColour"@)->Some_0,
                field_str(data, "colour1"@)->Some_0,
                field_str(data, "colour2"@)->Some_0,
            ]);
        } else if field_str(data, "baseColour"@) is None {
            assert(!(items[0] is Str));
        } else if field_str(data, "colour1"@) is None {
            assert(!(items[1] is Str));
        } else if field_str(data, "colour2"@) is None {
            assert(!(items[2] is Str));
        }
    }
    assert(opt_text_spec(seq_member(es, "id"@)) == Ok::<Option<Seq<char>>, ()>(Some(id)));
    assert(opt_text_list_spec(seq_member(es, "displayCat"@)) == Ok::<Option<Seq<Seq<char>>>, ()>(Some(display_texts(data))));
}

/// A product file's reshaped `data` node, stored as bins and read back (as
/// `product_from_formatted` does), gives the product `loaded_product`
/// describes when the node is loadable, and fails to decode otherwise.
/// `formatted_product` gives such an `m` for a plain `data`.
pub proof fn lemma_formatted_product_loads(m: StrMap<Json>, data: JsonView, id: Seq<char>)
    requires
        is_formatted_product(m, data, id),
        plain(data),
    ensures
        product_of_members(view_entries(m.entries@)) == (if loadable(data) {
            Ok::<ProductView, ()>(loaded_product(data, id))
        } else {
            Err::<ProductView, ()>(())
        }),
{
    let g = formatted_members(data, id);
    lemma_formatted_plain(data, id);
    lemma_formatted_lookups(data, id);
    let es = view_entries(m.entries@);
    lemma_view_entries_index(m.entries@);
    assert forall|k: Seq<char>| #[trigger] seq_member(es, k) == map_get(g, k) by {
        lemma_field_of(m, k);
    }
    assert(plain_members(es)) by {
        assert forall|a: int, b: int| 0 <= a < es.len() && 0 <= b < es.len() && a != b
            implies #[trigger] es[a].0 != #[trigger] es[b].0 by {
            assert(es[a].0 == m.key_at(a) && es[b].0 == m.key_at(b));
        }
        assert forall|i: int| 0 <= i < es.len() implies plain(#[trigger] es[i].1) by {
            let k = m.key_at(i);
            assert forall|x: int| 0 <= x < i implies #[trigger] m.key_at(x) != k by {
                assert(m.key_at(x) != m.key_at(i));
            }
            m.lemma_first_unique(k, i);
            assert(members_view(m).contains_key(k));
            assert(g.contains_key(k));
            assert(plain(g[k]));
        }
    }
    lemma_members_back(es);
    lemma_decode_loaded(data, id, es);
}

} // verus!
