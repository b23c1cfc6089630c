//! What a stored value reads back as: JSON values through record values,
//! and records through their bins.
use vstd::prelude::*;
use crate::bin_value::{
    bin_of, bin_of_entries, bin_of_items, finite_bits, json_of, json_of_entries, json_of_items, json_of_pairs,
    json_of_named, key_text, lemma_json_of_named_pairs, text_keyed, BinKeyView, BinValue, BinView,
};
use crate::fields::{
    all_text_members, all_texts, opt_any_spec, opt_i64_spec, opt_list_spec, opt_text_list_spec, opt_text_map_spec,
    opt_text_spec, seq_member, text_insert, text_map_of, texts_of,
};
use crate::json::{member_insert, view_get, JsonNumber, JsonView};
use crate::product::{
    any_json, bin_pairs, bins_of_members, decode_product, int_json, items_json, opt_put, pairs_json, product_members, text_items,
    text_json, text_members, texts_json, ProductView,
};
use crate::strmap::{keyed_has, keyed_insert, keyed_unique, StrMap};

verus! {

/// The names of `es`, none twice.
pub open spec fn distinct_names(es: Seq<(Seq<char>, JsonView)>) -> bool {
    forall|i: int, j: int| 0 <= i < es.len() && 0 <= j < es.len() && i != j ==> #[trigger] es[i].0 != #[trigger] es[j].0
}

/// A JSON value that a record value holds exactly: its numbers are finite
/// and no object has a member name twice.
pub open spec fn plain(j: JsonView) -> bool
    decreases j,
{
    match j {
        JsonView::Number(JsonNumber::Real(b)) => finite_bits(b),
        JsonView::Array(items) => forall|i: int| 0 <= i < items.len() ==> plain(#[trigger] items[i]),
        JsonView::Object(es) => distinct_names(es) && forall|i: int| 0 <= i < es.len() ==> plain(#[trigger] es[i].1),
        _ => true,
    }
}

/// Every value of `es` is plain and no name occurs twice.
pub open spec fn plain_members(es: Seq<(Seq<char>, JsonView)>) -> bool {
    plain(JsonView::Object(es))
}

/// `k` is not a name of `es`.
pub open spec fn name_absent(es: Seq<(Seq<char>, JsonView)>, k: Seq<char>) -> bool {
    forall|i: int| 0 <= i < es.len() ==> #[trigger] es[i].0 != k
}

/// A member whose name is new is added at the end.
pub proof fn lemma_member_insert_new(es: Seq<(Seq<char>, JsonView)>, k: Seq<char>, v: JsonView)
    requires
        name_absent(es, k),
    ensures
        member_insert(es, k, v) == es.push((k, v)),
{
    if exists|i: int| 0 <= i < es.len() && #[trigger] es[i].0 == k {
        let i = choose|i: int| 0 <= i < es.len() && #[trigger] es[i].0 == k;
        assert(es[i].0 != k);
    }
}

/// Reading a member of a list grown by one new member.
pub proof fn lemma_seq_member_push(es: Seq<(Seq<char>, JsonView)>, k: Seq<char>, v: JsonView, k2: Seq<char>)
    requires
        name_absent(es, k),
    ensures
        seq_member(es.push((k, v)), k2) == (if k2 == k { Some(v) } else { seq_member(es, k2) }),
{
    reveal(seq_member);
    let r = es.push((k, v));
    let n = es.len() as int;
    assert forall|i: int| 0 <= i < n implies #[trigger] r[i] == es[i] by {}
    if exists|i: int| 0 <= i < es.len() && #[trigger] es[i].0 == k2 {
        let c = choose|i: int| 0 <= i < es.len() && es[i].0 == k2 && forall|j: int| 0 <= j < i ==> #[trigger] es[j].0 != k2;
        lemma_first_named(es, k2);
        assert(exists|i: int| 0 <= i < r.len() && #[trigger] r[i].0 == k2) by {
            assert(r[c].0 == k2);
        }
        let d = choose|i: int| 0 <= i < r.len() && r[i].0 == k2 && forall|j: int| 0 <= j < i ==> #[trigger] r[j].0 != k2;
        lemma_first_named(r, k2);
        assert(forall|j: int| 0 <= j < c ==> #[trigger] r[j].0 != k2);
        if d < c {
            assert(es[d].0 != k2);
        } else if c < d {
            assert(r[c].0 != k2);
        }
        assert(k2 != k);
    } else {
        if k2 == k {
            assert(r[n].0 == k);
            assert(exists|i: int| 0 <= i < r.len() && #[trigger] r[i].0 == k2);
            let d = choose|i: int| 0 <= i < r.len() && r[i].0 == k2 && forall|j: int| 0 <= j < i ==> #[trigger] r[j].0 != k2;
            assert forall|j: int| 0 <= j < n implies #[trigger] r[j].0 != k2 by {
                assert(es[j].0 != k2);
            }
            lemma_first_named(r, k2);
            if d < n {
                assert(r[d].0 != k2);
            }
        } else {
            if exists|i: int| 0 <= i < r.len() && #[trigger] r[i].0 == k2 {
                let i = choose|i: int| 0 <= i < r.len() && #[trigger] r[i].0 == k2;
                assert(i != n);
                assert(es[i].0 == k2);
            }
        }
    }
}

proof fn lemma_first_named(es: Seq<(Seq<char>, JsonView)>, k: Seq<char>)
    requires
        exists|i: int| 0 <= i < es.len() && #[trigger] es[i].0 == k,
    ensures
        exists|i: int| 0 <= i < es.len() && es[i].0 == k && forall|j: int| 0 <= j < i ==> #[trigger] es[j].0 != k,
{
    let i = choose|i: int| 0 <= i < es.len() && #[trigger] es[i].0 == k;
    lemma_first_below(es, k, i);
}

proof fn lemma_first_below(es: Seq<(Seq<char>, JsonView)>, k: Seq<char>, i: int)
    requires
        0 <= i < es.len(),
        es[i].0 == k,
    ensures
        exists|f: int| 0 <= f < es.len() && es[f].0 == k && forall|j: int| 0 <= j < f ==> #[trigger] es[j].0 != k,
    decreases i,
{
    if exists|j: int| 0 <= j < i && #[trigger] es[j].0 == k {
        let j = choose|j: int| 0 <= j < i && #[trigger] es[j].0 == k;
        lemma_first_below(es, k, j);
    }
}

proof fn lemma_items_back(items: Seq<JsonView>)
    requires
        forall|i: int| 0 <= i < items.len() ==> json_of(bin_of(#[trigger] items[i])) == items[i],
    ensures
        json_of_items(bin_of_items(items)) == items,
    decreases items.len(),
{
    if items.len() > 0 {
        lemma_items_back(items.drop_last());
        assert(bin_of_items(items).drop_last() =~= bin_of_items(items.drop_last()));
        assert(json_of_items(bin_of_items(items)) =~= items);
    }
}

proof fn lemma_entries_back(es: Seq<(Seq<char>, JsonView)>)
    requires
        distinct_names(es),
        forall|i: int| 0 <= i < es.len() ==> json_of(bin_of(#[trigger] es[i].1)) == es[i].1,
    ensures
        json_of_entries(bin_of_entries(es)) == es,
    decreases es.len(),
{
    if es.len() > 0 {
        let init = es.drop_last();
        assert(distinct_names(init)) by {
            assert forall|i: int, j: int| 0 <= i < init.len() && 0 <= j < init.len() && i != j
                implies #[trigger] init[i].0 != #[trigger] init[j].0 by {
                assert(es[i].0 != es[j].0);
            }
        }
        lemma_entries_back(init);
        let b = bin_of_entries(es);
        assert(b.drop_last() =~= bin_of_entries(init));
        assert(key_text(b.last().0) == es.last().0);
        assert(name_absent(init, es.last().0)) by {
            assert forall|i: int| 0 <= i < init.len() implies #[trigger] init[i].0 != es.last().0 by {
                assert(es[i].0 != es[es.len() - 1].0);
            }
        }
        lemma_member_insert_new(init, es.last().0, es.last().1);
        assert(init.push(es.last()) =~= es);
    }
}

/// A plain JSON value made a record value reads back as itself.
pub proof fn lemma_json_value_back(j: JsonView)
    requires
        plain(j),
    ensures
        json_of(bin_of(j)) == j,
    decreases j,
{
    match j {
        JsonView::Array(items) => {
            assert forall|i: int| 0 <= i < items.len() implies json_of(bin_of(#[trigger] items[i])) == items[i] by {
                lemma_json_value_back(items[i]);
            }
            lemma_items_back(items);
        },
        JsonView::Object(es) => {
            assert forall|i: int| 0 <= i < es.len() implies json_of(bin_of(#[trigger] es[i].1)) == es[i].1 by {
                lemma_json_value_back(es[i].1);
            }
            lemma_entries_back(es);
        },
        _ => {},
    }
}

/// The bins made of an object's members, keyed by their names, are the
/// members made record values, when no name occurs twice.
pub proof fn lemma_text_keyed_members(es: Seq<(Seq<char>, JsonView)>)
    requires
        distinct_names(es),
    ensures
        text_keyed(bin_of_entries(es)) == bins_of_members(es),
    decreases es.len(),
{
    if es.len() > 0 {
        let init = es.drop_last();
        assert(distinct_names(init)) by {
            assert forall|i: int, j: int| 0 <= i < init.len() && 0 <= j < init.len() && i != j
                implies #[trigger] init[i].0 != #[trigger] init[j].0 by {
                assert(es[i].0 != es[j].0);
            }
        }
        lemma_text_keyed_members(init);
        let b = bin_of_entries(es);
        assert(b.drop_last() =~= bin_of_entries(init));
        let prev = bins_of_members(init);
        assert(!keyed_has(prev, es.last().0)) by {
            if keyed_has(prev, es.last().0) {
                let i = choose|i: int| 0 <= i < prev.len() && #[trigger] prev[i].0 == es.last().0;
                assert(es[i].0 != es[es.len() - 1].0);
            }
        }
        assert(bins_of_members(es) =~= prev.push((es.last().0, bin_of(es.last().1))));
    }
}

/// Members made record values read back as the members, when they are plain.
pub proof fn lemma_members_back(es: Seq<(Seq<char>, JsonView)>)
    requires
        plain_members(es),
    ensures
        json_of_pairs(bins_of_members(es)) == es,
    decreases es.len(),
{
    if es.len() > 0 {
        let init = es.drop_last();
        assert(plain_members(init)) by {
            assert forall|i: int, j: int| 0 <= i < init.len() && 0 <= j < init.len() && i != j
                implies #[trigger] init[i].0 != #[trigger] init[j].0 by {
                assert(es[i].0 != es[j].0);
            }
            assert forall|i: int| 0 <= i < init.len() implies plain(#[trigger] init[i].1) by {
                assert(plain(es[i].1));
            }
        }
        lemma_members_back(init);
        let b = bins_of_members(es);
        assert(b.drop_last() =~= bins_of_members(init));
        assert(plain(es[es.len() - 1].1));
        lemma_json_value_back(es.last().1);
        assert(name_absent(init, es.last().0)) by {
            assert forall|i: int| 0 <= i < init.len() implies #[trigger] init[i].0 != es.last().0 by {
                assert(es[i].0 != es[es.len() - 1].0);
            }
        }
        lemma_member_insert_new(init, es.last().0, es.last().1);
        assert(init.push(es.last()) =~= es);
    }
}

/// A record of plain members, stored as a map value, reads back as its
/// members: keyed by their names and made JSON again.
pub proof fn lemma_object_value_back(es: Seq<(Seq<char>, JsonView)>)
    requires
        plain_members(es),
    ensures
        json_of_pairs(text_keyed(bin_of_entries(es))) == es,
{
    lemma_text_keyed_members(es);
    lemma_members_back(es);
}

/// Setting a member whose name is new: reading it gives its value, other
/// names read as before, and the list stays plain.
pub proof fn lemma_opt_put_new(es: Seq<(Seq<char>, JsonView)>, k: Seq<char>, o: Option<JsonView>)
    requires
        name_absent(es, k),
    ensures
        forall|k2: Seq<char>| #[trigger] seq_member(opt_put(es, k, o), k2) == (if k2 == k { o } else { seq_member(es, k2) }),
        forall|k3: Seq<char>| k3 != k && name_absent(es, k3) ==> #[trigger] name_absent(opt_put(es, k, o), k3),
        plain_members(es) && (o matches Some(v) ==> plain(v)) ==> plain_members(opt_put(es, k, o)),
{
    match o {
        Some(v) => {
            lemma_member_insert_new(es, k, v);
            let r = es.push((k, v));
            assert forall|k2: Seq<char>| #[trigger] seq_member(opt_put(es, k, o), k2) == (if k2 == k { o } else { seq_member(es, k2) }) by {
                lemma_seq_member_push(es, k, v, k2);
            }
            assert forall|k3: Seq<char>| k3 != k && name_absent(es, k3) implies #[trigger] name_absent(opt_put(es, k, o), k3) by {
                assert forall|i: int| 0 <= i < r.len() implies #[trigger] r[i].0 != k3 by {
                    if i < es.len() {
                        assert(r[i] == es[i]);
                    }
                }
            }
            if plain_members(es) && plain(v) {
                assert forall|i: int, j: int| 0 <= i < r.len() && 0 <= j < r.len() && i != j
                    implies #[trigger] r[i].0 != #[trigger] r[j].0 by {
                    if i < es.len() && j < es.len() {
                        assert(es[i].0 != es[j].0);
                    } else if i < es.len() {
                        assert(es[i].0 != k);
                    } else {
                        assert(es[j].0 != k);
                    }
                }
                assert forall|i: int| 0 <= i < r.len() implies plain(#[trigger] r[i].1) by {
                    if i < es.len() {
                        assert(r[i] == es[i]);
                        assert(plain(es[i].1));
                    }
                }
            }
        },
        None => {
            reveal(seq_member);
            assert forall|k2: Seq<char>| #[trigger] seq_member(opt_put(es, k, o), k2) == (if k2 == k { o } else { seq_member(es, k2) }) by {
                if k2 == k {
                    if exists|i: int| 0 <= i < es.len() && #[trigger] es[i].0 == k2 {
                        let i = choose|i: int| 0 <= i < es.len() && #[trigger] es[i].0 == k2;
                        assert(es[i].0 != k);
                    }
                }
            }
        },
    }
}

/// A product whose stored record reads back as the same product: its free
/// JSON fields are plain and not `null` (a `null` reads back as no value),
/// its option values are plain, and no attribute name occurs twice.
pub open spec fn product_roundtrips(p: ProductView) -> bool {
    &&& (p.images matches Some(v) ==> v != JsonView::Null && plain(v))
    &&& (p.descriptors matches Some(v) ==> v != JsonView::Null && plain(v))
    &&& (p.options matches Some(items) ==> forall|i: int| 0 <= i < items.len() ==> plain(#[trigger] items[i]))
    &&& (p.article_attr matches Some(ps) ==> keyed_unique(ps))
}

proof fn lemma_text_items(ts: Seq<Seq<char>>)
    ensures
        all_texts(text_items(ts)),
        texts_of(text_items(ts)) == ts,
        plain(JsonView::Array(text_items(ts))),
{
    assert(texts_of(text_items(ts)) =~= ts);
    assert forall|i: int| 0 <= i < text_items(ts).len() implies plain(#[trigger] text_items(ts)[i]) by {
        assert(text_items(ts)[i] == JsonView::Str(ts[i]));
    }
}

proof fn lemma_text_members(ps: Seq<(Seq<char>, Seq<char>)>)
    requires
        keyed_unique(ps),
    ensures
        all_text_members(text_members(ps)),
        text_map_of(text_members(ps)) == ps,
        plain(JsonView::Object(text_members(ps))),
    decreases ps.len(),
{
    let es = text_members(ps);
    if ps.len() > 0 {
        let init = ps.drop_last();
        assert(keyed_unique(init)) by {
            assert forall|i: int, j: int| 0 <= i < init.len() && 0 <= j < init.len() && i != j
                implies #[trigger] init[i].0 != #[trigger] init[j].0 by {
                assert(ps[i].0 != ps[j].0);
            }
        }
        lemma_text_members(init);
        assert(es.drop_last() =~= text_members(init));
        let k = ps.last().0;
        if exists|i: int| 0 <= i < init.len() && #[trigger] init[i].0 == k {
            let i = choose|i: int| 0 <= i < init.len() && #[trigger] init[i].0 == k;
            assert(ps[i].0 != ps[ps.len() - 1].0);
        }
        assert(init.push(ps.last()) =~= ps);
    }
    assert forall|i: int, j: int| 0 <= i < es.len() && 0 <= j < es.len() && i != j
        implies #[trigger] es[i].0 != #[trigger] es[j].0 by {
        assert(ps[i].0 != ps[j].0);
    }
    assert forall|i: int| 0 <= i < es.len() implies plain(#[trigger] es[i].1) by {
        assert(es[i].1 == JsonView::Str(ps[i].1));
    }
}

proof fn lemma_plain_fields(p: ProductView)
    requires
        product_roundtrips(p),
    ensures
        any_json(p.images) matches Some(v) ==> plain(v),
        any_json(p.descriptors) matches Some(v) ==> plain(v),
        texts_json(p.display_cat) matches Some(v) ==> plain(v),
        texts_json(p.colors) matches Some(v) ==> plain(v),
        items_json(p.options) matches Some(v) ==> plain(v),
        pairs_json(p.article_attr) matches Some(v) ==> plain(v),
{
    if let Some(ts) = p.display_cat {
        lemma_text_items(ts);
    }
    if let Some(ts) = p.colors {
        lemma_text_items(ts);
    }
    if let Some(ps) = p.article_attr {
        lemma_text_members(ps);
    }
}

/// The members of a stored product: plain when the product round-trips, and
/// each name reads as the product's field.
#[verifier::rlimit(100)]
proof fn lemma_product_members(p: ProductView)
    requires
        product_roundtrips(p),
    ensures
        plain_members(product_members(p)),
        seq_member(product_members(p), "id"@) == text_json(p.id),
        seq_member(product_members(p), "brandName"@) == text_json(p.brand_name),
        seq_member(product_members(p), "images"@) == any_json(p.images),
        seq_member(product_members(p), "subCategory"@) == text_json(p.sub_category),
        seq_member(product_members(p), "gender"@) == text_json(p.gender),
        seq_member(product_members(p), "salePrice"@) == int_json(p.sale_price),
        seq_member(product_members(p), "added"@) == int_json(p.added),
        seq_member(product_members(p), "usage"@) == text_json(p.usage),
        seq_member(product_members(p), "displayCat"@) == texts_json(p.display_cat),
        seq_member(product_members(p), "ageGroup"@) == text_json(p.age_group),
        seq_member(product_members(p), "colors"@) == texts_json(p.colors),
        seq_member(product_members(p), "descriptors"@) == any_json(p.descriptors),
        seq_member(product_members(p), "articleType"@) == text_json(p.article_type),
        seq_member(product_members(p), "price"@) == int_json(p.price),
        seq_member(product_members(p), "name"@) == text_json(p.name),
        seq_member(product_members(p), "options"@) == items_json(p.options),
        seq_member(product_members(p), "season"@) == text_json(p.season),
        seq_member(product_members(p), "articleAttr"@) == pairs_json(p.article_attr),
        seq_member(product_members(p), "variantName"@) == text_json(p.variant_name),
        seq_member(product_members(p), "category"@) == text_json(p.category),
{
    let names = seq!["id"@, "brandName"@, "images"@, "subCategory"@, "gender"@, "salePrice"@, "added"@, "usage"@, "displayCat"@, "ageGroup"@, "colors"@, "descriptors"@, "articleType"@, "price"@, "name"@, "options"@, "season"@, "articleAttr"@, "variantName"@, "category"@];
    assert forall|a: int, b: int| 0 <= a < b < 20 implies #[trigger] names[a] != #[trigger] names[b] by {
        reveal_strlit("id");
        reveal_strlit("brandName");
        reveal_strlit("images");
        reveal_strlit("subCategory");
        reveal_strlit("gender");
        reveal_strlit("salePrice");
        reveal_strlit("added");
        reveal_strlit("usage");
        reveal_strlit("displayCat");
        reveal_strlit("ageGroup");
        reveal_strlit("colors");
        reveal_strlit("descriptors");
        reveal_strlit("articleType");
        reveal_strlit("price");
        reveal_strlit("name");
        reveal_strlit("options");
        reveal_strlit("season");
        reveal_strlit("articleAttr");
        reveal_strlit("variantName");
        reveal_strlit("category");
        if names[a].len() == names[b].len() && names[a][0] == names[b][0] {
            assert(names[a][7] != names[b][7]);
        }
    }
    let e0 = Seq::<(Seq<char>, JsonView)>::empty();
    assert(plain_members(e0));
    let o0 = text_json(p.id);
    let o1 = text_json(p.brand_name);
    let o2 = any_json(p.images);
    let o3 = text_json(p.sub_category);
    let o4 = text_json(p.gender);
    let o5 = int_json(p.sale_price);
    let o6 = int_json(p.added);
    let o7 = text_json(p.usage);
    let o8 = texts_json(p.display_cat);
    let o9 = text_json(p.age_group);
    let o10 = texts_json(p.colors);
    let o11 = any_json(p.descriptors);
    let o12 = text_json(p.article_type);
    let o13 = int_json(p.price);
    let o14 = text_json(p.name);
    let o15 = items_json(p.options);
    let o16 = text_json(p.season);
    let o17 = pairs_json(p.article_attr);
    let o18 = text_json(p.variant_name);
    let o19 = text_json(p.category);
    let e1 = opt_put(e0, names[0], o0);
    let e2 = opt_put(e1, names[1], o1);
    let e3 = opt_put(e2, names[2], o2);
    let e4 = opt_put(e3, names[3], o3);
    let e5 = opt_put(e4, names[4], o4);
    let e6 = opt_put(e5, names[5], o5);
    let e7 = opt_put(e6, names[6], o6);
    let e8 = opt_put(e7, names[7], o7);
    let e9 = opt_put(e8, names[8], o8);
    let e10 = opt_put(e9, names[9], o9);
    let e11 = opt_put(e10, names[10], o10);
    let e12 = opt_put(e11, names[11], o11);
    let e13 = opt_put(e12, names[12], o12);
    let e14 = opt_put(e13, names[13], o13);
    let e15 = opt_put(e14, names[14], o14);
    let e16 = opt_put(e15, names[15], o15);
    let e17 = opt_put(e16, names[16], o16);
    let e18 = opt_put(e17, names[17], o17);
    let e19 = opt_put(e18, names[18], o18);
    let e20 = opt_put(e19, names[19], o19);
    assert(e20 == product_members(p));
    assert forall|a: int| 0 <= a < 20 implies #[trigger] name_absent(e0, names[a]) by {}
    assert(names[1] != names[0]);
    assert(names[2] != names[0] && names[2] != names[1]);
    assert(names[3] != names[0] && names[3] != names[1] && names[3] != names[2]);
    assert(names[4] != names[0] && names[4] != names[1] && names[4] != names[2] && names[4] != names[3]);
    assert(names[5] != names[0] && names[5] != names[1] && names[5] != names[2] && names[5] != names[3] && names[5] != names[4]);
    assert(names[6] != names[0] && names[6] != names[1] && names[6] != names[2] && names[6] != names[3] && names[6] != names[4] && names[6] != names[5]);
    assert(names[7] != names[0] && names[7] != names[1] && names[7] != names[2] && names[7] != names[3] && names[7] != names[4] && names[7] != names[5] && names[7] != names[6]);
    assert(names[8] != names[0] && names[8] != names[1] && names[8] != names[2] && names[8] != names[3] && names[8] != names[4] && names[8] != names[5] && names[8] != names[6] && names[8] != names[7]);
    assert(names[9] != names[0] && names[9] != names[1] && names[9] != names[2] && names[9] != names[3] && names[9] != names[4] && names[9] != names[5] && names[9] != names[6] && names[9] != names[7] && names[9] != names[8]);
    assert(names[10] != names[0] && names[10] != names[1] && names[10] != names[2] && names[10] != names[3] && names[10] != names[4] && names[10] != names[5] && names[10] != names[6] && names[10] != names[7] && names[10] != names[8] && names[10] != names[9]);
    assert(names[11] != names[0] && names[11] != names[1] && names[11] != names[2] && names[11] != names[3] && names[11] != names[4] && names[11] != names[5] && names[11] != names[6] && names[11] != names[7] && names[11] != names[8] && names[11] != names[9] && names[11] != names[10]);
    assert(names[12] != names[0] && names[12] != names[1] && names[12] != names[2] && names[12] != names[3] && names[12] != names[4] && names[12] != names[5] && names[12] != names[6] && names[12] != names[7] && names[12] != names[8] && names[12] != names[9] && names[12] != names[10] && names[12] != names[11]);
    assert(names[13] != names[0] && names[13] != names[1] && names[13] != names[2] && names[13] != names[3] && names[13] != names[4] && names[13] != names[5] && names[13] != names[6] && names[13] != names[7] && names[13] != names[8] && names[13] != names[9] && names[13] != names[10] && names[13] != names[11] && names[13] != names[12]);
    assert(names[14] != names[0] && names[14] != names[1] && names[14] != names[2] && names[14] != names[3] && names[14] != names[4] && names[14] != names[5] && names[14] != names[6] && names[14] != names[7] && names[14] != names[8] && names[14] != names[9] && names[14] != names[10] && names[14] != names[11] && names[14] != names[12] && names[14] != names[13]);
    assert(names[15] != names[0] && names[15] != names[1] && names[15] != names[2] && names[15] != names[3] && names[15] != names[4] && names[15] != names[5] && names[15] != names[6] && names[15] != names[7] && names[15] != names[8] && names[15] != names[9] && names[15] != names[10] && names[15] != names[11] && names[15] != names[12] && names[15] != names[13] && names[15] != names[14]);
    assert(names[16] != names[0] && names[16] != names[1] && names[16] != names[2] && names[16] != names[3] && names[16] != names[4] && names[16] != names[5] && names[16] != names[6] && names[16] != names[7] && names[16] != names[8] && names[16] != names[9] && names[16] != names[10] && names[16] != names[11] && names[16] != names[12] && names[16] != names[13] && names[16] != names[14] && names[16] != names[15]);
    assert(names[17] != names[0] && names[17] != names[1] && names[17] != names[2] && names[17] != names[3] && names[17] != names[4] && names[17] != names[5] && names[17] != names[6] && names[17] != names[7] && names[17] != names[8] && names[17] != names[9] && names[17] != names[10] && names[17] != names[11] && names[17] != names[12] && names[17] != names[13] && names[17] != names[14] && names[17] != names[15] && names[17] != names[16]);
    assert(names[18] != names[0] && names[18] != names[1] && names[18] != names[2] && names[18] != names[3] && names[18] != names[4] && names[18] != names[5] && names[18] != names[6] && names[18] != names[7] && names[18] != names[8] && names[18] != names[9] && names[18] != names[10] && names[18] != names[11] && names[18] != names[12] && names[18] != names[13] && names[18] != names[14] && names[18] != names[15] && names[18] != names[16] && names[18] != names[17]);
    assert(names[19] != names[0] && names[19] != names[1] && names[19] != names[2] && names[19] != names[3] && names[19] != names[4] && names[19] != names[5] && names[19] != names[6] && names[19] != names[7] && names[19] != names[8] && names[19] != names[9] && names[19] != names[10] && names[19] != names[11] && names[19] != names[12] && names[19] != names[13] && names[19] != names[14] && names[19] != names[15] && names[19] != names[16] && names[19] != names[17] && names[19] != names[18]);
    lemma_plain_fields(p);
    lemma_opt_put_new(e0, names[0], o0);
    lemma_opt_put_new(e1, names[1], o1);
    lemma_opt_put_new(e2, names[2], o2);
    lemma_opt_put_new(e3, names[3], o3);
    lemma_opt_put_new(e4, names[4], o4);
    lemma_opt_put_new(e5, names[5], o5);
    lemma_opt_put_new(e6, names[6], o6);
    lemma_opt_put_new(e7, names[7], o7);
    lemma_opt_put_new(e8, names[8], o8);
    lemma_opt_put_new(e9, names[9], o9);
    lemma_opt_put_new(e10, names[10], o10);
    lemma_opt_put_new(e11, names[11], o11);
    lemma_opt_put_new(e12, names[12], o12);
    lemma_opt_put_new(e13, names[13], o13);
    lemma_opt_put_new(e14, names[14], o14);
    lemma_opt_put_new(e15, names[15], o15);
    lemma_opt_put_new(e16, names[16], o16);
    lemma_opt_put_new(e17, names[17], o17);
    lemma_opt_put_new(e18, names[18], o18);
    lemma_opt_put_new(e19, names[19], o19);
}

/// A product stored as a record (one bin per member of its JSON object)
/// reads back as the same product, when it round-trips.
pub proof fn lemma_stored_product_reads_back(p: ProductView)
    requires
        product_roundtrips(p),
    ensures
        decode_product(json_of_pairs(bins_of_members(product_members(p)))) == Ok::<ProductView, ()>(p),
{
    lemma_product_members(p);
    lemma_members_back(product_members(p));
    lemma_decode_product_members(p, product_members(p));
}

proof fn lemma_decode_product_members(p: ProductView, es: Seq<(Seq<char>, JsonView)>)
    requires
        product_roundtrips(p),
        seq_member(es, "id"@) == text_json(p.id),
        seq_member(es, "brandName"@) == text_json(p.brand_name),
        seq_member(es, "images"@) == any_json(p.images),
        seq_member(es, "subCategory"@) == text_json(p.sub_category),
        seq_member(es, "gender"@) == text_json(p.gender),
        seq_member(es, "salePrice"@) == int_json(p.sale_price),
        seq_member(es, "added"@) == int_json(p.added),
        seq_member(es, "usage"@) == text_json(p.usage),
        seq_member(es, "displayCat"@) == texts_json(p.display_cat),
        seq_member(es, "ageGroup"@) == text_json(p.age_group),
        seq_member(es, "colors"@) == texts_json(p.colors),
        seq_member(es, "descriptors"@) == any_json(p.descriptors),
        seq_member(es, "articleType"@) == text_json(p.article_type),
        seq_member(es, "price"@) == int_json(p.price),
        seq_member(es, "name"@) == text_json(p.name),
        seq_member(es, "options"@) == items_json(p.options),
        seq_member(es, "season"@) == text_json(p.season),
        seq_member(es, "articleAttr"@) == pairs_json(p.article_attr),
        seq_member(es, "variantName"@) == text_json(p.variant_name),
        seq_member(es, "category"@) == text_json(p.category),
    ensures
        decode_product(es) == Ok::<ProductView, ()>(p),
{
    if let Some(ts) = p.display_cat {
        lemma_text_items(ts);
    }
    if let Some(ts) = p.colors {
        lemma_text_items(ts);
    }
    if let Some(ps) = p.article_attr {
        lemma_text_members(ps);
    }
    assert(opt_text_spec(seq_member(es, "id"@)) matches Ok(v) && v == p.id);
    assert(opt_text_spec(seq_member(es, "brandName"@)) matches Ok(v) && v == p.brand_name);
    assert(opt_any_spec(seq_member(es, "images"@)) == p.images);
    assert(opt_text_spec(seq_member(es, "subCategory"@)) matches Ok(v) && v == p.sub_category);
    assert(opt_text_spec(seq_member(es, "gender"@)) matches Ok(v) && v == p.gender);
    assert(opt_i64_spec(seq_member(es, "salePrice"@)) matches Ok(v) && v == p.sale_price);
    assert(opt_i64_spec(seq_member(es, "added"@)) matches Ok(v) && v == p.added);
    assert(opt_text_spec(seq_member(es, "usage"@)) matches Ok(v) && v == p.usage);
    assert(opt_text_list_spec(seq_member(es, "displayCat"@)) matches Ok(v) && v == p.display_cat);
    assert(opt_text_spec(seq_member(es, "ageGroup"@)) matches Ok(v) && v == p.age_group);
    assert(opt_text_list_spec(seq_member(es, "colors"@)) matches Ok(v) && v == p.colors);
    assert(opt_any_spec(seq_member(es, "descriptors"@)) == p.descriptors);
    assert(opt_text_spec(seq_member(es, "articleType"@)) matches Ok(v) && v == p.article_type);
    assert(opt_i64_spec(seq_member(es, "price"@)) matches Ok(v) && v == p.price);
    assert(opt_text_spec(seq_member(es, "name"@)) matches Ok(v) && v == p.name);
    assert(opt_list_spec(seq_member(es, "options"@)) matches Ok(v) && v == p.options);
    assert(opt_text_spec(seq_member(es, "season"@)) matches Ok(v) && v == p.season);
    assert(opt_text_map_spec(seq_member(es, "articleAttr"@)) matches Ok(v) && v == p.article_attr);
    assert(opt_text_spec(seq_member(es, "variantName"@)) matches Ok(v) && v == p.variant_name);
    assert(opt_text_spec(seq_member(es, "category"@)) matches Ok(v) && v == p.category);
}

/// The bins `Product::to_bins` makes of a product that round-trips are read
/// back by `Product::from_bins` as the same product.
pub proof fn lemma_product_bins_read_back(p: ProductView, bins: StrMap<BinValue>)
    requires
        product_roundtrips(p),
        bin_pairs(bins) == bins_of_members(product_members(p)),
    ensures
        decode_product(json_of_named(bins.entries@)) == Ok::<ProductView, ()>(p),
{
    lemma_json_of_named_pairs(bins);
    assert(bins.pairs() =~= bin_pairs(bins));
    lemma_stored_product_reads_back(p);
}

/// A member of a plain value is plain.
pub proof fn lemma_view_get_plain(j: JsonView, k: Seq<char>)
    requires
        plain(j),
    ensures
        view_get(j, k) matches Some(v) ==> plain(v),
{
    reveal(seq_member);
    if let JsonView::Object(es) = j {
        if exists|i: int| 0 <= i < es.len() && #[trigger] es[i].0 == k {
            let i = choose|i: int| 0 <= i < es.len() && es[i].0 == k && forall|x: int| 0 <= x < i ==> #[trigger] es[x].0 != k;
            assert(plain(es[i].1));
        }
    }
}

} // verus!
