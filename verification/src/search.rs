//! How a product search with optional field filters becomes a database query.
use vstd::prelude::*;
use crate::utils::as_non_null_string;

verus! {

/// The terms of a search: field name and wanted value.
pub open spec fn add_term(ts: Seq<(Seq<char>, Seq<char>)>, field: Seq<char>, value: Seq<char>) -> Seq<(Seq<char>, Seq<char>)> {
    if value.len() > 0 {
        ts.push((field, value))
    } else {
        ts
    }
}

/// The text a filter stands for; an absent filter is empty.
pub open spec fn filter_text(v: Option<&str>) -> Seq<char> {
    match v {
        Some(s) => s@,
        None => seq![],
    }
}

/// The search terms: the category, article type, usage and brand filters,
/// in that order, each left out when it is absent or empty.
pub open spec fn search_terms_spec(
    category: Option<&str>,
    article_type: Option<&str>,
    usage: Option<&str>,
    brand_name: Option<&str>,
) -> Seq<(Seq<char>, Seq<char>)> {
    let ts = Seq::<(Seq<char>, Seq<char>)>::empty();
    let ts = add_term(ts, "category"@, filter_text(category));
    let ts = add_term(ts, "articleType"@, filter_text(article_type));
    let ts = add_term(ts, "usage"@, filter_text(usage));
    let ts = add_term(ts, "brandName"@, filter_text(brand_name));
    ts
}

/// Field names and values, as characters.
pub open spec fn term_views(v: Seq<(String, String)>) -> Seq<(Seq<char>, Seq<char>)> {
    v.map_values(|t: (String, String)| (t.0@, t.1@))
}

/// A query over the products: an equality filter on a secondary index and
/// further equality filters evaluated on each record found.
#[derive(Debug)]
pub struct SearchPlan {
    pub index_filter: Option<(String, String)>,
    pub expression_filters: Vec<(String, String)>,
}

fn push_term(ts: &mut Vec<(String, String)>, field: &str, value: Option<&str>)
    ensures
        term_views(final(ts)@) == add_term(term_views(old(ts)@), field@, filter_text(value)),
{
    let v = as_non_null_string(value);
    if v.unicode_len() > 0 {
        let ghost before = ts@;
        ts.push((String::from_str(field), v));
        assert(term_views(ts@) =~= term_views(before).push((field@, filter_text(value))));
    }
}

/// The filter `value` is given and not empty, and `t` is the term asking
/// field `field` for it.
pub open spec fn term_of_filter(t: (Seq<char>, Seq<char>), field: Seq<char>, value: Option<&str>) -> bool {
    value matches Some(v) && v@.len() > 0 && t == (field, v@)
}

/// The plan asks field `field` for `value`: in its index filter or in one
/// of its expression filters.
pub open spec fn plan_filters_on(r: SearchPlan, field: Seq<char>, value: Seq<char>) -> bool {
    ||| (r.index_filter matches Some(t) && t.0@ == field && t.1@ == value)
    ||| term_views(r.expression_filters@).contains((field, value))
}

proof fn lemma_add_term(ts: Seq<(Seq<char>, Seq<char>)>, field: Seq<char>, value: Seq<char>)
    ensures
        value.len() > 0 ==> add_term(ts, field, value).contains((field, value)),
        forall|x: (Seq<char>, Seq<char>)| ts.contains(x) ==> #[trigger] add_term(ts, field, value).contains(x),
        forall|x: (Seq<char>, Seq<char>)| #[trigger] add_term(ts, field, value).contains(x)
            ==> ts.contains(x) || (x == (field, value) && value.len() > 0),
{
    if value.len() > 0 {
        let r = ts.push((field, value));
        assert(r[ts.len() as int] == (field, value));
        assert forall|x: (Seq<char>, Seq<char>)| ts.contains(x) implies #[trigger] r.contains(x) by {
            let i = choose|i: int| 0 <= i < ts.len() && ts[i] == x;
            assert(r[i] == x);
        }
        assert forall|x: (Seq<char>, Seq<char>)| #[trigger] r.contains(x) implies ts.contains(x) || (x == (field, value) && value.len() > 0) by {
            let i = choose|i: int| 0 <= i < r.len() && r[i] == x;
            if i < ts.len() {
                assert(ts[i] == x);
            }
        }
    }
}

/// Every filter that is given and not empty is a search term, asking its
/// own field for its value, whatever the other filters are; and every term
/// is such a filter.
pub proof fn lemma_search_terms_cover(
    category: Option<&str>,
    article_type: Option<&str>,
    usage: Option<&str>,
    brand_name: Option<&str>,
)
    ensures
        ({
            let ts = search_terms_spec(category, article_type, usage, brand_name);
            &&& (category matches Some(c) ==> c@.len() > 0 ==> ts.contains(("category"@, c@)))
            &&& (article_type matches Some(a) ==> a@.len() > 0 ==> ts.contains(("articleType"@, a@)))
            &&& (usage matches Some(u) ==> u@.len() > 0 ==> ts.contains(("usage"@, u@)))
            &&& (brand_name matches Some(b) ==> b@.len() > 0 ==> ts.contains(("brandName"@, b@)))
            &&& forall|t: (Seq<char>, Seq<char>)| #[trigger] ts.contains(t) ==> term_of_filter(t, "category"@, category)
                || term_of_filter(t, "articleType"@, article_type) || term_of_filter(t, "usage"@, usage)
                || term_of_filter(t, "brandName"@, brand_name)
        }),
{
    let t0 = Seq::<(Seq<char>, Seq<char>)>::empty();
    let t1 = add_term(t0, "category"@, filter_text(category));
    let t2 = add_term(t1, "articleType"@, filter_text(article_type));
    let t3 = add_term(t2, "usage"@, filter_text(usage));
    let t4 = add_term(t3, "brandName"@, filter_text(brand_name));
    lemma_add_term(t0, "category"@, filter_text(category));
    lemma_add_term(t1, "articleType"@, filter_text(article_type));
    lemma_add_term(t2, "usage"@, filter_text(usage));
    lemma_add_term(t3, "brandName"@, filter_text(brand_name));
    assert forall|t: (Seq<char>, Seq<char>)| #[trigger] t4.contains(t) implies term_of_filter(t, "category"@, category)
        || term_of_filter(t, "articleType"@, article_type) || term_of_filter(t, "usage"@, usage)
        || term_of_filter(t, "brandName"@, brand_name) by {
        if t3.contains(t) {
            if t2.contains(t) {
                if t1.contains(t) {
                    assert(!t0.contains(t));
                }
            }
        }
    }
}

/// The search terms of the four filters.
pub fn search_terms(
    category: Option<&str>,
    article_type: Option<&str>,
    usage: Option<&str>,
    brand_name: Option<&str>,
) -> (r: Vec<(String, String)>)
    ensures
        term_views(r@) == search_terms_spec(category, article_type, usage, brand_name),
        category matches Some(c) ==> c@.len() > 0 ==> term_views(r@).contains(("category"@, c@)),
        article_type matches Some(a) ==> a@.len() > 0 ==> term_views(r@).contains(("articleType"@, a@)),
        usage matches Some(u) ==> u@.len() > 0 ==> term_views(r@).contains(("usage"@, u@)),
        brand_name matches Some(b) ==> b@.len() > 0 ==> term_views(r@).contains(("brandName"@, b@)),
        forall|t: (Seq<char>, Seq<char>)| #[trigger] term_views(r@).contains(t) ==> term_of_filter(t, "category"@, category)
            || term_of_filter(t, "articleType"@, article_type) || term_of_filter(t, "usage"@, usage)
            || term_of_filter(t, "brandName"@, brand_name),
{
    proof {
        lemma_search_terms_cover(category, article_type, usage, brand_name);
    }
    let mut ts: Vec<(String, String)> = Vec::new();
    assert(term_views(ts@) =~= Seq::<(Seq<char>, Seq<char>)>::empty());
    push_term(&mut ts, "category", category);
    push_term(&mut ts, "articleType", article_type);
    push_term(&mut ts, "usage", usage);
    push_term(&mut ts, "brandName", brand_name);
    ts
}

/// The bins a product listing reads of each product record: its id, name,
/// images, brand and price.
pub fn listing_bins() -> (r: Vec<String>)
    ensures
        r@.map_values(|b: String| b@) == seq!["id"@, "name"@, "images"@, "brandName"@, "price"@],
{
    let mut bins: Vec<String> = Vec::new();
    bins.push(String::from_str("id"));
    bins.push(String::from_str("name"));
    bins.push(String::from_str("images"));
    bins.push(String::from_str("brandName"));
    bins.push(String::from_str("price"));
    assert(bins@.map_values(|b: String| b@) =~= seq!["id"@, "name"@, "images"@, "brandName"@, "price"@]);
    bins
}

/// The query for a search: the first term goes to the secondary index, the
/// others become filters on the records it finds. With no term the query
/// has no filter at all.
pub fn plan_advanced_search(
    category: Option<&str>,
    article_type: Option<&str>,
    usage: Option<&str>,
    brand_name: Option<&str>,
) -> (r: SearchPlan)
    ensures
        ({
            let ts = search_terms_spec(category, article_type, usage, brand_name);
            &&& ts.len() == 0 ==> r.index_filter is None && r.expression_filters@.len() == 0
            &&& ts.len() > 0 ==> (r.index_filter matches Some((f, v)) && (f@, v@) == ts[0])
                && term_views(r.expression_filters@) == ts.drop_first()
        }),
        category matches Some(c) ==> c@.len() > 0 ==> plan_filters_on(r, "category"@, c@),
        article_type matches Some(a) ==> a@.len() > 0 ==> plan_filters_on(r, "articleType"@, a@),
        usage matches Some(u) ==> u@.len() > 0 ==> plan_filters_on(r, "usage"@, u@),
        brand_name matches Some(b) ==> b@.len() > 0 ==> plan_filters_on(r, "brandName"@, b@),
        r.index_filter matches Some(t) ==> term_of_filter((t.0@, t.1@), "category"@, category)
            || term_of_filter((t.0@, t.1@), "articleType"@, article_type)
            || term_of_filter((t.0@, t.1@), "usage"@, usage) || term_of_filter((t.0@, t.1@), "brandName"@, brand_name),
        forall|t: (Seq<char>, Seq<char>)| #[trigger] term_views(r.expression_filters@).contains(t)
            ==> term_of_filter(t, "category"@, category) || term_of_filter(t, "articleType"@, article_type)
            || term_of_filter(t, "usage"@, usage) || term_of_filter(t, "brandName"@, brand_name),
        r.index_filter is None ==> r.expression_filters@.len() == 0,
{
    let mut ts = search_terms(category, article_type, usage, brand_name);
    if ts.len() == 0 {
        return SearchPlan { index_filter: None, expression_filters: ts };
    }
    let ghost all = ts@;
    let first = ts.remove(0);
    assert(term_views(ts@) =~= term_views(all).drop_first());
    proof {
        let tv = term_views(all);
        assert(tv[0] == (first.0@, first.1@));
        assert forall|x: (Seq<char>, Seq<char>)| tv.contains(x) implies x == tv[0] || #[trigger] tv.drop_first().contains(x) by {
            let i = choose|i: int| 0 <= i < tv.len() && tv[i] == x;
            if i > 0 {
                assert(tv.drop_first()[i - 1] == x);
            }
        }
        assert forall|x: (Seq<char>, Seq<char>)| #[trigger] tv.drop_first().contains(x) implies tv.contains(x) by {
            let i = choose|i: int| 0 <= i < tv.len() - 1 && tv.drop_first()[i] == x;
            assert(tv[i + 1] == x);
        }
    }
    SearchPlan { index_filter: Some(first), expression_filters: ts }
}

/// One term written as a filter clause: `$.field == 'value'`.
pub open spec fn clause_text(t: (Seq<char>, Seq<char>)) -> Seq<char> {
    "$."@ + t.0 + " == '"@ + t.1 + "'"@
}

/// The terms' clauses joined by ` AND `.
pub open spec fn filter_expression_spec(ts: Seq<(Seq<char>, Seq<char>)>) -> Seq<char>
    decreases ts.len(),
{
    if ts.len() == 0 {
        seq![]
    } else if ts.len() == 1 {
        clause_text(ts[0])
    } else {
        filter_expression_spec(ts.drop_last()) + " AND "@ + clause_text(ts.last())
    }
}

/// The filter expression of a search, written out as text for display.
pub fn filter_expression(terms: &Vec<(String, String)>) -> (r: String)
    ensures
        r@ == filter_expression_spec(term_views(terms@)),
{
    let mut out = String::new();
    let n = terms.len();
    let mut i: usize = 0;
    let ghost tv = term_views(terms@);
    while i < n
        invariant
            n == terms@.len(),
            tv == term_views(terms@),
            i <= n,
            out@ == filter_expression_spec(tv.take(i as int)),
        decreases n - i,
    {
        proof {
            assert(tv.take(i + 1).drop_last() =~= tv.take(i as int));
            assert(tv[i as int] == (terms@[i as int].0@, terms@[i as int].1@));
        }
        if i > 0 {
            out.append(" AND ");
        }
        out.append("$.");
        out.append(terms[i].0.as_str());
        out.append(" == '");
        out.append(terms[i].1.as_str());
        out.append("'");
        proof {
            if i == 0 {
                assert(tv.take(1) =~= seq![tv[0]]);
                assert(out@ =~= clause_text(tv[0]));
            } else {
                assert(out@ =~= filter_expression_spec(tv.take(i as int)) + " AND "@ + clause_text(tv[i as int]));
            }
        }
        i = i + 1;
    }
    assert(tv.take(n as int) =~= tv);
    out
}

/// The sub-categories the home page shows, in order.
pub fn home_sub_categories() -> (r: Vec<String>)
    ensures
        crate::text::texts(r@) == seq!["Shoes"@, "Bags"@, "Wallets"@, "Watches"@, "Headwear"@],
{
    let r = vec![
        String::from_str("Shoes"),
        String::from_str("Bags"),
        String::from_str("Wallets"),
        String::from_str("Watches"),
        String::from_str("Headwear"),
    ];
    assert(crate::text::texts(r@) =~= seq!["Shoes"@, "Bags"@, "Wallets"@, "Watches"@, "Headwear"@]);
    r
}

} // verus!
