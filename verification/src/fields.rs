//! Reading typed fields out of a record's JSON object, the way a record
//! with optional fields is decoded: a missing field or `null` gives no
//! value, a value of another type is an error.
use vstd::prelude::*;
use crate::json::{lemma_view_entries_index, lemma_view_items_index, view_entries, view_items, Json, JsonNumber, JsonView};
use crate::strmap::StrMap;

verus! {

/// Why a record could not be read from a JSON object.
#[derive(Debug, PartialEq, Eq)]
pub enum DecodeError {
    /// A field that has no default is missing.
    MissingField(String),
    /// A field holds a value of the wrong type or out of range.
    InvalidField(String),
}

impl DecodeError {
    /// The field the error is about.
    pub open spec fn field(self) -> Seq<char> {
        match self {
            DecodeError::MissingField(f) => f@,
            DecodeError::InvalidField(f) => f@,
        }
    }

    /// A description of the error.
    pub fn message(&self) -> (r: String)
        ensures
            r@ == match *self {
                DecodeError::MissingField(f) => "missing field `"@ + f@ + "`"@,
                DecodeError::InvalidField(f) => "invalid value for field `"@ + f@ + "`"@,
            },
    {
        match self {
            DecodeError::MissingField(f) => {
                let mut s = String::from_str("missing field `");
                s.append(f.as_str());
                s.append("`");
                s
            },
            DecodeError::InvalidField(f) => {
                let mut s = String::from_str("invalid value for field `");
                s.append(f.as_str());
                s.append("`");
                s
            },
        }
    }
}

/// The value of the first member named `k` in the member list `es`.
#[verifier::opaque]
pub open spec fn seq_member(es: Seq<(Seq<char>, JsonView)>, k: Seq<char>) -> Option<JsonView> {
    if exists|i: int| 0 <= i < es.len() && #[trigger] es[i].0 == k {
        let i = choose|i: int| 0 <= i < es.len() && es[i].0 == k && forall|j: int| 0 <= j < i ==> #[trigger] es[j].0 != k;
        Some(es[i].1)
    } else {
        None
    }
}

/// The view of member `k` of `m`.
pub open spec fn field_of(m: StrMap<Json>, k: Seq<char>) -> Option<JsonView> {
    seq_member(view_entries(m.entries@), k)
}

pub proof fn lemma_field_of(m: StrMap<Json>, k: Seq<char>)
    ensures
        field_of(m, k) == (if m.as_map().contains_key(k) { Some(m.as_map()[k]@) } else { None }),
{
    reveal(seq_member);
    let es = view_entries(m.entries@);
    lemma_view_entries_index(m.entries@);
    assert forall|i: int| 0 <= i < es.len() implies #[trigger] es[i].0 == m.key_at(i) by {}
    if m.has_key(k) {
        m.lemma_first_exists(k);
        let f = m.first_index(k);
        m.lemma_first_unique(k, f);
        assert(es[f].0 == k);
        let c = choose|i: int| 0 <= i < es.len() && es[i].0 == k && forall|j: int| 0 <= j < i ==> #[trigger] es[j].0 != k;
        assert(es[f].0 == k && forall|j: int| 0 <= j < f ==> #[trigger] es[j].0 != k) by {
            assert forall|j: int| 0 <= j < f implies #[trigger] es[j].0 != k by {
                assert(m.key_at(j) != k);
            }
        }
        if c < f {
            assert(m.key_at(c) != k);
        } else if f < c {
            assert(es[f].0 != k);
        }
    } else {
        assert(!(exists|i: int| 0 <= i < es.len() && #[trigger] es[i].0 == k)) by {
            if exists|i: int| 0 <= i < es.len() && #[trigger] es[i].0 == k {
                let i = choose|i: int| 0 <= i < es.len() && #[trigger] es[i].0 == k;
                assert(m.key_at(i) == k);
            }
        }
    }
}

/// An optional text field.
pub open spec fn opt_text_spec(f: Option<JsonView>) -> Result<Option<Seq<char>>, ()> {
    match f {
        None => Ok(None),
        Some(JsonView::Null) => Ok(None),
        Some(JsonView::Str(s)) => Ok(Some(s)),
        Some(_) => Err(()),
    }
}

/// An optional integer field.
pub open spec fn opt_i64_spec(f: Option<JsonView>) -> Result<Option<i64>, ()> {
    match f {
        None => Ok(None),
        Some(JsonView::Null) => Ok(None),
        Some(JsonView::Number(JsonNumber::Int(i))) => Ok(Some(i)),
        Some(_) => Err(()),
    }
}

/// An optional field of any JSON value.
pub open spec fn opt_any_spec(f: Option<JsonView>) -> Option<JsonView> {
    match f {
        None => None,
        Some(JsonView::Null) => None,
        Some(v) => Some(v),
    }
}

pub open spec fn all_texts(items: Seq<JsonView>) -> bool {
    forall|i: int| 0 <= i < items.len() ==> #[trigger] items[i] is Str
}

pub open spec fn texts_of(items: Seq<JsonView>) -> Seq<Seq<char>> {
    items.map_values(|v: JsonView| v->Str_0)
}

/// An optional list of texts.
pub open spec fn opt_text_list_spec(f: Option<JsonView>) -> Result<Option<Seq<Seq<char>>>, ()> {
    match f {
        None => Ok(None),
        Some(JsonView::Null) => Ok(None),
        Some(JsonView::Array(items)) => if all_texts(items) { Ok(Some(texts_of(items))) } else { Err(()) },
        Some(_) => Err(()),
    }
}

/// An optional list of JSON values.
pub open spec fn opt_list_spec(f: Option<JsonView>) -> Result<Option<Seq<JsonView>>, ()> {
    match f {
        None => Ok(None),
        Some(JsonView::Null) => Ok(None),
        Some(JsonView::Array(items)) => Ok(Some(items)),
        Some(_) => Err(()),
    }
}

pub open spec fn all_text_members(es: Seq<(Seq<char>, JsonView)>) -> bool {
    forall|i: int| 0 <= i < es.len() ==> #[trigger] es[i].1 is Str
}

/// Puts `(k, v)` into the pair list `es`: the first pair named `k` takes the
/// value, or a new pair is added at the end.
pub open spec fn text_insert(es: Seq<(Seq<char>, Seq<char>)>, k: Seq<char>, v: Seq<char>) -> Seq<(Seq<char>, Seq<char>)> {
    if exists|i: int| 0 <= i < es.len() && #[trigger] es[i].0 == k {
        let i = choose|i: int| 0 <= i < es.len() && es[i].0 == k && forall|j: int| 0 <= j < i ==> #[trigger] es[j].0 != k;
        es.update(i, (k, v))
    } else {
        es.push((k, v))
    }
}

/// The text map made of members whose values are all strings.
pub open spec fn text_map_of(es: Seq<(Seq<char>, JsonView)>) -> Seq<(Seq<char>, Seq<char>)>
    decreases es.len(),
{
    if es.len() == 0 {
        seq![]
    } else {
        text_insert(text_map_of(es.drop_last()), es.last().0, es.last().1->Str_0)
    }
}

/// An optional map from texts to texts.
pub open spec fn opt_text_map_spec(f: Option<JsonView>) -> Result<Option<Seq<(Seq<char>, Seq<char>)>>, ()> {
    match f {
        None => Ok(None),
        Some(JsonView::Null) => Ok(None),
        Some(JsonView::Object(es)) => if all_text_members(es) { Ok(Some(text_map_of(es))) } else { Err(()) },
        Some(_) => Err(()),
    }
}

/// The entries of a text map, as pairs of texts.
pub open spec fn text_pairs(m: StrMap<String>) -> Seq<(Seq<char>, Seq<char>)> {
    m.entries@.map_values(|e: (String, String)| (e.0@, e.1@))
}

pub open spec fn opt_text(o: Option<String>) -> Option<Seq<char>> {
    match o {
        Some(s) => Some(s@),
        None => None,
    }
}

pub open spec fn opt_json(o: Option<Json>) -> Option<JsonView> {
    match o {
        Some(j) => Some(j@),
        None => None,
    }
}

pub open spec fn opt_texts(o: Option<Vec<String>>) -> Option<Seq<Seq<char>>> {
    match o {
        Some(v) => Some(v@.map_values(|s: String| s@)),
        None => None,
    }
}

pub open spec fn opt_items(o: Option<Vec<Json>>) -> Option<Seq<JsonView>> {
    match o {
        Some(v) => Some(view_items(v@)),
        None => None,
    }
}

pub open spec fn opt_pairs(o: Option<StrMap<String>>) -> Option<Seq<(Seq<char>, Seq<char>)>> {
    match o {
        Some(m) => Some(text_pairs(m)),
        None => None,
    }
}

fn invalid(field: &str) -> (e: DecodeError)
    ensures
        e == DecodeError::InvalidField(e->InvalidField_0) && e.field() == field@,
{
    DecodeError::InvalidField(String::from_str(field))
}

/// Reads an optional text field.
pub fn read_opt_text(m: &StrMap<Json>, key: &str) -> (r: Result<Option<String>, DecodeError>)
    ensures
        match opt_text_spec(field_of(*m, key@)) {
            Ok(o) => r matches Ok(v) && opt_text(v) == o,
            Err(_) => r matches Err(e) && e is InvalidField && e.field() == key@,
        },
{
    proof {
        lemma_field_of(*m, key@);
    }
    match m.get(key) {
        None => Ok(None),
        Some(Json::Null) => Ok(None),
        Some(Json::Str(s)) => Ok(Some(s.clone())),
        Some(_) => Err(invalid(key)),
    }
}

/// Reads an optional integer field.
pub fn read_opt_i64(m: &StrMap<Json>, key: &str) -> (r: Result<Option<i64>, DecodeError>)
    ensures
        match opt_i64_spec(field_of(*m, key@)) {
            Ok(o) => r == Ok::<Option<i64>, DecodeError>(o),
            Err(_) => r matches Err(e) && e is InvalidField && e.field() == key@,
        },
{
    proof {
        lemma_field_of(*m, key@);
    }
    match m.get(key) {
        None => Ok(None),
        Some(Json::Null) => Ok(None),
        Some(Json::Number(JsonNumber::Int(i))) => Ok(Some(*i)),
        Some(_) => Err(invalid(key)),
    }
}

/// Reads an optional field of any JSON value.
pub fn read_opt_any(m: &StrMap<Json>, key: &str) -> (r: Option<Json>)
    ensures
        opt_json(r) == opt_any_spec(field_of(*m, key@)),
{
    proof {
        lemma_field_of(*m, key@);
    }
    match m.get(key) {
        None => None,
        Some(Json::Null) => None,
        Some(v) => Some(v.deep_clone()),
    }
}

/// Reads an optional list of texts.
pub fn read_opt_text_list(m: &StrMap<Json>, key: &str) -> (r: Result<Option<Vec<String>>, DecodeError>)
    ensures
        match opt_text_list_spec(field_of(*m, key@)) {
            Ok(o) => r matches Ok(v) && opt_texts(v) == o,
            Err(_) => r matches Err(e) && e is InvalidField && e.field() == key@,
        },
{
    proof {
        lemma_field_of(*m, key@);
    }
    match m.get(key) {
        None => Ok(None),
        Some(Json::Null) => Ok(None),
        Some(Json::Array(items)) => {
            let ghost iv = view_items(items@);
            proof {
                lemma_view_items_index(items@);
            }
            let mut out: Vec<String> = Vec::new();
            let mut i: usize = 0;
            while i < items.len()
                invariant
                    i <= items@.len(),
                    iv == view_items(items@),
                    field_of(*m, key@) == Some(JsonView::Array(iv)),
                    iv.len() == items@.len(),
                    forall|j: int| 0 <= j < items@.len() ==> #[trigger] iv[j] == items@[j]@,
                    out@.len() == i,
                    all_texts(iv.take(i as int)),
                    forall|j: int| 0 <= j < i ==> #[trigger] out@[j]@ == iv[j]->Str_0,
                decreases items@.len() - i,
            {
                match &items[i] {
                    Json::Str(s) => {
                        out.push(s.clone());
                        assert forall|j: int| 0 <= j < i + 1 implies #[trigger] iv.take(i + 1)[j] is Str by {
                            if j < i {
                                assert(iv.take(i + 1)[j] == iv.take(i as int)[j]);
                            }
                        }
                    },
                    _ => {
                        assert(!(iv[i as int] is Str));
                        return Err(invalid(key));
                    },
                }
                i = i + 1;
            }
            assert(iv.take(items@.len() as int) =~= iv);
            assert(out@.map_values(|s: String| s@) =~= texts_of(iv));
            Ok(Some(out))
        },
        Some(_) => Err(invalid(key)),
    }
}

/// Reads an optional list of JSON values.
pub fn read_opt_list(m: &StrMap<Json>, key: &str) -> (r: Result<Option<Vec<Json>>, DecodeError>)
    ensures
        match opt_list_spec(field_of(*m, key@)) {
            Ok(o) => r matches Ok(v) && opt_items(v) == o,
            Err(_) => r matches Err(e) && e is InvalidField && e.field() == key@,
        },
{
    proof {
        lemma_field_of(*m, key@);
    }
    match m.get(key) {
        None => Ok(None),
        Some(Json::Null) => Ok(None),
        Some(Json::Array(items)) => {
            let mut out: Vec<Json> = Vec::new();
            let mut i: usize = 0;
            while i < items.len()
                invariant
                    i <= items@.len(),
                    view_items(out@) == view_items(items@.take(i as int)),
                decreases items@.len() - i,
            {
                let c = items[i].deep_clone();
                let ghost before = out@;
                out.push(c);
                proof {
                    assert(out@.drop_last() =~= before);
                    assert(items@.take(i + 1).drop_last() =~= items@.take(i as int));
                }
                i = i + 1;
            }
            assert(items@.take(items@.len() as int) =~= items@);
            Ok(Some(out))
        },
        Some(_) => Err(invalid(key)),
    }
}

proof fn lemma_text_insert_matches(m: StrMap<String>, k: Seq<char>, v: Seq<char>, new_m: StrMap<String>, key: String, value: String)
    requires
        key@ == k,
        value@ == v,
        m.has_key(k) ==> new_m.entries@ == m.entries@.update(m.first_index(k), (key, value)),
        !m.has_key(k) ==> new_m.entries@ == m.entries@.push((key, value)),
    ensures
        text_pairs(new_m) == text_insert(text_pairs(m), k, v),
{
    let old_view = text_pairs(m);
    assert forall|i: int| 0 <= i < old_view.len() implies #[trigger] old_view[i].0 == m.key_at(i) by {}
    if m.has_key(k) {
        m.lemma_first_exists(k);
        let f = m.first_index(k);
        assert(old_view[f].0 == k);
        let c = choose|i: int| 0 <= i < old_view.len() && old_view[i].0 == k && forall|j: int| 0 <= j < i ==> #[trigger] old_view[j].0 != k;
        assert(old_view[f].0 == k && forall|j: int| 0 <= j < f ==> #[trigger] old_view[j].0 != k) by {
            assert forall|j: int| 0 <= j < f implies #[trigger] old_view[j].0 != k by {
                assert(m.key_at(j) != k);
            }
        }
        if c < f {
            assert(m.key_at(c) != k);
        } else if f < c {
            assert(old_view[f].0 != k);
        }
        assert(text_pairs(new_m) =~= old_view.update(f, (k, v)));
    } else {
        assert(!(exists|i: int| 0 <= i < old_view.len() && #[trigger] old_view[i].0 == k)) by {
            if exists|i: int| 0 <= i < old_view.len() && #[trigger] old_view[i].0 == k {
                let i = choose|i: int| 0 <= i < old_view.len() && #[trigger] old_view[i].0 == k;
                assert(m.key_at(i) == k);
            }
        }
        assert(text_pairs(new_m) =~= old_view.push((k, v)));
    }
}

/// Reads an optional map from texts to texts.
pub fn read_opt_text_map(m: &StrMap<Json>, key: &str) -> (r: Result<Option<StrMap<String>>, DecodeError>)
    ensures
        match opt_text_map_spec(field_of(*m, key@)) {
            Ok(o) => r matches Ok(v) && opt_pairs(v) == o,
            Err(_) => r matches Err(e) && e is InvalidField && e.field() == key@,
        },
        r matches Ok(Some(t)) ==> t.unique_keys(),
{
    proof {
        lemma_field_of(*m, key@);
    }
    match m.get(key) {
        None => Ok(None),
        Some(Json::Null) => Ok(None),
        Some(Json::Object(obj)) => {
            let ghost ev = view_entries(obj.entries@);
            proof {
                lemma_view_entries_index(obj.entries@);
            }
            let mut out: StrMap<String> = StrMap::new();
            let mut i: usize = 0;
            assert(text_pairs(out) =~= text_map_of(ev.take(0)));
            while i < obj.entries.len()
                invariant
                    i <= obj.entries@.len(),
                    ev == view_entries(obj.entries@),
                    field_of(*m, key@) == Some(JsonView::Object(ev)),
                    ev.len() == obj.entries@.len(),
                    forall|j: int| 0 <= j < obj.entries@.len() ==> #[trigger] ev[j] == (obj.entries@[j].0@, obj.entries@[j].1@),
                    all_text_members(ev.take(i as int)),
                    text_pairs(out) == text_map_of(ev.take(i as int)),
                    out.unique_keys(),
                decreases obj.entries@.len() - i,
            {
                match &obj.entries[i].1 {
                    Json::Str(s) => {
                        let k = obj.entries[i].0.clone();
                        let v = s.clone();
                        let ghost old_out = out;
                        let ghost kk = k;
                        let ghost vv = v;
                        out.insert(k, v);
                        proof {
                            lemma_text_insert_matches(old_out, kk@, vv@, out, kk, vv);
                            let t = ev.take(i + 1);
                            assert(t.drop_last() =~= ev.take(i as int));
                            assert(t.last() == ev[i as int]);
                            assert forall|j: int| 0 <= j < i + 1 implies #[trigger] t[j].1 is Str by {
                                if j < i {
                                    assert(t[j] == ev.take(i as int)[j]);
                                }
                            }
                        }
                    },
                    _ => {
                        assert(!(ev[i as int].1 is Str));
                        return Err(invalid(key));
                    },
                }
                i = i + 1;
            }
            assert(ev.take(obj.entries@.len() as int) =~= ev);
            Ok(Some(out))
        },
        Some(_) => Err(invalid(key)),
    }
}

} // verus!
