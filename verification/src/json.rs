//! A JSON value model.
//!
//! Objects are [`StrMap`]s; a number is held as an `i64` when it is one and
//! otherwise by the bit pattern of its IEEE-754 double value.
use vstd::prelude::*;
use crate::strmap::StrMap;

verus! {

#[derive(Debug, PartialEq, Eq, Clone, Copy)]
pub enum JsonNumber {
    /// A number that is an `i64`.
    Int(i64),
    /// Any other number, by the bits of its double value.
    Real(u64),
}

#[derive(Debug, PartialEq)]
pub enum Json {
    Null,
    Bool(bool),
    Number(JsonNumber),
    Str(String),
    Array(Vec<Json>),
    Object(StrMap<Json>),
}

/// The mathematical value of a [`Json`]: strings as characters, arrays and
/// objects as sequences, object entries in their stored order.
pub enum JsonView {
    Null,
    Bool(bool),
    Number(JsonNumber),
    Str(Seq<char>),
    Array(Seq<JsonView>),
    Object(Seq<(Seq<char>, JsonView)>),
}

pub open spec fn view_items(s: Seq<Json>) -> Seq<JsonView>
    decreases s,
{
    if s.len() == 0 {
        seq![]
    } else {
        view_items(s.drop_last()).push(s.last().view_rec())
    }
}

pub open spec fn view_entries(s: Seq<(String, Json)>) -> Seq<(Seq<char>, JsonView)>
    decreases s,
{
    if s.len() == 0 {
        seq![]
    } else {
        view_entries(s.drop_last()).push((s.last().0@, s.last().1.view_rec()))
    }
}

pub proof fn lemma_view_items_index(s: Seq<Json>)
    ensures
        view_items(s).len() == s.len(),
        forall|i: int| 0 <= i < s.len() ==> #[trigger] view_items(s)[i] == s[i]@,
    decreases s.len(),
{
    if s.len() > 0 {
        lemma_view_items_index(s.drop_last());
        assert forall|i: int| 0 <= i < s.len() implies #[trigger] view_items(s)[i] == s[i]@ by {
            if i < s.len() - 1 {
                assert(view_items(s)[i] == view_items(s.drop_last())[i]);
                assert(s.drop_last()[i] == s[i]);
            }
        }
    }
}

pub proof fn lemma_view_entries_index(s: Seq<(String, Json)>)
    ensures
        view_entries(s).len() == s.len(),
        forall|i: int| 0 <= i < s.len() ==> #[trigger] view_entries(s)[i] == (s[i].0@, s[i].1@),
    decreases s.len(),
{
    if s.len() > 0 {
        lemma_view_entries_index(s.drop_last());
        assert forall|i: int| 0 <= i < s.len() implies #[trigger] view_entries(s)[i] == (s[i].0@, s[i].1@) by {
            if i < s.len() - 1 {
                assert(view_entries(s)[i] == view_entries(s.drop_last())[i]);
                assert(s.drop_last()[i] == s[i]);
            }
        }
    }
}

/// Sequences of values with the same values, item by item, have the same view.
pub proof fn lemma_view_items_eq(a: Seq<Json>, b: Seq<Json>)
    requires
        a.len() == b.len(),
        forall|i: int| 0 <= i < a.len() ==> #[trigger] a[i]@ == b[i]@,
    ensures
        view_items(a) == view_items(b),
{
    lemma_view_items_index(a);
    lemma_view_items_index(b);
    assert(view_items(a) =~= view_items(b));
}

pub proof fn lemma_view_entries_eq(a: Seq<(String, Json)>, b: Seq<(String, Json)>)
    requires
        a.len() == b.len(),
        forall|i: int| #![trigger a[i]] 0 <= i < a.len() ==> a[i].0@ == b[i].0@ && a[i].1@ == b[i].1@,
    ensures
        view_entries(a) == view_entries(b),
{
    lemma_view_entries_index(a);
    lemma_view_entries_index(b);
    assert forall|i: int| 0 <= i < a.len() implies view_entries(a)[i] == view_entries(b)[i] by {
        assert(a[i].0@ == b[i].0@ && a[i].1@ == b[i].1@);
    }
    assert(view_entries(a) =~= view_entries(b));
}

impl Json {
    pub open spec fn view_rec(self) -> JsonView
        decreases self,
    {
        match self {
            Json::Null => JsonView::Null,
            Json::Bool(b) => JsonView::Bool(b),
            Json::Number(n) => JsonView::Number(n),
            Json::Str(s) => JsonView::Str(s@),
            Json::Array(v) => JsonView::Array(view_items(v@)),
            Json::Object(m) => JsonView::Object(view_entries(m.entries@)),
        }
    }
}

impl View for Json {
    type V = JsonView;

    open spec fn view(&self) -> JsonView {
        self.view_rec()
    }
}

/// Puts member `k` with value `v` into the member list `es`: the first entry
/// named `k` takes the value, or a new entry is added at the end.
pub open spec fn member_insert(es: Seq<(Seq<char>, JsonView)>, k: Seq<char>, v: JsonView) -> Seq<(Seq<char>, JsonView)> {
    if exists|i: int| 0 <= i < es.len() && #[trigger] es[i].0 == k {
        let i = choose|i: int| 0 <= i < es.len() && es[i].0 == k && forall|j: int| 0 <= j < i ==> #[trigger] es[j].0 != k;
        es.update(i, (k, v))
    } else {
        es.push((k, v))
    }
}

proof fn lemma_member_insert_matches(m: StrMap<Json>, old_view: Seq<(Seq<char>, JsonView)>, k: Seq<char>, v: JsonView, new_m: StrMap<Json>, nv: Json)
    requires
        view_entries(m.entries@) == old_view,
        nv@ == v,
        m.has_key(k) ==> new_m.entries@ == m.entries@.update(m.first_index(k), (new_m.entries@[m.first_index(k)].0, nv))
            && new_m.entries@[m.first_index(k)].0@ == k,
        !m.has_key(k) ==> new_m.entries@ == m.entries@.push((new_m.entries@.last().0, nv)) && new_m.entries@.last().0@ == k,
    ensures
        view_entries(new_m.entries@) == member_insert(old_view, k, v),
{
    lemma_view_entries_index(m.entries@);
    lemma_view_entries_index(new_m.entries@);
    assert forall|i: int| 0 <= i < old_view.len() implies #[trigger] old_view[i].0 == m.key_at(i) by {}
    if m.has_key(k) {
        m.lemma_first_exists(k);
        let f = m.first_index(k);
        assert(exists|i: int| 0 <= i < old_view.len() && #[trigger] old_view[i].0 == k) by {
            assert(old_view[f].0 == k);
        }
        let c = choose|i: int| 0 <= i < old_view.len() && old_view[i].0 == k && forall|j: int| 0 <= j < i ==> #[trigger] old_view[j].0 != k;
        assert(old_view[f].0 == k && forall|j: int| 0 <= j < f ==> #[trigger] old_view[j].0 != k) by {
            assert forall|j: int| 0 <= j < f implies #[trigger] old_view[j].0 != k by {
                assert(m.key_at(j) != k);
            }
        }
        if c < f {
            assert(m.key_at(c) != k);
        } else if f < c {
            assert(old_view[f].0 != k);
        }
        assert(view_entries(new_m.entries@) =~= old_view.update(f, (k, v)));
    } else {
        assert(!(exists|i: int| 0 <= i < old_view.len() && #[trigger] old_view[i].0 == k)) by {
            if exists|i: int| 0 <= i < old_view.len() && #[trigger] old_view[i].0 == k {
                let i = choose|i: int| 0 <= i < old_view.len() && #[trigger] old_view[i].0 == k;
                assert(m.key_at(i) == k);
            }
        }
        assert(view_entries(new_m.entries@) =~= old_view.push((k, v)));
    }
}

/// Sets member `key` of an object: the first member with that name takes
/// the value, or the member is added at the end.
pub fn object_insert(m: &mut StrMap<Json>, key: String, value: Json)
    ensures
        view_entries(final(m).entries@) == member_insert(view_entries(old(m).entries@), key@, value@),
        old(m).unique_keys() ==> final(m).unique_keys(),
{
    let ghost old_m = *m;
    let ghost k = key@;
    let ghost vv = value@;
    m.insert(key, value);
    proof {
        let new_m = *m;
        if old_m.has_key(k) {
            old_m.lemma_first_exists(k);
            let f = old_m.first_index(k);
            assert(new_m.entries@[f].1@ == vv);
            lemma_member_insert_matches(old_m, view_entries(old_m.entries@), k, vv, new_m, new_m.entries@[f].1);
        } else {
            lemma_member_insert_matches(old_m, view_entries(old_m.entries@), k, vv, new_m, new_m.entries@.last().1);
        }
    }
}

/// The member `k` of object `m`, if there is one.
pub open spec fn member(m: StrMap<Json>, k: Seq<char>) -> Option<Json> {
    if m.as_map().contains_key(k) {
        Some(m.as_map()[k])
    } else {
        None
    }
}

/// The text of member `k` of `m`, when it is a string.
pub open spec fn member_str(m: StrMap<Json>, k: Seq<char>) -> Option<Seq<char>> {
    match member(m, k) {
        Some(v) => v.str_spec(),
        None => None,
    }
}

/// The value of member `k` of `m`, when it is a number that is an `i64`.
pub open spec fn member_i64(m: StrMap<Json>, k: Seq<char>) -> Option<i64> {
    match member(m, k) {
        Some(v) => v.i64_spec(),
        None => None,
    }
}

/// The view of member `k` of `m`.
pub open spec fn member_view(m: StrMap<Json>, k: Seq<char>) -> Option<JsonView> {
    match member(m, k) {
        Some(v) => Some(v@),
        None => None,
    }
}

/// The text of member `field` of the object held by member `k` of `m`.
pub open spec fn nested_str(m: StrMap<Json>, k: Seq<char>, field: Seq<char>) -> Option<Seq<char>> {
    match member(m, k) {
        Some(v) => match v.get_spec(field) {
            Some(w) => w.str_spec(),
            None => None,
        },
        None => None,
    }
}

/// The member `key` of `m`, as text when it is a string.
pub fn get_member_str(m: &StrMap<Json>, key: &str) -> (r: Option<String>)
    ensures
        match r {
            Some(s) => member_str(*m, key@) == Some(s@),
            None => member_str(*m, key@) is None,
        },
{
    match m.get(key) {
        Some(v) => match v.as_str() {
            Some(s) => Some(String::from_str(s)),
            None => None,
        },
        None => None,
    }
}

/// The member `key` of `m`, when it is a number that is an `i64`.
pub fn get_member_i64(m: &StrMap<Json>, key: &str) -> (r: Option<i64>)
    ensures
        r == member_i64(*m, key@),
{
    match m.get(key) {
        Some(v) => v.as_i64(),
        None => None,
    }
}

impl Json {
    /// What `get(key)` gives: the member of an object, nothing for other values.
    pub open spec fn get_spec(self, k: Seq<char>) -> Option<Json> {
        match self {
            Json::Object(m) => member(m, k),
            _ => None,
        }
    }

    /// The text of a string value.
    pub open spec fn str_spec(self) -> Option<Seq<char>> {
        match self {
            Json::Str(s) => Some(s@),
            _ => None,
        }
    }

    /// The value of a number that is an `i64`.
    pub open spec fn i64_spec(self) -> Option<i64> {
        match self {
            Json::Number(JsonNumber::Int(i)) => Some(i),
            _ => None,
        }
    }

    /// The member `key` of an object; `None` for a missing member or a value
    /// that is not an object.
    pub fn get(&self, key: &str) -> (r: Option<&Json>)
        ensures
            match r {
                Some(v) => self.get_spec(key@) == Some(*v),
                None => self.get_spec(key@) is None,
            },
    {
        match self {
            Json::Object(m) => m.get(key),
            _ => None,
        }
    }

    pub fn as_str(&self) -> (r: Option<&str>)
        ensures
            match r {
                Some(s) => self.str_spec() == Some(s@),
                None => self.str_spec() is None,
            },
    {
        match self {
            Json::Str(s) => Some(s.as_str()),
            _ => None,
        }
    }

    pub fn as_i64(&self) -> (r: Option<i64>)
        ensures
            r == self.i64_spec(),
    {
        match self {
            Json::Number(JsonNumber::Int(i)) => Some(*i),
            _ => None,
        }
    }

    pub fn as_object(&self) -> (r: Option<&StrMap<Json>>)
        ensures
            match r {
                Some(m) => *self == Json::Object(*m),
                None => !(*self is Object),
            },
    {
        match self {
            Json::Object(m) => Some(m),
            _ => None,
        }
    }

    /// A copy of this value.
    pub fn deep_clone(&self) -> (r: Json)
        ensures
            r@ == self@,
        decreases self,
    {
        match self {
            Json::Null => Json::Null,
            Json::Bool(b) => Json::Bool(*b),
            Json::Number(JsonNumber::Int(i)) => Json::Number(JsonNumber::Int(*i)),
            Json::Number(JsonNumber::Real(b)) => Json::Number(JsonNumber::Real(*b)),
            Json::Str(s) => Json::Str(s.clone()),
            Json::Array(v) => {
                let mut out: Vec<Json> = Vec::new();
                let mut i: usize = 0;
                while i < v.len()
                    invariant
                        *self == Json::Array(*v),
                        i <= v@.len(),
                        out@.len() == i,
                        forall|k: int| 0 <= k < i ==> #[trigger] out@[k]@ == v@[k]@,
                    decreases v@.len() - i,
                {
                    proof {
                        assert(decreases_to!(*self => (*self)->Array_0));
                        assert(decreases_to!(*v => v@));
                        assert(decreases_to!(v@ => v@[i as int]));
                    }
                    let c = v[i].deep_clone();
                    out.push(c);
                    i = i + 1;
                }
                proof {
                    lemma_view_items_eq(out@, v@);
                }
                Json::Array(out)
            },
            Json::Object(m) => {
                let mut out: Vec<(String, Json)> = Vec::new();
                let mut i: usize = 0;
                while i < m.entries.len()
                    invariant
                        *self == Json::Object(*m),
                        i <= m.entries@.len(),
                        out@.len() == i,
                        forall|k: int| #![trigger out@[k]] 0 <= k < i ==> out@[k].0@ == m.entries@[k].0@ && out@[k].1@ == m.entries@[k].1@,
                    decreases m.entries@.len() - i,
                {
                    proof {
                        assert(decreases_to!(*self => (*self)->Object_0));
                        assert(decreases_to!(*m => m.entries));
                        assert(decreases_to!(m.entries => m.entries@));
                        assert(decreases_to!(m.entries@ => m.entries@[i as int]));
                        assert(decreases_to!(m.entries@[i as int] => m.entries@[i as int].1));
                    }
                    let k = m.entries[i].0.clone();
                    let c = m.entries[i].1.deep_clone();
                    out.push((k, c));
                    i = i + 1;
                }
                proof {
                    lemma_view_entries_eq(out@, m.entries@);
                }
                Json::Object(StrMap { entries: out })
            },
        }
    }

    /// `Number::from(i64)`.
    pub fn from_i64(i: i64) -> (r: Json)
        ensures
            r == Json::Number(JsonNumber::Int(i)),
    {
        Json::Number(JsonNumber::Int(i))
    }

    /// A string value with the text of `s`.
    pub fn from_str(s: &str) -> (r: Json)
        ensures
            r.str_spec() == Some(s@),
    {
        Json::Str(String::from_str(s))
    }
}

/// Member `k` of a JSON value, when the value is an object: its first member
/// of that name.
pub open spec fn view_get(j: JsonView, k: Seq<char>) -> Option<JsonView> {
    match j {
        JsonView::Object(es) => crate::fields::seq_member(es, k),
        _ => None,
    }
}

/// `get` on a value agrees with `view_get` on its view.
pub proof fn lemma_get_view(j: Json, k: Seq<char>)
    ensures
        view_get(j@, k) == match j.get_spec(k) {
            Some(v) => Some(v@),
            None => None::<JsonView>,
        },
{
    match j {
        Json::Object(m) => {
            crate::fields::lemma_field_of(m, k);
        },
        _ => {},
    }
}

} // verus!
