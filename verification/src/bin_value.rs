//! A model of the values the record store keeps in bins, and their
//! conversions to and from JSON.
//!
//! A map is held as its list of entries, in the order its reader walked it.
//! Map keys that the store lets through (strings, geo strings, integers) are
//! held as such; any other key is held by its diagnostic text, and so is any
//! value the library never looks into (multi-results, HyperLogLogs, the
//! infinity and wildcard bounds).
use vstd::prelude::*;
use crate::json::{lemma_view_entries_index, lemma_view_items_index, member_insert, object_insert, view_entries, view_items, Json, JsonNumber, JsonView};
use crate::strmap::{keyed_insert, StrMap};
use crate::text::{i64_to_string, signed_decimal};

verus! {

#[derive(Debug, PartialEq)]
pub enum BinKey {
    Str(String),
    Geo(String),
    Int(i64),
    /// Any other key, by its diagnostic text.
    Other(String),
}

#[derive(Debug, PartialEq)]
pub enum BinValue {
    Nil,
    Bool(bool),
    Int(i64),
    /// A double, by its IEEE-754 bit pattern.
    Float(u64),
    Str(String),
    Blob(Vec<u8>),
    List(Vec<BinValue>),
    HashMap(Vec<(BinKey, BinValue)>),
    OrderedMap(Vec<(BinKey, BinValue)>),
    KeyValueList(Vec<(BinKey, BinValue)>),
    GeoJson(String),
    /// A value the library only ever shows, by its diagnostic text.
    Opaque(String),
}

pub enum BinKeyView {
    Str(Seq<char>),
    Geo(Seq<char>),
    Int(i64),
    Other(Seq<char>),
}

/// The mathematical value of a [`BinValue`].
pub enum BinView {
    Nil,
    Bool(bool),
    Int(i64),
    Float(u64),
    Str(Seq<char>),
    Blob(Seq<u8>),
    List(Seq<BinView>),
    HashMap(Seq<(BinKeyView, BinView)>),
    OrderedMap(Seq<(BinKeyView, BinView)>),
    KeyValueList(Seq<(BinKeyView, BinView)>),
    GeoJson(Seq<char>),
    Opaque(Seq<char>),
}

impl View for BinKey {
    type V = BinKeyView;

    open spec fn view(&self) -> BinKeyView {
        match *self {
            BinKey::Str(s) => BinKeyView::Str(s@),
            BinKey::Geo(s) => BinKeyView::Geo(s@),
            BinKey::Int(i) => BinKeyView::Int(i),
            BinKey::Other(s) => BinKeyView::Other(s@),
        }
    }
}

pub open spec fn bin_items(s: Seq<BinValue>) -> Seq<BinView>
    decreases s,
{
    if s.len() == 0 {
        seq![]
    } else {
        bin_items(s.drop_last()).push(s.last().view_rec())
    }
}

pub open spec fn bin_entries(s: Seq<(BinKey, BinValue)>) -> Seq<(BinKeyView, BinView)>
    decreases s,
{
    if s.len() == 0 {
        seq![]
    } else {
        bin_entries(s.drop_last()).push((s.last().0@, s.last().1.view_rec()))
    }
}

impl BinValue {
    pub open spec fn view_rec(self) -> BinView
        decreases self,
    {
        match self {
            BinValue::Nil => BinView::Nil,
            BinValue::Bool(b) => BinView::Bool(b),
            BinValue::Int(i) => BinView::Int(i),
            BinValue::Float(b) => BinView::Float(b),
            BinValue::Str(s) => BinView::Str(s@),
            BinValue::Blob(b) => BinView::Blob(b@),
            BinValue::List(v) => BinView::List(bin_items(v@)),
            BinValue::HashMap(m) => BinView::HashMap(bin_entries(m@)),
            BinValue::OrderedMap(m) => BinView::OrderedMap(bin_entries(m@)),
            BinValue::KeyValueList(m) => BinView::KeyValueList(bin_entries(m@)),
            BinValue::GeoJson(s) => BinView::GeoJson(s@),
            BinValue::Opaque(s) => BinView::Opaque(s@),
        }
    }
}

impl View for BinValue {
    type V = BinView;

    open spec fn view(&self) -> BinView {
        self.view_rec()
    }
}

pub proof fn lemma_bin_items_index(s: Seq<BinValue>)
    ensures
        bin_items(s).len() == s.len(),
        forall|i: int| 0 <= i < s.len() ==> #[trigger] bin_items(s)[i] == s[i]@,
    decreases s.len(),
{
    if s.len() > 0 {
        lemma_bin_items_index(s.drop_last());
        assert forall|i: int| 0 <= i < s.len() implies #[trigger] bin_items(s)[i] == s[i]@ by {
            if i < s.len() - 1 {
                assert(bin_items(s)[i] == bin_items(s.drop_last())[i]);
                assert(s.drop_last()[i] == s[i]);
            }
        }
    }
}

pub proof fn lemma_bin_entries_index(s: Seq<(BinKey, BinValue)>)
    ensures
        bin_entries(s).len() == s.len(),
        forall|i: int| 0 <= i < s.len() ==> #[trigger] bin_entries(s)[i] == (s[i].0@, s[i].1@),
    decreases s.len(),
{
    if s.len() > 0 {
        lemma_bin_entries_index(s.drop_last());
        assert forall|i: int| 0 <= i < s.len() implies #[trigger] bin_entries(s)[i] == (s[i].0@, s[i].1@) by {
            if i < s.len() - 1 {
                assert(bin_entries(s)[i] == bin_entries(s.drop_last())[i]);
                assert(s.drop_last()[i] == s[i]);
            }
        }
    }
}

/// The text a map key stands for as a JSON member name.
pub open spec fn key_text(k: BinKeyView) -> Seq<char> {
    match k {
        BinKeyView::Str(s) => s,
        BinKeyView::Geo(s) => s,
        BinKeyView::Int(i) => signed_decimal(i as int),
        BinKeyView::Other(t) => t,
    }
}

/// The bits of a double name a finite number: its exponent field is not all ones.
pub open spec fn finite_bits(bits: u64) -> bool {
    (bits / 0x10_0000_0000_0000u64) % 0x800 != 0x7ff
}

/// `String::from_utf8_lossy`: the text of a byte string, with each invalid
/// sequence replaced by U+FFFD.
pub uninterp spec fn utf8_lossy_text(bytes: Seq<u8>) -> Seq<char>;

/// `String::from_utf8_lossy(..).to_string()`. Its documentation gives the
/// decoded text for valid UTF-8; for other bytes the text is only named.
#[verifier::external_body]
fn utf8_lossy(bytes: &[u8]) -> (r: String)
    ensures
        r@ == utf8_lossy_text(bytes@),
        vstd::utf8::valid_utf8(bytes@) ==> r@ == vstd::utf8::decode_utf8(bytes@),
{
    String::from_utf8_lossy(bytes).to_string()
}

/// The JSON value `value_to_json` makes of a record value.
pub open spec fn json_of(v: BinView) -> JsonView
    decreases v,
{
    match v {
        BinView::Nil => JsonView::Null,
        BinView::Bool(b) => JsonView::Bool(b),
        BinView::Int(i) => JsonView::Number(JsonNumber::Int(i)),
        BinView::Float(b) => if finite_bits(b) { JsonView::Number(JsonNumber::Real(b)) } else { JsonView::Null },
        BinView::Str(s) => JsonView::Str(s),
        BinView::GeoJson(s) => JsonView::Str(s),
        BinView::Blob(b) => JsonView::Str(utf8_lossy_text(b)),
        BinView::List(items) => JsonView::Array(json_of_items(items)),
        BinView::HashMap(m) => JsonView::Object(json_of_entries(m)),
        BinView::OrderedMap(m) => JsonView::Object(json_of_entries(m)),
        BinView::KeyValueList(m) => JsonView::Object(json_of_entries(m)),
        BinView::Opaque(t) => JsonView::Str(t),
    }
}

pub open spec fn json_of_items(s: Seq<BinView>) -> Seq<JsonView>
    decreases s,
{
    if s.len() == 0 {
        seq![]
    } else {
        json_of_items(s.drop_last()).push(json_of(s.last()))
    }
}

/// The members made of map entries, in the order the entries are read.
pub open spec fn json_of_entries(s: Seq<(BinKeyView, BinView)>) -> Seq<(Seq<char>, JsonView)>
    decreases s,
{
    if s.len() == 0 {
        seq![]
    } else {
        member_insert(json_of_entries(s.drop_last()), key_text(s.last().0), json_of(s.last().1))
    }
}

/// The text of a map key, as `value_key_to_string` writes it.
pub fn value_key_to_string(key: &BinKey) -> (r: String)
    ensures
        r@ == key_text(key@),
{
    match key {
        BinKey::Str(s) => s.clone(),
        BinKey::Geo(s) => s.clone(),
        BinKey::Int(i) => i64_to_string(*i),
        BinKey::Other(t) => t.clone(),
    }
}

/// The JSON value of a record value: numbers stay numbers (a double that
/// is not finite becomes `null`), byte strings become their text, lists
/// become arrays and maps become objects whose member names are the keys'
/// texts, a later entry overwriting the value of an earlier one with the
/// same text; values held by their diagnostic text become strings.
pub fn value_to_json(value: &BinValue) -> (r: Json)
    ensures
        r@ == json_of(value@),
    decreases value, 1nat,
{
    match value {
        BinValue::Nil => Json::Null,
        BinValue::Bool(b) => Json::Bool(*b),
        BinValue::Int(i) => Json::Number(JsonNumber::Int(*i)),
        BinValue::Float(bits) => {
            let exponent: u64 = (*bits / 0x10_0000_0000_0000u64) % 0x800;
            if exponent != 0x7ff {
                Json::Number(JsonNumber::Real(*bits))
            } else {
                Json::Null
            }
        },
        BinValue::Str(s) => Json::Str(s.clone()),
        BinValue::GeoJson(s) => Json::Str(s.clone()),
        BinValue::Blob(b) => Json::Str(utf8_lossy(b.as_slice())),
        BinValue::Opaque(t) => Json::Str(t.clone()),
        BinValue::List(items) => {
            let mut out: Vec<Json> = Vec::new();
            let mut i: usize = 0;
            while i < items.len()
                invariant
                    *value == BinValue::List(*items),
                    i <= items@.len(),
                    view_items(out@) == json_of_items(bin_items(items@).take(i as int)),
                decreases items@.len() - i,
            {
                proof {
                    assert(decreases_to!(*value => (*value)->List_0));
                    assert(decreases_to!(*items => items@));
                    assert(decreases_to!(items@ => items@[i as int]));
                }
                let j = value_to_json(&items[i]);
                let ghost before = out@;
                out.push(j);
                proof {
                    assert(out@.drop_last() =~= before);
                    lemma_bin_items_index(items@);
                    let bi = bin_items(items@);
                    assert(bi.take(i + 1).drop_last() =~= bi.take(i as int));
                    assert(bi.take(i + 1).last() == items@[i as int]@);
                }
                i = i + 1;
            }
            proof {
                lemma_bin_items_index(items@);
                assert(bin_items(items@).take(items@.len() as int) =~= bin_items(items@));
            }
            Json::Array(out)
        },
        BinValue::HashMap(m) => Json::Object(entries_to_object(value, m)),
        BinValue::OrderedMap(m) => Json::Object(entries_to_object(value, m)),
        BinValue::KeyValueList(m) => Json::Object(entries_to_object(value, m)),
    }
}

fn entries_to_object(value: &BinValue, m: &Vec<(BinKey, BinValue)>) -> (r: StrMap<Json>)
    requires
        *value == BinValue::HashMap(*m) || *value == BinValue::OrderedMap(*m) || *value == BinValue::KeyValueList(*m),
    ensures
        view_entries(r.entries@) == json_of_entries(bin_entries(m@)),
        r.unique_keys(),
    decreases value, 0nat,
{
    let mut out: StrMap<Json> = StrMap::new();
    let mut i: usize = 0;
    while i < m.len()
        invariant
            *value == BinValue::HashMap(*m) || *value == BinValue::OrderedMap(*m) || *value == BinValue::KeyValueList(*m),
            i <= m@.len(),
            view_entries(out.entries@) == json_of_entries(bin_entries(m@).take(i as int)),
            out.unique_keys(),
        decreases m@.len() - i,
    {
        proof {
            if *value == BinValue::HashMap(*m) {
                assert(decreases_to!(*value => (*value)->HashMap_0));
            } else if *value == BinValue::OrderedMap(*m) {
                assert(decreases_to!(*value => (*value)->OrderedMap_0));
            } else {
                assert(decreases_to!(*value => (*value)->KeyValueList_0));
            }
            assert(decreases_to!(*m => m@));
            assert(decreases_to!(m@ => m@[i as int]));
            assert(decreases_to!(m@[i as int] => m@[i as int].1));
        }
        let k = value_key_to_string(&m[i].0);
        let j = value_to_json(&m[i].1);
        object_insert(&mut out, k, j);
        proof {
            lemma_bin_entries_index(m@);
            let be = bin_entries(m@);
            assert(be.take(i + 1).drop_last() =~= be.take(i as int));
            assert(be.take(i + 1).last() == (m@[i as int].0@, m@[i as int].1@));
        }
        i = i + 1;
    }
    proof {
        lemma_bin_entries_index(m@);
        assert(bin_entries(m@).take(m@.len() as int) =~= bin_entries(m@));
    }
    out
}

} // verus!

verus! {

/// The record value `json_to_value` makes of a JSON value.
pub open spec fn bin_of(j: JsonView) -> BinView
    decreases j,
{
    match j {
        JsonView::Null => BinView::Nil,
        JsonView::Bool(b) => BinView::Bool(b),
        JsonView::Number(JsonNumber::Int(i)) => BinView::Int(i),
        JsonView::Number(JsonNumber::Real(b)) => BinView::Float(b),
        JsonView::Str(s) => BinView::Str(s),
        JsonView::Array(items) => BinView::List(bin_of_items(items)),
        JsonView::Object(es) => BinView::HashMap(bin_of_entries(es)),
    }
}

pub open spec fn bin_of_items(s: Seq<JsonView>) -> Seq<BinView>
    decreases s,
{
    if s.len() == 0 {
        seq![]
    } else {
        bin_of_items(s.drop_last()).push(bin_of(s.last()))
    }
}

pub open spec fn bin_of_entries(s: Seq<(Seq<char>, JsonView)>) -> Seq<(BinKeyView, BinView)>
    decreases s,
{
    if s.len() == 0 {
        seq![]
    } else {
        bin_of_entries(s.drop_last()).push((BinKeyView::Str(s.last().0), bin_of(s.last().1)))
    }
}

/// The record value of a JSON value: numbers stay numbers, strings stay
/// strings, arrays become lists and objects become maps keyed by their
/// member names, entries in member order.
pub fn json_to_value(value: &Json) -> (r: BinValue)
    ensures
        r@ == bin_of(value@),
    decreases value,
{
    match value {
        Json::Null => BinValue::Nil,
        Json::Bool(b) => BinValue::Bool(*b),
        Json::Number(JsonNumber::Int(i)) => BinValue::Int(*i),
        Json::Number(JsonNumber::Real(b)) => BinValue::Float(*b),
        Json::Str(s) => BinValue::Str(s.clone()),
        Json::Array(items) => {
            let mut out: Vec<BinValue> = Vec::new();
            let mut i: usize = 0;
            while i < items.len()
                invariant
                    *value == Json::Array(*items),
                    i <= items@.len(),
                    bin_items(out@) == bin_of_items(view_items(items@).take(i as int)),
                decreases items@.len() - i,
            {
                proof {
                    assert(decreases_to!(*value => (*value)->Array_0));
                    assert(decreases_to!(*items => items@));
                    assert(decreases_to!(items@ => items@[i as int]));
                }
                let b = json_to_value(&items[i]);
                let ghost before = out@;
                out.push(b);
                proof {
                    assert(out@.drop_last() =~= before);
                    lemma_view_items_index(items@);
                    let vi = view_items(items@);
                    assert(vi.take(i + 1).drop_last() =~= vi.take(i as int));
                    assert(vi.take(i + 1).last() == items@[i as int]@);
                }
                i = i + 1;
            }
            proof {
                lemma_view_items_index(items@);
                assert(view_items(items@).take(items@.len() as int) =~= view_items(items@));
            }
            BinValue::List(out)
        },
        Json::Object(m) => {
            let mut out: Vec<(BinKey, BinValue)> = Vec::new();
            let mut i: usize = 0;
            while i < m.entries.len()
                invariant
                    *value == Json::Object(*m),
                    i <= m.entries@.len(),
                    bin_entries(out@) == bin_of_entries(view_entries(m.entries@).take(i as int)),
                decreases m.entries@.len() - i,
            {
                proof {
                    assert(decreases_to!(*value => (*value)->Object_0));
                    assert(decreases_to!(*m => m.entries));
                    assert(decreases_to!(m.entries => m.entries@));
                    assert(decreases_to!(m.entries@ => m.entries@[i as int]));
                    assert(decreases_to!(m.entries@[i as int] => m.entries@[i as int].1));
                }
                let k = BinKey::Str(m.entries[i].0.clone());
                let b = json_to_value(&m.entries[i].1);
                let ghost before = out@;
                out.push((k, b));
                proof {
                    assert(out@.drop_last() =~= before);
                    lemma_view_entries_index(m.entries@);
                    let ve = view_entries(m.entries@);
                    assert(ve.take(i + 1).drop_last() =~= ve.take(i as int));
                    assert(ve.take(i + 1).last() == (m.entries@[i as int].0@, m.entries@[i as int].1@));
                }
                i = i + 1;
            }
            proof {
                lemma_view_entries_index(m.entries@);
                assert(view_entries(m.entries@).take(m.entries@.len() as int) =~= view_entries(m.entries@));
            }
            BinValue::HashMap(out)
        },
    }
}

impl BinKey {
    pub fn deep_clone(&self) -> (r: BinKey)
        ensures
            r@ == self@,
    {
        match self {
            BinKey::Str(s) => BinKey::Str(s.clone()),
            BinKey::Geo(s) => BinKey::Geo(s.clone()),
            BinKey::Int(i) => BinKey::Int(*i),
            BinKey::Other(s) => BinKey::Other(s.clone()),
        }
    }
}

fn clone_bytes(b: &Vec<u8>) -> (r: Vec<u8>)
    ensures
        r@ == b@,
{
    let mut out: Vec<u8> = Vec::new();
    let mut i: usize = 0;
    while i < b.len()
        invariant
            i <= b@.len(),
            out@ == b@.take(i as int),
        decreases b@.len() - i,
    {
        out.push(b[i]);
        assert(b@.take(i + 1) =~= b@.take(i as int).push(b@[i as int]));
        i = i + 1;
    }
    assert(b@.take(b@.len() as int) =~= b@);
    out
}

impl BinValue {
    /// A copy of this value.
    pub fn deep_clone(&self) -> (r: BinValue)
        ensures
            r@ == self@,
        decreases self, 1nat,
    {
        match self {
            BinValue::Nil => BinValue::Nil,
            BinValue::Bool(b) => BinValue::Bool(*b),
            BinValue::Int(i) => BinValue::Int(*i),
            BinValue::Float(b) => BinValue::Float(*b),
            BinValue::Str(s) => BinValue::Str(s.clone()),
            BinValue::Blob(b) => BinValue::Blob(clone_bytes(b)),
            BinValue::GeoJson(s) => BinValue::GeoJson(s.clone()),
            BinValue::Opaque(s) => BinValue::Opaque(s.clone()),
            BinValue::List(items) => {
                let mut out: Vec<BinValue> = Vec::new();
                let mut i: usize = 0;
                while i < items.len()
                    invariant
                        *self == BinValue::List(*items),
                        i <= items@.len(),
                        bin_items(out@) == bin_items(items@.take(i as int)),
                    decreases items@.len() - i,
                {
                    proof {
                        assert(decreases_to!(*self => (*self)->List_0));
                        assert(decreases_to!(*items => items@));
                        assert(decreases_to!(items@ => items@[i as int]));
                    }
                    let c = items[i].deep_clone();
                    let ghost before = out@;
                    out.push(c);
                    proof {
                        assert(out@.drop_last() =~= before);
                        assert(items@.take(i + 1).drop_last() =~= items@.take(i as int));
                    }
                    i = i + 1;
                }
                assert(items@.take(items@.len() as int) =~= items@);
                BinValue::List(out)
            },
            BinValue::HashMap(m) => BinValue::HashMap(clone_entries(self, m)),
            BinValue::OrderedMap(m) => BinValue::OrderedMap(clone_entries(self, m)),
            BinValue::KeyValueList(m) => BinValue::KeyValueList(clone_entries(self, m)),
        }
    }
}

fn clone_entries(value: &BinValue, m: &Vec<(BinKey, BinValue)>) -> (r: Vec<(BinKey, BinValue)>)
    requires
        *value == BinValue::HashMap(*m) || *value == BinValue::OrderedMap(*m) || *value == BinValue::KeyValueList(*m),
    ensures
        bin_entries(r@) == bin_entries(m@),
    decreases value, 0nat,
{
    let mut out: Vec<(BinKey, BinValue)> = Vec::new();
    let mut i: usize = 0;
    while i < m.len()
        invariant
            *value == BinValue::HashMap(*m) || *value == BinValue::OrderedMap(*m) || *value == BinValue::KeyValueList(*m),
            i <= m@.len(),
            bin_entries(out@) == bin_entries(m@.take(i as int)),
        decreases m@.len() - i,
    {
        proof {
            if *value == BinValue::HashMap(*m) {
                assert(decreases_to!(*value => (*value)->HashMap_0));
            } else if *value == BinValue::OrderedMap(*m) {
                assert(decreases_to!(*value => (*value)->OrderedMap_0));
            } else {
                assert(decreases_to!(*value => (*value)->KeyValueList_0));
            }
            assert(decreases_to!(*m => m@));
            assert(decreases_to!(m@ => m@[i as int]));
            assert(decreases_to!(m@[i as int] => m@[i as int].1));
        }
        let k = m[i].0.deep_clone();
        let c = m[i].1.deep_clone();
        let ghost before = out@;
        out.push((k, c));
        proof {
            assert(out@.drop_last() =~= before);
            assert(m@.take(i + 1).drop_last() =~= m@.take(i as int));
        }
        i = i + 1;
    }
    assert(m@.take(m@.len() as int) =~= m@);
    out
}

/// The value of the last entry whose key reads `k`.
pub open spec fn last_with_key(es: Seq<(BinKeyView, BinView)>, k: Seq<char>) -> Option<BinView>
    decreases es.len(),
{
    if es.len() == 0 {
        None
    } else if key_text(es.last().0) == k {
        Some(es.last().1)
    } else {
        last_with_key(es.drop_last(), k)
    }
}

/// The entries of a map value, when the value is a map.
pub open spec fn map_entries(v: BinView) -> Option<Seq<(BinKeyView, BinView)>> {
    match v {
        BinView::HashMap(es) => Some(es),
        BinView::OrderedMap(es) => Some(es),
        BinView::KeyValueList(es) => Some(es),
        _ => None,
    }
}

/// `m` maps each key text of `es` to the value of the last entry with that text.
pub open spec fn is_text_keyed(m: StrMap<BinValue>, es: Seq<(BinKeyView, BinView)>) -> bool {
    &&& m.unique_keys()
    &&& forall|k: Seq<char>| #[trigger] m.as_map().contains_key(k) <==> last_with_key(es, k) is Some
    &&& forall|k: Seq<char>| #[trigger] m.as_map().contains_key(k) ==> Some(m.as_map()[k]@) == last_with_key(es, k)
}

/// Map entries keyed by their keys' texts, in the order in which each text
/// first occurs, each with the value of the last entry of that text.
pub open spec fn text_keyed(es: Seq<(BinKeyView, BinView)>) -> Seq<(Seq<char>, BinView)>
    decreases es.len(),
{
    if es.len() == 0 {
        seq![]
    } else {
        keyed_insert(text_keyed(es.drop_last()), key_text(es.last().0), es.last().1)
    }
}

/// A map value keyed by its keys' texts; `None` for a value that is not a map.
pub fn value_as_map(value: &BinValue) -> (r: Option<StrMap<BinValue>>)
    ensures
        match map_entries(value@) {
            Some(es) => r matches Some(m) && is_text_keyed(m, es) && m.pairs() == text_keyed(es),
            None => r is None,
        },
{
    let entries: &Vec<(BinKey, BinValue)> = match value {
        BinValue::HashMap(m) => m,
        BinValue::OrderedMap(m) => m,
        BinValue::KeyValueList(m) => m,
        _ => {
            return None;
        },
    };
    let ghost es = bin_entries(entries@);
    assert(map_entries(value@) == Some(es));
    let mut out: StrMap<BinValue> = StrMap::new();
    let mut i: usize = 0;
    proof {
        lemma_bin_entries_index(entries@);
        assert(es.take(0) =~= Seq::<(BinKeyView, BinView)>::empty());
    }
    while i < entries.len()
        invariant
            i <= entries@.len(),
            es == bin_entries(entries@),
            es.len() == entries@.len(),
            forall|j: int| 0 <= j < entries@.len() ==> #[trigger] es[j] == (entries@[j].0@, entries@[j].1@),
            is_text_keyed(out, es.take(i as int)),
            out.pairs() == text_keyed(es.take(i as int)),
        decreases entries@.len() - i,
    {
        let k = value_key_to_string(&entries[i].0);
        let c = entries[i].1.deep_clone();
        let ghost kk = k@;
        let ghost cv = c@;
        let ghost kg = k;
        let ghost cg = c;
        let ghost old_out = out;
        out.insert(k, c);
        proof {
            StrMap::lemma_insert_pairs(old_out, out, kg, cg);
            assert(es.take(i + 1).drop_last() =~= es.take(i as int));
            let t = es.take(i + 1);
            assert(t.drop_last() =~= es.take(i as int));
            assert(t.last() == es[i as int]);
            assert forall|k2: Seq<char>| #[trigger] out.as_map().contains_key(k2) <==> last_with_key(t, k2) is Some by {
                if k2 != kk {
                    assert(out.as_map().contains_key(k2) == old_out.as_map().contains_key(k2));
                }
            }
            assert forall|k2: Seq<char>| #[trigger] out.as_map().contains_key(k2) implies Some(out.as_map()[k2]@) == last_with_key(t, k2) by {
                if k2 != kk {
                    assert(out.as_map()[k2] == old_out.as_map()[k2]);
                }
            }
        }
        i = i + 1;
    }
    assert(es.take(entries@.len() as int) =~= es);
    Some(out)
}

/// The items of a list value; empty for any other value.
pub fn value_as_list(value: &BinValue) -> (r: Vec<BinValue>)
    ensures
        bin_items(r@) == match value@ {
            BinView::List(items) => items,
            _ => Seq::<BinView>::empty(),
        },
{
    match value {
        BinValue::List(items) => {
            let mut out: Vec<BinValue> = Vec::new();
            let mut i: usize = 0;
            while i < items.len()
                invariant
                    i <= items@.len(),
                    bin_items(out@) == bin_items(items@.take(i as int)),
                decreases items@.len() - i,
            {
                let c = items[i].deep_clone();
                let ghost before = out@;
                out.push(c);
                proof {
                    assert(out@.drop_last() =~= before);
                    assert(items@.take(i + 1).drop_last() =~= items@.take(i as int));
                }
                i = i + 1;
            }
            assert(items@.take(items@.len() as int) =~= items@);
            out
        },
        _ => Vec::new(),
    }
}

/// The text of a string or geo string value.
pub fn value_as_string(value: &BinValue) -> (r: Option<String>)
    ensures
        match value@ {
            BinView::Str(s) => r matches Some(t) && t@ == s,
            BinView::GeoJson(s) => r matches Some(t) && t@ == s,
            _ => r is None,
        },
{
    match value {
        BinValue::Str(s) => Some(s.clone()),
        BinValue::GeoJson(s) => Some(s.clone()),
        _ => None,
    }
}

/// The integer of an integer value.
pub fn value_as_i64(value: &BinValue) -> (r: Option<i64>)
    ensures
        r == match value@ {
            BinView::Int(i) => Some(i),
            _ => None,
        },
{
    match value {
        BinValue::Int(i) => Some(*i),
        _ => None,
    }
}

/// The members made of named record values, in order.
pub open spec fn json_of_named(s: Seq<(String, BinValue)>) -> Seq<(Seq<char>, JsonView)>
    decreases s.len(),
{
    if s.len() == 0 {
        seq![]
    } else {
        member_insert(json_of_named(s.drop_last()), s.last().0@, json_of(s.last().1@))
    }
}

/// The members made of named values, in order.
pub open spec fn json_of_pairs(s: Seq<(Seq<char>, BinView)>) -> Seq<(Seq<char>, JsonView)>
    decreases s.len(),
{
    if s.len() == 0 {
        seq![]
    } else {
        member_insert(json_of_pairs(s.drop_last()), s.last().0, json_of(s.last().1))
    }
}

/// The members of a record depend on its bins' names and value views only.
pub proof fn lemma_json_of_named_pairs(m: StrMap<BinValue>)
    ensures
        json_of_named(m.entries@) == json_of_pairs(m.pairs()),
{
    lemma_json_of_named_prefix(m.entries@);
}

proof fn lemma_json_of_named_prefix(s: Seq<(String, BinValue)>)
    ensures
        json_of_named(s) == json_of_pairs(s.map_values(|e: (String, BinValue)| (e.0@, e.1@))),
    decreases s.len(),
{
    if s.len() > 0 {
        lemma_json_of_named_prefix(s.drop_last());
        assert(s.drop_last().map_values(|e: (String, BinValue)| (e.0@, e.1@))
            =~= s.map_values(|e: (String, BinValue)| (e.0@, e.1@)).drop_last());
    }
}

/// A record's bins as a JSON object, each bin's value made JSON.
pub fn bins_to_json_map(bins: &StrMap<BinValue>) -> (r: StrMap<Json>)
    ensures
        view_entries(r.entries@) == json_of_named(bins.entries@),
        r.unique_keys(),
{
    let mut out: StrMap<Json> = StrMap::new();
    let mut i: usize = 0;
    while i < bins.entries.len()
        invariant
            i <= bins.entries@.len(),
            view_entries(out.entries@) == json_of_named(bins.entries@.take(i as int)),
            out.unique_keys(),
        decreases bins.entries@.len() - i,
    {
        let k = bins.entries[i].0.clone();
        let j = value_to_json(&bins.entries[i].1);
        object_insert(&mut out, k, j);
        proof {
            assert(bins.entries@.take(i + 1).drop_last() =~= bins.entries@.take(i as int));
        }
        i = i + 1;
    }
    assert(bins.entries@.take(bins.entries@.len() as int) =~= bins.entries@);
    out
}

} // verus!
