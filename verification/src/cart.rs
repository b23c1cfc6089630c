//! A user's shopping cart: its line items keyed by product id.
use vstd::prelude::*;
use crate::bin_value::{bin_of, json_of_named, BinKeyView, json_of_pairs, lemma_json_of_named_pairs, map_entries, text_keyed, value_as_map, BinValue, BinView};
use crate::cart_item::cart_item_members;
use crate::json::{JsonNumber, JsonView};
use crate::product::{bin_pairs, bins_of_members, opt_put, text_json};
use crate::fields::seq_member;
use crate::roundtrip::{lemma_members_back, lemma_object_value_back, lemma_opt_put_new, name_absent, plain, plain_members};
use crate::cart_item::{decode_cart_item, CartItem, CartItemView};
use crate::fields::DecodeError;
use crate::strmap::{keyed_get, keyed_has, keyed_index, keyed_insert, keyed_remove, keyed_unique, lemma_keyed_insert_get, lemma_keyed_remove_get, StrMap};

verus! {

/// The line items of a cart, each under the product id it was added with.
#[derive(Debug)]
pub struct Cart {
    pub items: StrMap<CartItem>,
}

/// The cart item a record value holds: a map that decodes as a cart item.
pub open spec fn item_of_value(v: BinView) -> Option<CartItemView> {
    match map_entries(v) {
        Some(es) => match decode_cart_item(json_of_pairs(text_keyed(es))) {
            Ok(c) => Some(c),
            Err(_) => None,
        },
        None => None,
    }
}

/// The lines of a cart read from the entries of its items map, in order:
/// each entry that holds a cart item puts it under its product id; any
/// other entry is passed over.
pub open spec fn lines_of(ps: Seq<(Seq<char>, BinView)>) -> Seq<(Seq<char>, CartItemView)>
    decreases ps.len(),
{
    if ps.len() == 0 {
        seq![]
    } else {
        let acc = lines_of(ps.drop_last());
        match item_of_value(ps.last().1) {
            Some(c) => keyed_insert(acc, c.product_id, c),
            None => acc,
        }
    }
}

/// The lines of the cart stored in a record with the bins `bins`: those of
/// its `items` bin when that bin holds a map, and none otherwise.
pub open spec fn cart_lines_of_bins(bins: Seq<(Seq<char>, BinView)>) -> Seq<(Seq<char>, CartItemView)> {
    match keyed_get(bins, "items"@) {
        Some(v) => match map_entries(v) {
            Some(es) => lines_of(text_keyed(es)),
            None => seq![],
        },
        None => seq![],
    }
}

/// The sum of the quantities of `ls`.
pub open spec fn quantity_total(ls: Seq<(Seq<char>, CartItemView)>) -> int
    decreases ls.len(),
{
    if ls.len() == 0 {
        0
    } else {
        quantity_total(ls.drop_last()) + ls.last().1.quantity
    }
}

impl Cart {
    /// The lines of the cart: product id and item, in the order in which the
    /// ids were first added.
    pub open spec fn lines(self) -> Seq<(Seq<char>, CartItemView)> {
        self.items.pairs()
    }

    /// No product id is held twice.
    pub open spec fn wf(self) -> bool {
        self.items.unique_keys()
    }

    /// An empty cart.
    pub fn new() -> (c: Cart)
        ensures
            c.lines() == Seq::<(Seq<char>, CartItemView)>::empty(),
            c.wf(),
    {
        let c = Cart { items: StrMap::new() };
        assert(c.lines() =~= Seq::<(Seq<char>, CartItemView)>::empty());
        c
    }

    /// The items of the cart, in line order.
    pub fn items_list(&self) -> (r: Vec<&CartItem>)
        ensures
            r@.len() == self.lines().len(),
            forall|i: int| 0 <= i < r@.len() ==> #[trigger] r@[i]@ == self.lines()[i].1,
    {
        let mut out: Vec<&CartItem> = Vec::new();
        let n = self.items.entries.len();
        let mut i: usize = 0;
        while i < n
            invariant
                n == self.items.entries@.len(),
                i <= n,
                out@.len() == i,
                forall|j: int| 0 <= j < i ==> #[trigger] out@[j] == self.items.entries@[j].1,
            decreases n - i,
        {
            out.push(&self.items.entries[i].1);
            i = i + 1;
        }
        out
    }

    /// The number of units in the cart: the sum of the items' quantities.
    pub fn item_count(&self) -> (r: i64)
        requires
            i64::MIN <= quantity_total(self.lines()) <= i64::MAX,
        ensures
            r == quantity_total(self.lines()),
    {
        let ghost ls = self.lines();
        let n = self.items.entries.len();
        let mut total: i128 = 0;
        let mut i: usize = 0;
        while i < n
            invariant
                n == self.items.entries@.len(),
                ls == self.lines(),
                ls.len() == n,
                i <= n,
                total == quantity_total(ls.take(i as int)),
                -(i as int) * 0x8000_0000 <= total <= (i as int) * 0x8000_0000,
            decreases n - i,
        {
            proof {
                assert(ls.take(i + 1).drop_last() =~= ls.take(i as int));
                assert(ls[i as int].1.quantity == self.items.entries@[i as int].1.quantity);
            }
            total = total + self.items.entries[i].1.quantity as i128;
            i = i + 1;
        }
        assert(ls.take(n as int) =~= ls);
        total as i64
    }

    /// The item for `product_id`, if the cart holds one.
    pub fn find_item(&self, product_id: &str) -> (r: Option<&CartItem>)
        ensures
            match keyed_get(self.lines(), product_id@) {
                Some(c) => r matches Some(x) && x@ == c,
                None => r is None,
            },
    {
        proof {
            self.items.lemma_get_pairs(product_id@);
        }
        self.items.get(product_id)
    }

    /// The item for `product_id`, to be changed in place.
    pub fn find_item_mut(&mut self, product_id: &str) -> (r: Option<&mut CartItem>)
        ensures
            match keyed_get(old(self).lines(), product_id@) {
                Some(c) => r matches Some(x) && x@ == c
                    && final(self).items.entries@ == old(self).items.entries@.update(
                        old(self).items.first_index(product_id@),
                        (old(self).items.entries@[old(self).items.first_index(product_id@)].0, *final(x))),
                None => r is None && *final(self) == *old(self),
            },
    {
        proof {
            self.items.lemma_get_pairs(product_id@);
        }
        self.items.get_mut(product_id)
    }

    /// Puts `item` in the cart under its product id, in place of any item
    /// already there.
    pub fn add(&mut self, item: CartItem)
        ensures
            final(self).lines() == keyed_insert(old(self).lines(), item.product_id@, item@),
            old(self).wf() ==> final(self).wf(),
    {
        let ghost old_items = self.items;
        let key = item.product_id.clone();
        let ghost kg = key;
        let ghost ig = item;
        self.items.insert(key, item);
        proof {
            StrMap::lemma_insert_pairs(old_items, self.items, kg, ig);
        }
    }

    /// Takes the item for `product_id` out of the cart.
    pub fn remove(&mut self, product_id: &str) -> (r: Option<CartItem>)
        ensures
            match keyed_get(old(self).lines(), product_id@) {
                Some(c) => r matches Some(x) && x@ == c,
                None => r is None,
            },
            final(self).lines() == keyed_remove(old(self).lines(), product_id@),
            old(self).wf() ==> final(self).wf(),
    {
        let ghost old_items = self.items;
        proof {
            old_items.lemma_get_pairs(product_id@);
        }
        let r = self.items.remove(product_id);
        proof {
            StrMap::lemma_remove_pairs(old_items, self.items, product_id@);
        }
        r
    }

    /// The cart stored in a record with the bins `bins`. Entries of the
    /// `items` map that do not hold a cart item are passed over.
    pub fn from_bins(bins: &StrMap<BinValue>) -> (r: Result<Cart, DecodeError>)
        ensures
            r matches Ok(c) && c.lines() == cart_lines_of_bins(bins.pairs()) && c.wf(),
    {
        let mut cart = Cart::new();
        proof {
            bins.lemma_get_pairs("items"@);
        }
        let items_value = match bins.get("items") {
            Some(v) => v,
            None => {
                return Ok(cart);
            },
        };
        let items_map = match value_as_map(items_value) {
            Some(m) => m,
            None => {
                return Ok(cart);
            },
        };
        let ghost ps = items_map.pairs();
        let n = items_map.entries.len();
        let mut i: usize = 0;
        proof {
            items_map.lemma_pairs_index(""@);
            assert(ps.take(0) =~= Seq::<(Seq<char>, BinView)>::empty());
        }
        while i < n
            invariant
                n == items_map.entries@.len(),
                ps == items_map.pairs(),
                ps.len() == n,
                forall|j: int| 0 <= j < n ==> #[trigger] ps[j] == (items_map.entries@[j].0@, items_map.entries@[j].1@),
                i <= n,
                cart.lines() == lines_of(ps.take(i as int)),
                cart.wf(),
            decreases n - i,
        {
            proof {
                assert(ps.take(i + 1).drop_last() =~= ps.take(i as int));
                assert(ps.take(i + 1).last() == ps[i as int]);
            }
            match value_as_map(&items_map.entries[i].1) {
                Some(item_map) => {
                    proof {
                        lemma_json_of_named_pairs(item_map);
                    }
                    match CartItem::from_bins(&item_map) {
                        Ok(item) => {
                            cart.add(item);
                        },
                        Err(_) => {},
                    }
                },
                None => {},
            }
            i = i + 1;
        }
        assert(ps.take(n as int) =~= ps);
        Ok(cart)
    }
}

impl Default for Cart {
    fn default() -> (c: Cart)
        ensures
            c.lines() == Seq::<(Seq<char>, CartItemView)>::empty(),
            c.wf(),
    {
        Cart::new()
    }
}

/// The members of a stored cart item: plain, and each name reads as the
/// item's field.
#[verifier::rlimit(60)]
proof fn lemma_item_members(c: CartItemView)
    ensures
        plain_members(cart_item_members(c)),
        seq_member(cart_item_members(c), "productId"@) == Some(JsonView::Str(c.product_id)),
        seq_member(cart_item_members(c), "name"@) == text_json(c.name),
        seq_member(cart_item_members(c), "price"@) == Some(JsonView::Number(JsonNumber::Int(c.price))),
        seq_member(cart_item_members(c), "brandName"@) == text_json(c.brand_name),
        seq_member(cart_item_members(c), "quantity"@) == Some(JsonView::Number(JsonNumber::Int(c.quantity as i64))),
        seq_member(cart_item_members(c), "image"@) == text_json(c.image),
        seq_member(cart_item_members(c), "userId"@) == text_json(c.user_id),
{
    let names = seq!["productId"@, "name"@, "price"@, "brandName"@, "quantity"@, "image"@, "userId"@];
    assert forall|a: int, b: int| 0 <= a < b < 7 implies #[trigger] names[a] != #[trigger] names[b] by {
        reveal_strlit("productId");
        reveal_strlit("name");
        reveal_strlit("price");
        reveal_strlit("brandName");
        reveal_strlit("quantity");
        reveal_strlit("image");
        reveal_strlit("userId");
        if names[a].len() == names[b].len() {
            assert(names[a][0] != names[b][0]);
        }
    }
    let e0 = Seq::<(Seq<char>, JsonView)>::empty();
    assert(plain_members(e0));
    let o1 = Some(JsonView::Str(c.product_id));
    let o2 = text_json(c.name);
    let o3 = Some(JsonView::Number(JsonNumber::Int(c.price)));
    let o4 = text_json(c.brand_name);
    let o5 = Some(JsonView::Number(JsonNumber::Int(c.quantity as i64)));
    let o6 = text_json(c.image);
    let o7 = text_json(c.user_id);
    let e1 = opt_put(e0, names[0], o1);
    let e2 = opt_put(e1, names[1], o2);
    let e3 = opt_put(e2, names[2], o3);
    let e4 = opt_put(e3, names[3], o4);
    let e5 = opt_put(e4, names[4], o5);
    let e6 = opt_put(e5, names[5], o6);
    let e7 = opt_put(e6, names[6], o7);
    assert(e7 == cart_item_members(c));
    assert forall|a: int| 0 <= a < 7 implies #[trigger] name_absent(e0, names[a]) by {}
    assert(names[1] != names[0]);
    assert(names[2] != names[0] && names[2] != names[1]);
    assert(names[3] != names[0] && names[3] != names[1] && names[3] != names[2]);
    assert(names[4] != names[0] && names[4] != names[1] && names[4] != names[2] && names[4] != names[3]);
    assert(names[5] != names[0] && names[5] != names[1] && names[5] != names[2] && names[5] != names[3] && names[5] != names[4]);
    assert(names[6] != names[0] && names[6] != names[1] && names[6] != names[2] && names[6] != names[3] && names[6] != names[4] && names[6] != names[5]);
    lemma_opt_put_new(e0, names[0], o1);
    lemma_opt_put_new(e1, names[1], o2);
    lemma_opt_put_new(e2, names[2], o3);
    lemma_opt_put_new(e3, names[3], o4);
    lemma_opt_put_new(e4, names[4], o5);
    lemma_opt_put_new(e5, names[5], o6);
    lemma_opt_put_new(e6, names[6], o7);
}

/// A cart item stored as a map value (as `CartItem::to_value` makes it)
/// reads back as the same item.
pub proof fn lemma_stored_item_reads_back(c: CartItemView)
    ensures
        item_of_value(bin_of(JsonView::Object(cart_item_members(c)))) == Some(c),
{
    let es = cart_item_members(c);
    lemma_item_members(c);
    lemma_object_value_back(es);
    assert(((c.quantity as i64) as i32) == c.quantity);
    assert(decode_cart_item(es) == Ok::<CartItemView, ()>(c));
}

/// An item changed in place through `find_item_mut`: the cart then finds
/// the changed item under its product id, finds every other item as before,
/// and still holds each product id once.
pub proof fn lemma_changed_in_place(old_c: Cart, new_c: Cart, k: Seq<char>, x: CartItem, k2: Seq<char>)
    requires
        old_c.wf(),
        keyed_get(old_c.lines(), k) is Some,
        new_c.items.entries@ == old_c.items.entries@.update(
            old_c.items.first_index(k),
            (old_c.items.entries@[old_c.items.first_index(k)].0, x),
        ),
    ensures
        keyed_get(new_c.lines(), k2) == (if k2 == k { Some(x@) } else { keyed_get(old_c.lines(), k2) }),
        new_c.wf(),
{
    old_c.items.lemma_pairs_index(k);
    old_c.items.lemma_first_exists(k);
    assert(new_c.lines() =~= keyed_insert(old_c.lines(), k, x@));
    lemma_keyed_insert_get(old_c.lines(), k, x@, k2);
    assert forall|a: int, b: int| 0 <= a < new_c.items.entries@.len() && 0 <= b < new_c.items.entries@.len() && a != b
        implies #[trigger] new_c.items.key_at(a) != #[trigger] new_c.items.key_at(b) by {
        assert(new_c.items.key_at(a) == old_c.items.key_at(a));
        assert(new_c.items.key_at(b) == old_c.items.key_at(b));
    }
}

/// After `add(item)` the cart's line for the item's product id is the item,
/// and every other line reads as before.
pub proof fn lemma_add_then_find(c: Cart, item: CartItemView, k: Seq<char>)
    ensures
        keyed_get(keyed_insert(c.lines(), item.product_id, item), k)
            == (if k == item.product_id { Some(item) } else { keyed_get(c.lines(), k) }),
{
    lemma_keyed_insert_get(c.lines(), item.product_id, item, k);
}

/// After `remove(id)` the cart holds no line for `id`, and every other line
/// reads as before.
pub proof fn lemma_remove_then_find(c: Cart, id: Seq<char>, k: Seq<char>)
    requires
        c.wf(),
    ensures
        keyed_get(keyed_remove(c.lines(), id), k) == (if k == id { None } else { keyed_get(c.lines(), k) }),
{
    c.items.lemma_unique_pairs();
    lemma_keyed_remove_get(c.lines(), id, k);
}

/// Adding an item for a product the cart does not hold, then removing that
/// product, gives back the lines the cart had.
pub proof fn lemma_add_then_remove(c: Cart, item: CartItemView)
    requires
        keyed_get(c.lines(), item.product_id) is None,
    ensures
        keyed_remove(keyed_insert(c.lines(), item.product_id, item), item.product_id) == c.lines(),
{
    let ls = c.lines();
    let k = item.product_id;
    assert(!keyed_has(ls, k));
    let r = ls.push((k, item));
    assert(keyed_insert(ls, k, item) == r);
    assert(r[ls.len() as int].0 == k);
    assert(keyed_has(r, k));
    let i = keyed_index(r, k);
    assert(0 <= i < r.len() && r[i].0 == k);
    if i < ls.len() {
        assert(r[i] == ls[i]);
        assert(keyed_has(ls, k));
    }
    assert(r.remove(i) =~= ls);
}

/// Adding an item for a product the cart does not hold adds its quantity
/// to the cart's count of units.
pub proof fn lemma_add_counts(c: Cart, item: CartItemView)
    requires
        keyed_get(c.lines(), item.product_id) is None,
    ensures
        quantity_total(keyed_insert(c.lines(), item.product_id, item)) == quantity_total(c.lines()) + item.quantity,
{
    let ls = c.lines();
    assert(keyed_insert(ls, item.product_id, item) == ls.push((item.product_id, item)));
    assert(ls.push((item.product_id, item)).drop_last() =~= ls);
}

/// The items map of a cart written line by line, each item under its key.
pub open spec fn stored_items(ls: Seq<(Seq<char>, CartItemView)>) -> Seq<(BinKeyView, BinView)> {
    ls.map_values(|l: (Seq<char>, CartItemView)| (BinKeyView::Str(l.0), bin_of(JsonView::Object(cart_item_members(l.1)))))
}

/// Each line of `ls` is keyed by its item's product id, and no id occurs twice.
pub open spec fn keyed_by_product(ls: Seq<(Seq<char>, CartItemView)>) -> bool {
    &&& keyed_unique(ls)
    &&& forall|i: int| 0 <= i < ls.len() ==> #[trigger] ls[i].0 == ls[i].1.product_id
}

proof fn lemma_stored_keyed(ls: Seq<(Seq<char>, CartItemView)>)
    requires
        keyed_unique(ls),
    ensures
        text_keyed(stored_items(ls)) == ls.map_values(|l: (Seq<char>, CartItemView)| (l.0, bin_of(JsonView::Object(cart_item_members(l.1))))),
    decreases ls.len(),
{
    if ls.len() > 0 {
        let init = ls.drop_last();
        assert(keyed_unique(init)) by {
            assert forall|i: int, j: int| 0 <= i < init.len() && 0 <= j < init.len() && i != j
                implies #[trigger] init[i].0 != #[trigger] init[j].0 by {
                assert(ls[i].0 != ls[j].0);
            }
        }
        lemma_stored_keyed(init);
        assert(stored_items(ls).drop_last() =~= stored_items(init));
        let prev = init.map_values(|l: (Seq<char>, CartItemView)| (l.0, bin_of(JsonView::Object(cart_item_members(l.1)))));
        assert(!keyed_has(prev, ls.last().0)) by {
            if keyed_has(prev, ls.last().0) {
                let i = choose|i: int| 0 <= i < prev.len() && #[trigger] prev[i].0 == ls.last().0;
                assert(ls[i].0 != ls[ls.len() - 1].0);
            }
        }
        assert(ls.map_values(|l: (Seq<char>, CartItemView)| (l.0, bin_of(JsonView::Object(cart_item_members(l.1)))))
            =~= prev.push((ls.last().0, bin_of(JsonView::Object(cart_item_members(ls.last().1))))));
    }
}

proof fn lemma_stored_lines(ls: Seq<(Seq<char>, CartItemView)>)
    requires
        keyed_by_product(ls),
    ensures
        lines_of(ls.map_values(|l: (Seq<char>, CartItemView)| (l.0, bin_of(JsonView::Object(cart_item_members(l.1)))))) == ls,
    decreases ls.len(),
{
    if ls.len() > 0 {
        let init = ls.drop_last();
        assert(keyed_by_product(init)) by {
            assert forall|i: int, j: int| 0 <= i < init.len() && 0 <= j < init.len() && i != j
                implies #[trigger] init[i].0 != #[trigger] init[j].0 by {
                assert(ls[i].0 != ls[j].0);
            }
            assert forall|i: int| 0 <= i < init.len() implies #[trigger] init[i].0 == init[i].1.product_id by {
                assert(ls[i].0 == ls[i].1.product_id);
            }
        }
        lemma_stored_lines(init);
        let ps = ls.map_values(|l: (Seq<char>, CartItemView)| (l.0, bin_of(JsonView::Object(cart_item_members(l.1)))));
        assert(ps.drop_last() =~= init.map_values(|l: (Seq<char>, CartItemView)| (l.0, bin_of(JsonView::Object(cart_item_members(l.1))))));
        let last = ls.last();
        lemma_stored_item_reads_back(last.1);
        assert(last.0 == last.1.product_id) by {
            assert(ls[ls.len() - 1].0 == ls[ls.len() - 1].1.product_id);
        }
        assert(!keyed_has(init, last.0)) by {
            if keyed_has(init, last.0) {
                let i = choose|i: int| 0 <= i < init.len() && #[trigger] init[i].0 == last.0;
                assert(ls[i].0 != ls[ls.len() - 1].0);
            }
        }
        assert(init.push(last) =~= ls);
    }
}

/// Lines keyed by their items' product ids, stored each item under its
/// product id, read back as the same lines.
pub proof fn lemma_stored_lines_read_back(ls: Seq<(Seq<char>, CartItemView)>)
    requires
        keyed_by_product(ls),
    ensures
        lines_of(text_keyed(stored_items(ls))) == ls,
{
    lemma_stored_keyed(ls);
    lemma_stored_lines(ls);
}

/// A cart whose lines are keyed by their items' product ids, stored with
/// each item under its product id in the `items` bin, reads back as the
/// same lines.
pub proof fn lemma_stored_cart_reads_back(c: Cart, bins: Seq<(Seq<char>, BinView)>)
    requires
        keyed_by_product(c.lines()),
        keyed_get(bins, "items"@) == Some(BinView::HashMap(stored_items(c.lines()))),
    ensures
        cart_lines_of_bins(bins) == c.lines(),
{
    lemma_stored_keyed(c.lines());
    lemma_stored_lines(c.lines());
}

/// Reading a cart does not depend on the kind of map its `items` bin
/// arrives as: an ordered map or a key-value list holding the entries `es`
/// gives the same lines as a hash map holding them, whatever the record's
/// other bins.
pub proof fn lemma_items_map_kind_irrelevant(bins: Seq<(Seq<char>, BinView)>, es: Seq<(BinKeyView, BinView)>)
    ensures
        cart_lines_of_bins(keyed_insert(bins, "items"@, BinView::OrderedMap(es)))
            == cart_lines_of_bins(keyed_insert(bins, "items"@, BinView::HashMap(es))),
        cart_lines_of_bins(keyed_insert(bins, "items"@, BinView::KeyValueList(es)))
            == cart_lines_of_bins(keyed_insert(bins, "items"@, BinView::HashMap(es))),
{
    lemma_keyed_insert_get(bins, "items"@, BinView::OrderedMap(es), "items"@);
    lemma_keyed_insert_get(bins, "items"@, BinView::KeyValueList(es), "items"@);
    lemma_keyed_insert_get(bins, "items"@, BinView::HashMap(es), "items"@);
}

/// A cart stored with each item under its product id reads back as the same
/// lines whichever kind of map holds its items: hash map, ordered map or
/// key-value list.
pub proof fn lemma_stored_cart_reads_back_any_map(ls: Seq<(Seq<char>, CartItemView)>, bins: Seq<(Seq<char>, BinView)>)
    requires
        keyed_by_product(ls),
    ensures
        cart_lines_of_bins(keyed_insert(bins, "items"@, BinView::HashMap(stored_items(ls)))) == ls,
        cart_lines_of_bins(keyed_insert(bins, "items"@, BinView::OrderedMap(stored_items(ls)))) == ls,
        cart_lines_of_bins(keyed_insert(bins, "items"@, BinView::KeyValueList(stored_items(ls)))) == ls,
{
    lemma_items_map_kind_irrelevant(bins, stored_items(ls));
    lemma_keyed_insert_get(bins, "items"@, BinView::HashMap(stored_items(ls)), "items"@);
    lemma_stored_lines_read_back(ls);
}

/// The bins `CartItem::to_bins` makes of an item are read back by
/// `CartItem::from_bins` as the same item.
pub proof fn lemma_item_bins_read_back(c: CartItemView, bins: StrMap<BinValue>)
    requires
        bin_pairs(bins) == bins_of_members(cart_item_members(c)),
    ensures
        decode_cart_item(json_of_named(bins.entries@)) == Ok::<CartItemView, ()>(c),
{
    lemma_json_of_named_pairs(bins);
    assert(bins.pairs() =~= bin_pairs(bins));
    lemma_item_members(c);
    lemma_members_back(cart_item_members(c));
    assert(((c.quantity as i64) as i32) == c.quantity);
}

} // verus!
