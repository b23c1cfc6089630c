//! What the store holds of a cart, and what each planned write does to it.
//!
//! A cart record's `items` bin is a map from product id to the item's map
//! value. The writes the cart requests plan are map operations on that bin;
//! `applied` says what each leaves in the map, as the database documents its
//! map operations. The laws below show that each planned write turns the
//! stored form of the cart that was read into the stored form of the cart
//! the request answers with, so that the next read gives that cart back,
//! and that two additions made at once both count.
use vstd::prelude::*;
use crate::bin_value::{bin_of, bin_of_entries, text_keyed, BinKeyView, BinView};
use crate::cart::{keyed_by_product, lemma_stored_lines_read_back, lines_of, stored_items};
use crate::cart_item::{cart_item_members, CartItemView};
use crate::cart_ops::{
    add_outcome, lemma_set_quantity_then_find, new_item, puts_item, with_quantity, AddPlan, CartWrite,
    WriteGuard, WriteOutcome,
};
use crate::product::Product;
use crate::json::{JsonNumber, JsonView};
use crate::product::{opt_put, text_json};
use crate::roundtrip::{lemma_member_insert_new, name_absent};
use crate::strmap::{
    keyed_get, keyed_has, keyed_index, keyed_insert, keyed_remove, keyed_unique, lemma_keyed_index,
    lemma_keyed_index_match, lemma_keyed_index_of, lemma_keyed_insert_get, lemma_keyed_remove_get,
};

verus! {

/// The map value a cart item is stored as.
pub open spec fn stored_item(c: CartItemView) -> BinView {
    bin_of(JsonView::Object(cart_item_members(c)))
}

/// `v` with its entry `k` set to `x`, when `v` is a map.
pub open spec fn with_member(v: BinView, k: Seq<char>, x: BinView) -> BinView {
    match v {
        BinView::HashMap(es) => BinView::HashMap(keyed_insert(es, BinKeyView::Str(k), x)),
        _ => v,
    }
}

/// The integer in entry `k` of the map `v`; 0 when there is none.
pub open spec fn int_member(v: BinView, k: Seq<char>) -> int {
    match v {
        BinView::HashMap(es) => match keyed_get(es, BinKeyView::Str(k)) {
            Some(BinView::Int(x)) => x as int,
            _ => 0,
        },
        _ => 0,
    }
}

/// The items map `es` after the store applies `w`: a put sets the entry of
/// its key; an increment or a put in the context of an item's key changes
/// that item's `quantity` entry (when the key has no entry, nothing is
/// written); a remove drops the key's entry; a clear empties the map.
pub open spec fn applied(es: Seq<(BinKeyView, BinView)>, w: CartWrite) -> Seq<(BinKeyView, BinView)> {
    match w {
        CartWrite::PutItem { product_id, item } => keyed_insert(es, BinKeyView::Str(product_id@), item@),
        CartWrite::IncrementQuantity { product_id, by } => match keyed_get(es, BinKeyView::Str(product_id@)) {
            Some(v) => keyed_insert(es, BinKeyView::Str(product_id@),
                with_member(v, "quantity"@, BinView::Int((int_member(v, "quantity"@) + by) as i64))),
            None => es,
        },
        CartWrite::SetQuantity { product_id, quantity } => match keyed_get(es, BinKeyView::Str(product_id@)) {
            Some(v) => keyed_insert(es, BinKeyView::Str(product_id@), with_member(v, "quantity"@, BinView::Int(quantity))),
            None => es,
        },
        CartWrite::RemoveItem { product_id } => keyed_remove(es, BinKeyView::Str(product_id@)),
        CartWrite::Clear => seq![],
    }
}

/// `c` with quantity `q`.
pub open spec fn with_item_quantity(c: CartItemView, q: i32) -> CartItemView {
    CartItemView { quantity: q, ..c }
}

proof fn lemma_stored_index(ls: Seq<(Seq<char>, CartItemView)>, k: Seq<char>)
    ensures
        stored_items(ls).len() == ls.len(),
        forall|i: int| 0 <= i < ls.len() ==> #[trigger] stored_items(ls)[i] == (BinKeyView::Str(ls[i].0), stored_item(ls[i].1)),
        keyed_has(stored_items(ls), BinKeyView::Str(k)) == keyed_has(ls, k),
        keyed_has(ls, k) ==> keyed_index(stored_items(ls), BinKeyView::Str(k)) == keyed_index(ls, k),
{
    let st = stored_items(ls);
    assert forall|i: int| 0 <= i < st.len() implies (#[trigger] st[i].0 == BinKeyView::Str(k) <==> ls[i].0 == k) by {}
    lemma_keyed_index_match(st, BinKeyView::Str(k), ls, k);
}

proof fn lemma_bin_of_entries_index(es: Seq<(Seq<char>, JsonView)>)
    ensures
        bin_of_entries(es).len() == es.len(),
        forall|i: int| 0 <= i < es.len() ==> #[trigger] bin_of_entries(es)[i] == (BinKeyView::Str(es[i].0), bin_of(es[i].1)),
    decreases es.len(),
{
    if es.len() > 0 {
        lemma_bin_of_entries_index(es.drop_last());
    }
}

proof fn lemma_opt_put_push(es: Seq<(Seq<char>, JsonView)>, k: Seq<char>, o: Option<JsonView>)
    requires
        name_absent(es, k),
    ensures
        opt_put(es, k, o) == match o {
            Some(v) => es.push((k, v)),
            None => es,
        },
        forall|k3: Seq<char>| k3 != k && name_absent(es, k3) ==> #[trigger] name_absent(opt_put(es, k, o), k3),
{
    if let Some(v) = o {
        lemma_member_insert_new(es, k, v);
        assert forall|k3: Seq<char>| k3 != k && name_absent(es, k3) implies #[trigger] name_absent(opt_put(es, k, o), k3) by {
            let r = es.push((k, v));
            assert forall|i: int| 0 <= i < r.len() implies #[trigger] r[i].0 != k3 by {
                if i < es.len() {
                    assert(r[i] == es[i]);
                }
            }
        }
    }
}

/// The `quantity` member of a stored item has a place of its own: changing
/// the quantity changes that member and nothing else.
proof fn lemma_item_quantity_slot(c: CartItemView, n: i32)
    ensures
        keyed_has(cart_item_members(c), "quantity"@),
        keyed_unique(cart_item_members(c)),
        cart_item_members(c)[keyed_index(cart_item_members(c), "quantity"@)].1
            == JsonView::Number(JsonNumber::Int(c.quantity as i64)),
        cart_item_members(with_item_quantity(c, n)) == cart_item_members(c).update(
            keyed_index(cart_item_members(c), "quantity"@),
            ("quantity"@, JsonView::Number(JsonNumber::Int(n as i64))),
        ),
{
    let names = seq!["productId"@, "name"@, "price"@, "brandName"@, "quantity"@, "image"@, "userId"@];
    assert forall|a: int, b: int| 0 <= a < b < 7 implies #[trigger] names[a] != #[trigger] names[b] by {
        reveal_strlit("productId");
        reveal_strlit("name");
        reveal_strlit("price");
        reveal_strlit("brandName");
        reveal_strlit("quantity");
        reveal_strlit("image");
        reveal_strlit("userId");
        if names[a].len() == names[b].len() {
            assert(names[a][0] != names[b][0]);
        }
    }
    assert(names[1] != names[0]);
    assert(names[2] != names[0] && names[2] != names[1]);
    assert(names[3] != names[0] && names[3] != names[1] && names[3] != names[2]);
    assert(names[4] != names[0] && names[4] != names[1] && names[4] != names[2] && names[4] != names[3]);
    assert(names[5] != names[0] && names[5] != names[1] && names[5] != names[2] && names[5] != names[3] && names[5] != names[4]);
    assert(names[6] != names[0] && names[6] != names[1] && names[6] != names[2] && names[6] != names[3] && names[6] != names[4] && names[6] != names[5]);
    let e0 = Seq::<(Seq<char>, JsonView)>::empty();
    assert forall|a: int| 0 <= a < 7 implies #[trigger] name_absent(e0, names[a]) by {}
    let e1 = opt_put(e0, names[0], Some(JsonView::Str(c.product_id)));
    let e2 = opt_put(e1, names[1], text_json(c.name));
    let e3 = opt_put(e2, names[2], Some(JsonView::Number(JsonNumber::Int(c.price))));
    let e4 = opt_put(e3, names[3], text_json(c.brand_name));
    let q = Some(JsonView::Number(JsonNumber::Int(c.quantity as i64)));
    let qn = Some(JsonView::Number(JsonNumber::Int(n as i64)));
    let e5 = opt_put(e4, names[4], q);
    let f5 = opt_put(e4, names[4], qn);
    let e6 = opt_put(e5, names[5], text_json(c.image));
    let f6 = opt_put(f5, names[5], text_json(c.image));
    let e7 = opt_put(e6, names[6], text_json(c.user_id));
    let f7 = opt_put(f6, names[6], text_json(c.user_id));
    lemma_opt_put_push(e0, names[0], Some(JsonView::Str(c.product_id)));
    lemma_opt_put_push(e1, names[1], text_json(c.name));
    lemma_opt_put_push(e2, names[2], Some(JsonView::Number(JsonNumber::Int(c.price))));
    lemma_opt_put_push(e3, names[3], text_json(c.brand_name));
    lemma_opt_put_push(e4, names[4], q);
    lemma_opt_put_push(e4, names[4], qn);
    lemma_opt_put_push(e5, names[5], text_json(c.image));
    lemma_opt_put_push(f5, names[5], text_json(c.image));
    lemma_opt_put_push(e6, names[6], text_json(c.user_id));
    lemma_opt_put_push(f6, names[6], text_json(c.user_id));
    assert(e7 == cart_item_members(c));
    assert(f7 == cart_item_members(with_item_quantity(c, n)));
    let iq = e4.len() as int;
    assert(e7[iq].0 == names[4]);
    assert forall|j: int| 0 <= j < iq implies #[trigger] e7[j].0 != names[4] by {
        assert(e7[j] == e4[j]);
    }
    lemma_keyed_index_of(e7, names[4], iq);
    assert(f7 =~= e7.update(iq, ("quantity"@, JsonView::Number(JsonNumber::Int(n as i64)))));
    assert(keyed_unique(e7)) by {
        assert forall|a: int, b: int| 0 <= a < e7.len() && 0 <= b < e7.len() && a != b
            implies #[trigger] e7[a].0 != #[trigger] e7[b].0 by {
            let x = if a < b { a } else { b };
            let y = if a < b { b } else { a };
            assert(e7[x].0 != e7[y].0) by {
                if y < e1.len() {
                } else if y < e2.len() {
                    assert(name_absent(e1, names[1]));
                    assert(e7[x] == e1[x]);
                } else if y < e3.len() {
                    assert(name_absent(e2, names[2]));
                    assert(e7[x] == e2[x]);
                } else if y < e4.len() {
                    assert(name_absent(e3, names[3]));
                    assert(e7[x] == e3[x]);
                } else if y < e5.len() {
                    assert(name_absent(e4, names[4]));
                    assert(e7[x] == e4[x]);
                } else if y < e6.len() {
                    assert(name_absent(e5, names[5]));
                    assert(e7[x] == e5[x]);
                } else {
                    assert(name_absent(e6, names[6]));
                    assert(e7[x] == e6[x]);
                }
            }
        }
    }
}

/// The stored item's `quantity` entry reads as the item's quantity, and
/// setting it stores the item with the new quantity.
proof fn lemma_stored_quantity(c: CartItemView, n: i32)
    ensures
        int_member(stored_item(c), "quantity"@) == c.quantity,
        with_member(stored_item(c), "quantity"@, BinView::Int(n as i64)) == stored_item(with_item_quantity(c, n)),
{
    let es = cart_item_members(c);
    lemma_item_quantity_slot(c, n);
    lemma_bin_of_entries_index(es);
    lemma_bin_of_entries_index(cart_item_members(with_item_quantity(c, n)));
    let b = bin_of_entries(es);
    assert forall|i: int| 0 <= i < b.len() implies (#[trigger] b[i].0 == BinKeyView::Str("quantity"@) <==> es[i].0 == "quantity"@) by {}
    lemma_keyed_index_match(b, BinKeyView::Str("quantity"@), es, "quantity"@);
    lemma_keyed_index(es, "quantity"@);
    let iq = keyed_index(es, "quantity"@);
    assert(b[iq].1 == BinView::Int(c.quantity as i64));
    assert(keyed_insert(b, BinKeyView::Str("quantity"@), BinView::Int(n as i64))
        =~= bin_of_entries(cart_item_members(with_item_quantity(c, n))));
}

/// Storing an item under its product id stores the cart with that item put in.
pub proof fn lemma_put_item_stored(ls: Seq<(Seq<char>, CartItemView)>, item: CartItemView, w: CartWrite)
    requires
        keyed_by_product(ls),
        w matches CartWrite::PutItem { product_id: p, item: v } && p@ == item.product_id && v@ == stored_item(item),
    ensures
        applied(stored_items(ls), w) == stored_items(keyed_insert(ls, item.product_id, item)),
        keyed_by_product(keyed_insert(ls, item.product_id, item)),
{
    let k = item.product_id;
    lemma_stored_index(ls, k);
    let r = keyed_insert(ls, k, item);
    lemma_stored_index(r, k);
    lemma_keyed_insert_get(ls, k, item, k);
    if keyed_has(ls, k) {
        lemma_keyed_index(ls, k);
        assert(stored_items(r) =~= stored_items(ls).update(keyed_index(ls, k), (BinKeyView::Str(k), stored_item(item))));
    } else {
        assert(stored_items(r) =~= stored_items(ls).push((BinKeyView::Str(k), stored_item(item))));
    }
    assert forall|i: int| 0 <= i < r.len() implies #[trigger] r[i].0 == r[i].1.product_id by {
        if keyed_has(ls, k) {
            lemma_keyed_index(ls, k);
            if i != keyed_index(ls, k) {
                assert(r[i] == ls[i]);
            }
        } else if i < ls.len() {
            assert(r[i] == ls[i]);
        }
    }
}

proof fn lemma_quantity_stored(ls: Seq<(Seq<char>, CartItemView)>, k: Seq<char>, n: i32)
    requires
        keyed_by_product(ls),
        keyed_get(ls, k) is Some,
    ensures
        keyed_get(stored_items(ls), BinKeyView::Str(k)) == Some(stored_item(keyed_get(ls, k)->Some_0)),
        keyed_insert(stored_items(ls), BinKeyView::Str(k), stored_item(with_item_quantity(keyed_get(ls, k)->Some_0, n)))
            == stored_items(with_quantity(ls, k, n)),
        keyed_by_product(with_quantity(ls, k, n)),
{
    lemma_stored_index(ls, k);
    lemma_keyed_index(ls, k);
    let i = keyed_index(ls, k);
    let c = ls[i].1;
    let r = with_quantity(ls, k, n);
    assert(r == ls.update(i, (k, with_item_quantity(c, n))));
    assert(stored_items(r) =~= stored_items(ls).update(i, (BinKeyView::Str(k), stored_item(with_item_quantity(c, n)))));
    assert(keyed_by_product(r)) by {
        assert forall|a: int, b: int| 0 <= a < r.len() && 0 <= b < r.len() && a != b
            implies #[trigger] r[a].0 != #[trigger] r[b].0 by {
            assert(r[a].0 == ls[a].0 && r[b].0 == ls[b].0);
        }
        assert forall|j: int| 0 <= j < r.len() implies #[trigger] r[j].0 == r[j].1.product_id by {
            assert(ls[j].0 == ls[j].1.product_id);
        }
    }
}

/// Raising an item's quantity by `by` stores the cart with the raised
/// quantity.
pub proof fn lemma_increment_stored(ls: Seq<(Seq<char>, CartItemView)>, k: Seq<char>, by: i64, w: CartWrite)
    requires
        keyed_by_product(ls),
        keyed_get(ls, k) is Some,
        i32::MIN <= keyed_get(ls, k)->Some_0.quantity + by <= i32::MAX,
        w matches CartWrite::IncrementQuantity { product_id: p, by: b } && p@ == k && b == by,
    ensures
        applied(stored_items(ls), w) == stored_items(with_quantity(ls, k, (keyed_get(ls, k)->Some_0.quantity + by) as i32)),
        keyed_by_product(with_quantity(ls, k, (keyed_get(ls, k)->Some_0.quantity + by) as i32)),
{
    let c = keyed_get(ls, k)->Some_0;
    let n = (c.quantity + by) as i32;
    lemma_quantity_stored(ls, k, n);
    lemma_stored_quantity(c, n);
    assert(((int_member(stored_item(c), "quantity"@) + by) as i64) == n as i64);
}

/// Setting an item's quantity stores the cart with that quantity.
pub proof fn lemma_set_quantity_stored(ls: Seq<(Seq<char>, CartItemView)>, k: Seq<char>, n: i32, w: CartWrite)
    requires
        keyed_by_product(ls),
        keyed_get(ls, k) is Some,
        w matches CartWrite::SetQuantity { product_id: p, quantity: q } && p@ == k && q == n as i64,
    ensures
        applied(stored_items(ls), w) == stored_items(with_quantity(ls, k, n)),
        keyed_by_product(with_quantity(ls, k, n)),
{
    let c = keyed_get(ls, k)->Some_0;
    lemma_quantity_stored(ls, k, n);
    lemma_stored_quantity(c, n);
}

/// Removing an item stores the cart without it.
pub proof fn lemma_remove_stored(ls: Seq<(Seq<char>, CartItemView)>, k: Seq<char>, w: CartWrite)
    requires
        keyed_by_product(ls),
        w matches CartWrite::RemoveItem { product_id: p } && p@ == k,
    ensures
        applied(stored_items(ls), w) == stored_items(keyed_remove(ls, k)),
        keyed_by_product(keyed_remove(ls, k)),
{
    lemma_stored_index(ls, k);
    let r = keyed_remove(ls, k);
    lemma_keyed_remove_get(ls, k, k);
    if keyed_has(ls, k) {
        lemma_keyed_index(ls, k);
        let i = keyed_index(ls, k);
        assert(stored_items(r) =~= stored_items(ls).remove(i));
        assert forall|j: int| 0 <= j < r.len() implies #[trigger] r[j].0 == r[j].1.product_id by {
            let j2 = if j < i { j } else { j + 1 };
            assert(r[j] == ls[j2]);
        }
    }
}

/// Emptying the items map stores the empty cart.
pub proof fn lemma_clear_stored(ls: Seq<(Seq<char>, CartItemView)>)
    ensures
        applied(stored_items(ls), CartWrite::Clear) == stored_items(Seq::<(Seq<char>, CartItemView)>::empty()),
{
    assert(stored_items(Seq::<(Seq<char>, CartItemView)>::empty()) =~= Seq::<(BinKeyView, BinView)>::empty());
}

/// An addition to a cart stored as this library stores carts (each item
/// under its product id): the write `plan_add_to_cart` plans leaves in the
/// store exactly the cart the request answers with, so the next read gives
/// that cart back.
pub proof fn lemma_add_plan_reads_back(
    ls: Seq<(Seq<char>, CartItemView)>,
    product_id: Seq<char>,
    quantity: i32,
    item: CartItemView,
    plan: AddPlan,
)
    requires
        keyed_by_product(ls),
        match keyed_get(ls, product_id) {
            Some(c) => i32::MIN <= c.quantity + quantity <= i32::MAX
                && plan.cart.lines() == with_quantity(ls, product_id, (c.quantity + quantity) as i32)
                && (plan.write matches CartWrite::IncrementQuantity { product_id: p, by }
                    && p@ == product_id && by == quantity as i64),
            None => item.product_id == product_id
                && puts_item(plan, product_id, item, keyed_insert(ls, product_id, item)),
        },
    ensures
        lines_of(text_keyed(applied(stored_items(ls), plan.write))) == plan.cart.lines(),
{
    match keyed_get(ls, product_id) {
        Some(c) => {
            lemma_increment_stored(ls, product_id, quantity as i64, plan.write);
            lemma_stored_lines_read_back(plan.cart.lines());
        },
        None => {
            lemma_put_item_stored(ls, item, plan.write);
            lemma_stored_lines_read_back(plan.cart.lines());
        },
    }
}

/// An update of a cart stored as this library stores carts: the write
/// `plan_update_cart_item` plans, if any, leaves in the store exactly the
/// cart the request answers with.
pub proof fn lemma_update_plan_reads_back(
    ls: Seq<(Seq<char>, CartItemView)>,
    product_id: Seq<char>,
    quantity: i32,
    lines: Seq<(Seq<char>, CartItemView)>,
    write: Option<CartWrite>,
)
    requires
        keyed_by_product(ls),
        quantity <= 0 ==> lines == keyed_remove(ls, product_id)
            && (write matches Some(CartWrite::RemoveItem { product_id: p }) && p@ == product_id),
        quantity > 0 && keyed_get(ls, product_id) is Some ==> lines == with_quantity(ls, product_id, quantity)
            && (write matches Some(CartWrite::SetQuantity { product_id: p, quantity: q }) && p@ == product_id
                && q == quantity as i64),
        quantity > 0 && keyed_get(ls, product_id) is None ==> lines == ls && write is None,
    ensures
        lines_of(text_keyed(match write {
            Some(w) => applied(stored_items(ls), w),
            None => stored_items(ls),
        })) == lines,
{
    if quantity <= 0 {
        lemma_remove_stored(ls, product_id, write->Some_0);
    } else if keyed_get(ls, product_id) is Some {
        lemma_set_quantity_stored(ls, product_id, quantity, write->Some_0);
    }
    lemma_stored_lines_read_back(lines);
}

/// A guarded write to an existing cart record, whose items map is `es` and
/// whose generation is `generation`: the items map and generation the record
/// is left with, and how the write ended, as the database documents its write
/// policies. A write that expects a generation is made only where the record
/// is still at that generation, and then leaves the record at the new
/// generation `next`; where the record is at another generation it is
/// refused as a mismatch and changes nothing. A create-only write fails on a
/// record that exists, and changes nothing.
pub open spec fn guarded_write(
    es: Seq<(BinKeyView, BinView)>,
    generation: u32,
    guard: WriteGuard,
    w: CartWrite,
    next: u32,
) -> (Seq<(BinKeyView, BinView)>, u32, WriteOutcome) {
    match guard {
        WriteGuard::ExpectGeneration(g) => if g == generation {
            (applied(es, w), next, WriteOutcome::Written)
        } else {
            (es, generation, WriteOutcome::GenerationMismatch)
        },
        WriteGuard::CreateOnly => (es, generation, WriteOutcome::Failed),
    }
}

/// Two requests add the same product to one stored cart at once, `first`
/// adding `q1` and `second` adding `q2`: both read the record at
/// `generation` and plan. The store makes the first write, which leaves the
/// record at generation `next`. The second write, still guarded by the
/// generation read, is refused as a mismatch and changes nothing, and
/// `add_write_step` answers that with a retry. The retry reads the record
/// the first write left, plans anew (`retry`), and is written. No update is
/// lost: the item then holds the quantity it had (none when it was not in
/// the cart) plus both amounts, every other item is as it was, and each
/// request answers with the cart that the store held after its write.
pub proof fn lemma_concurrent_adds_keep_both(
    ls: Seq<(Seq<char>, CartItemView)>,
    generation: u32,
    next: u32,
    last: u32,
    user_id: Seq<char>,
    product: Product,
    product_id: Seq<char>,
    q1: i32,
    q2: i32,
    first: AddPlan,
    second: AddPlan,
    retry: AddPlan,
)
    requires
        keyed_by_product(ls),
        next != generation,
        add_outcome(ls, Some(generation), product_id, q1, new_item(user_id, q1, product), Ok(first)),
        add_outcome(ls, Some(generation), product_id, q2, new_item(user_id, q2, product), Ok(second)),
        add_outcome(
            lines_of(text_keyed(applied(stored_items(ls), first.write))),
            Some(next),
            product_id,
            q2,
            new_item(user_id, q2, product),
            Ok(retry),
        ),
    ensures
        ({
            let w1 = guarded_write(stored_items(ls), generation, first.guard, first.write, next);
            let w2 = guarded_write(w1.0, w1.1, second.guard, second.write, last);
            let w3 = guarded_write(w1.0, w1.1, retry.guard, retry.write, last);
            let held = match keyed_get(ls, product_id) {
                Some(c) => c.quantity as int,
                None => 0,
            };
            &&& w1.2 == WriteOutcome::Written
            &&& w1.0 == applied(stored_items(ls), first.write)
            &&& w1.1 == next
            &&& lines_of(text_keyed(w1.0)) == first.cart.lines()
            &&& w2 == (w1.0, w1.1, WriteOutcome::GenerationMismatch)
            &&& w3.2 == WriteOutcome::Written
            &&& lines_of(text_keyed(w3.0)) == retry.cart.lines()
            &&& keyed_get(lines_of(text_keyed(w3.0)), product_id) matches Some(c) && c.quantity == held + q1 + q2
            &&& forall|k: Seq<char>| k != product_id
                ==> #[trigger] keyed_get(lines_of(text_keyed(w3.0)), k) == keyed_get(ls, k)
        }),
{
    let item1 = new_item(user_id, q1, product);
    let ls1 = first.cart.lines();
    match keyed_get(ls, product_id) {
        Some(c) => {
            lemma_increment_stored(ls, product_id, q1 as i64, first.write);
            lemma_set_quantity_then_find(ls, product_id, (c.quantity + q1) as i32, product_id);
        },
        None => {
            lemma_put_item_stored(ls, item1, first.write);
            lemma_keyed_insert_get(ls, product_id, item1, product_id);
        },
    }
    lemma_stored_lines_read_back(ls1);
    let c1 = keyed_get(ls1, product_id)->Some_0;
    let n = (c1.quantity + q2) as i32;
    lemma_increment_stored(ls1, product_id, q2 as i64, retry.write);
    lemma_set_quantity_then_find(ls1, product_id, n, product_id);
    lemma_stored_lines_read_back(retry.cart.lines());
    assert forall|k: Seq<char>| k != product_id
        implies #[trigger] keyed_get(lines_of(text_keyed(applied(stored_items(ls1), retry.write))), k) == keyed_get(ls, k) by {
        lemma_set_quantity_then_find(ls1, product_id, n, k);
        match keyed_get(ls, product_id) {
            Some(c) => {
                lemma_set_quantity_then_find(ls, product_id, (c.quantity + q1) as i32, k);
            },
            None => {
                lemma_keyed_insert_get(ls, product_id, item1, k);
            },
        }
    }
}

} // verus!
