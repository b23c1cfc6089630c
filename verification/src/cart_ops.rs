//! What the store is asked to do to a stored cart, and the cart a request
//! answers with.
//!
//! Each request reads the cart record, then writes one change to its items
//! map. The functions here take what the read gave back and decide the
//! answer and the write; the caller performs the read and the write.
use vstd::prelude::*;
use crate::bin_value::{bin_of, BinValue};
use crate::cart::{cart_lines_of_bins, Cart};
use crate::cart_item::{cart_item_members, item_for_product, CartItem, CartItemView};
use crate::json::JsonView;
use crate::product::Product;
use crate::strmap::{keyed_get, keyed_has, keyed_index, keyed_insert, keyed_remove, keyed_unique, StrMap};
use crate::utils::{extract_product_image, product_image_spec};

verus! {

/// A change to the items map of a stored cart.
#[derive(Debug)]
pub enum CartWrite {
    /// Store `item` under `product_id`.
    PutItem { product_id: String, item: BinValue },
    /// Add `by` to the `quantity` member of the item under `product_id`.
    IncrementQuantity { product_id: String, by: i64 },
    /// Set the `quantity` member of the item under `product_id`.
    SetQuantity { product_id: String, quantity: i64 },
    /// Drop the item under `product_id`.
    RemoveItem { product_id: String },
    /// Empty the items map.
    Clear,
}

/// The condition a write is made on.
#[derive(Debug, PartialEq, Eq)]
pub enum WriteGuard {
    /// The record must not exist yet.
    CreateOnly,
    /// The record must still be at this generation.
    ExpectGeneration(u32),
}

/// What adding to a cart writes, and the cart it answers with once written.
#[derive(Debug)]
pub struct AddPlan {
    pub cart: Cart,
    pub guard: WriteGuard,
    pub write: CartWrite,
}

/// Why an addition cannot go on.
#[derive(Debug, PartialEq, Eq)]
pub enum AddFault {
    /// The item's new quantity does not fit in 32 bits.
    QuantityOverflow,
    /// The product's own id is not the id it was asked for, so the new item
    /// is not found under that id.
    ItemNotStored,
}

/// What updating a cart item writes, if anything, and the cart it answers with.
#[derive(Debug)]
pub struct UpdatePlan {
    pub cart: Cart,
    pub write: Option<CartWrite>,
}

/// How a guarded write ended.
#[derive(Debug, PartialEq, Eq)]
pub enum WriteOutcome {
    Written,
    KeyNotFound,
    GenerationMismatch,
    Failed,
}

/// What to do after a guarded write.
#[derive(Debug, PartialEq, Eq)]
pub enum NextStep {
    /// Answer with the planned cart.
    Finish,
    /// Read the record again and plan anew.
    Retry,
    /// Answer with the write's error.
    Fail,
}

/// The item a user gets for `quantity` of `product`, showing the product's thumbnail.
pub open spec fn new_item(user_id: Seq<char>, quantity: i32, product: Product) -> CartItemView {
    item_for_product(user_id, quantity, product_image_spec(product.images), product@)
}

/// The item an addition stores for a product carries the product's own id,
/// name, brand and price (0 when it has none), the quantity added, the
/// product's thumbnail and the user.
pub proof fn lemma_new_item_fields(user_id: Seq<char>, quantity: i32, product: Product)
    ensures
        ({
            let c = new_item(user_id, quantity, product);
            &&& c.product_id == match product@.id {
                Some(id) => id,
                None => Seq::<char>::empty(),
            }
            &&& c.name == product@.name
            &&& c.brand_name == product@.brand_name
            &&& c.price == match product.price {
                Some(v) => v,
                None => 0i64,
            }
            &&& c.quantity == quantity
            &&& c.image == product_image_spec(product.images)
            &&& c.user_id == Some(user_id)
        }),
{
    crate::cart_item::lemma_item_carries_product_fields(user_id, quantity, product_image_spec(product.images), product@);
}

/// `ls` with the quantity of the item under `k` set to `q`.
pub open spec fn with_quantity(ls: Seq<(Seq<char>, CartItemView)>, k: Seq<char>, q: i32) -> Seq<(Seq<char>, CartItemView)> {
    let i = keyed_index(ls, k);
    let c = ls[i].1;
    ls.update(i, (k, CartItemView {
        product_id: c.product_id,
        name: c.name,
        price: c.price,
        brand_name: c.brand_name,
        quantity: q,
        image: c.image,
        user_id: c.user_id,
    }))
}

/// The lines a read cart record holds; none when there is no record.
pub open spec fn stored_lines(existing: Option<&StrMap<BinValue>>) -> Seq<(Seq<char>, CartItemView)> {
    match existing {
        Some(bins) => cart_lines_of_bins(bins.pairs()),
        None => seq![],
    }
}

/// `plan` stores `item` under `product_id` and answers with `lines`.
pub open spec fn puts_item(plan: AddPlan, product_id: Seq<char>, item: CartItemView, lines: Seq<(Seq<char>, CartItemView)>) -> bool {
    &&& plan.cart.lines() == lines
    &&& (plan.write matches CartWrite::PutItem { product_id: p, item: v }
        && p@ == product_id && v@ == bin_of(JsonView::Object(cart_item_members(item))))
}

/// What adding `quantity` of a product to the cart lines `start` gives,
/// where the new item would be `item` and `read_generation` is the
/// generation of the record read (`None` when there was no record).
///
/// An item already in a read record gets its quantity raised, on the
/// condition that the record is still at the generation read, unless the sum
/// leaves 32 bits. Otherwise `item` is stored under `product_id`: in a new
/// record, or on the same condition in the existing one; an item whose own
/// product id is not `product_id` would not be found there, and is refused.
pub open spec fn add_outcome(
    start: Seq<(Seq<char>, CartItemView)>,
    read_generation: Option<u32>,
    product_id: Seq<char>,
    quantity: i32,
    item: CartItemView,
    r: Result<AddPlan, AddFault>,
) -> bool {
    match read_generation {
        Some(generation) if keyed_get(start, product_id) is Some => {
            let c = keyed_get(start, product_id)->Some_0;
            if c.quantity + quantity > i32::MAX || c.quantity + quantity < i32::MIN {
                r == Err::<AddPlan, AddFault>(AddFault::QuantityOverflow)
            } else {
                r matches Ok(plan)
                    && plan.cart.lines() == with_quantity(start, product_id, (c.quantity + quantity) as i32)
                    && plan.guard == WriteGuard::ExpectGeneration(generation)
                    && (plan.write matches CartWrite::IncrementQuantity { product_id: p, by }
                        && p@ == product_id && by == quantity as i64)
            }
        },
        _ => {
            if item.product_id != product_id {
                r == Err::<AddPlan, AddFault>(AddFault::ItemNotStored)
            } else {
                r matches Ok(plan)
                    && puts_item(plan, product_id, item, keyed_insert(start, product_id, item))
                    && plan.guard == match read_generation {
                        Some(generation) => WriteGuard::ExpectGeneration(generation),
                        None => WriteGuard::CreateOnly,
                    }
            }
        },
    }
}

proof fn lemma_set_quantity_lines(old_c: Cart, new_c: Cart, k: Seq<char>, x: CartItem, q: i32)
    requires
        keyed_get(old_c.lines(), k) is Some,
        new_c.items.entries@ == old_c.items.entries@.update(
            old_c.items.first_index(k), (old_c.items.entries@[old_c.items.first_index(k)].0, x)),
        x@ == (CartItemView { quantity: q, ..keyed_get(old_c.lines(), k)->Some_0 }),
    ensures
        new_c.lines() == with_quantity(old_c.lines(), k, q),
{
    old_c.items.lemma_pairs_index(k);
    old_c.items.lemma_first_exists(k);
    let f = old_c.items.first_index(k);
    assert(new_c.lines() =~= with_quantity(old_c.lines(), k, q));
}

/// Plans adding `quantity` of `product` (read under the id `product_id`) to
/// `user_id`'s cart, given the cart record read just before (its bins and
/// generation) if there is one.
///
/// An item already in the cart gets its quantity raised, on the condition
/// that the record is still at the generation read. Otherwise a new item is
/// stored: in a new record, or on the same condition in the existing one.
pub fn plan_add_to_cart(
    user_id: &str,
    product_id: &str,
    quantity: i32,
    product: &Product,
    existing: Option<(&StrMap<BinValue>, u32)>,
) -> (r: Result<AddPlan, AddFault>)
    ensures
        add_outcome(
            stored_lines(match existing { Some((b, _)) => Some(b), None => None }),
            match existing { Some((_, generation)) => Some(generation), None => None },
            product_id@,
            quantity,
            new_item(user_id@, quantity, *product),
            r,
        ),
        r matches Ok(plan) ==> plan.cart.wf(),
{
    let image = extract_product_image(product.images.as_ref());
    let (mut cart, guard) = match existing {
        Some((bins, generation)) => {
            let c = match Cart::from_bins(bins) {
                Ok(c) => c,
                Err(_) => Cart::new(),
            };
            (c, WriteGuard::ExpectGeneration(generation))
        },
        None => (Cart::new(), WriteGuard::CreateOnly),
    };
    let ghost start = cart.lines();
    let held = match existing {
        Some(_) => match cart.find_item(product_id) {
            Some(item) => Some(item.quantity),
            None => None,
        },
        None => None,
    };
    match held {
        Some(q) => {
            let new_q = match q.checked_add(quantity) {
                Some(v) => v,
                None => {
                    return Err(AddFault::QuantityOverflow);
                },
            };
            let ghost old_cart = cart;
            match cart.find_item_mut(product_id) {
                Some(item) => {
                    item.quantity = new_q;
                },
                None => {},
            }
            proof {
                let x = cart.items.entries@[old_cart.items.first_index(product_id@)].1;
                old_cart.items.lemma_pairs_index(product_id@);
                old_cart.items.lemma_first_exists(product_id@);
                assert(cart.items.entries@[old_cart.items.first_index(product_id@)].1 == x);
                assert(x@ == (CartItemView { quantity: new_q, ..keyed_get(old_cart.lines(), product_id@)->Some_0 }));
                lemma_set_quantity_lines(old_cart, cart, product_id@, x, new_q);
                assert(old_cart.items.unique_keys());
                assert forall|a: int, b: int| 0 <= a < cart.items.entries@.len() && 0 <= b < cart.items.entries@.len() && a != b
                    implies #[trigger] cart.items.key_at(a) != #[trigger] cart.items.key_at(b) by {
                    assert(cart.items.key_at(a) == old_cart.items.key_at(a));
                    assert(cart.items.key_at(b) == old_cart.items.key_at(b));
                }
            }
            let write = CartWrite::IncrementQuantity { product_id: String::from_str(product_id), by: quantity as i64 };
            Ok(AddPlan { cart, guard, write })
        },
        None => {
            let item = CartItem::from_product(user_id, quantity, image, product);
            cart.add(item);
            match cart.find_item(product_id) {
                Some(stored) => {
                    let value = stored.to_value();
                    let write = CartWrite::PutItem { product_id: String::from_str(product_id), item: value };
                    proof {
                        crate::strmap::lemma_keyed_insert_get(start, new_item(user_id@, quantity, *product).product_id,
                            new_item(user_id@, quantity, *product), product_id@);
                    }
                    Ok(AddPlan { cart, guard, write })
                },
                None => {
                    proof {
                        crate::strmap::lemma_keyed_insert_get(start, new_item(user_id@, quantity, *product).product_id,
                            new_item(user_id@, quantity, *product), product_id@);
                    }
                    Err(AddFault::ItemNotStored)
                },
            }
        },
    }
}

/// Plans setting the quantity of `product_id` in the cart read as
/// `existing` (`None` when there is no cart record).
///
/// A quantity of zero or less takes the item out, and the store is asked to
/// drop it whether or not the cart held it. A positive quantity is set on an
/// item the cart holds; for an item it does not hold nothing changes.
pub fn plan_update_cart_item(existing: Option<&StrMap<BinValue>>, product_id: &str, quantity: i32) -> (r: UpdatePlan)
    ensures
        r.cart.wf(),
        existing is None ==> r.cart.lines() == Seq::<(Seq<char>, CartItemView)>::empty() && r.write is None,
        existing is Some && quantity <= 0 ==> r.cart.lines() == keyed_remove(stored_lines(existing), product_id@)
            && (r.write matches Some(CartWrite::RemoveItem { product_id: p }) && p@ == product_id@),
        existing is Some && quantity > 0 && keyed_get(stored_lines(existing), product_id@) is Some
            ==> r.cart.lines() == with_quantity(stored_lines(existing), product_id@, quantity)
            && (r.write matches Some(CartWrite::SetQuantity { product_id: p, quantity: q })
                && p@ == product_id@ && q == quantity as i64),
        existing is Some && quantity > 0 && keyed_get(stored_lines(existing), product_id@) is None
            ==> r.cart.lines() == stored_lines(existing) && r.write is None,
{
    let bins = match existing {
        Some(b) => b,
        None => {
            return UpdatePlan { cart: Cart::new(), write: None };
        },
    };
    let mut cart = match Cart::from_bins(bins) {
        Ok(c) => c,
        Err(_) => Cart::new(),
    };
    if quantity <= 0 {
        let _ = cart.remove(product_id);
        let write = CartWrite::RemoveItem { product_id: String::from_str(product_id) };
        return UpdatePlan { cart, write: Some(write) };
    }
    let ghost old_cart = cart;
    let found = match cart.find_item_mut(product_id) {
        Some(item) => {
            item.quantity = quantity;
            true
        },
        None => false,
    };
    if found {
        proof {
            let f = old_cart.items.first_index(product_id@);
            let x = cart.items.entries@[f].1;
            old_cart.items.lemma_pairs_index(product_id@);
            old_cart.items.lemma_first_exists(product_id@);
            lemma_set_quantity_lines(old_cart, cart, product_id@, x, quantity);
            assert forall|a: int, b: int| 0 <= a < cart.items.entries@.len() && 0 <= b < cart.items.entries@.len() && a != b
                implies #[trigger] cart.items.key_at(a) != #[trigger] cart.items.key_at(b) by {
                assert(cart.items.key_at(a) == old_cart.items.key_at(a));
                assert(cart.items.key_at(b) == old_cart.items.key_at(b));
            }
        }
        let write = CartWrite::SetQuantity { product_id: String::from_str(product_id), quantity: quantity as i64 };
        UpdatePlan { cart, write: Some(write) }
    } else {
        UpdatePlan { cart, write: None }
    }
}

/// The error an addition answers with when the store holds no product
/// under `product_id`.
pub fn product_not_found(product_id: &str) -> (r: String)
    ensures
        r@ == "Product not found: "@ + product_id@,
{
    let mut s = String::from_str("Product not found: ");
    s.append(product_id);
    s
}

/// After the guarded write of an addition: answer once it is written, read
/// again and retry when another writer changed the record first, and fail
/// on any other error.
pub fn add_write_step(outcome: WriteOutcome) -> (r: NextStep)
    ensures
        r == match outcome {
            WriteOutcome::Written => NextStep::Finish,
            WriteOutcome::GenerationMismatch => NextStep::Retry,
            _ => NextStep::Fail,
        },
{
    match outcome {
        WriteOutcome::Written => NextStep::Finish,
        WriteOutcome::GenerationMismatch => NextStep::Retry,
        _ => NextStep::Fail,
    }
}

/// Emptying a cart succeeds when the write is made and when there is no
/// cart record to empty.
pub fn clear_write_succeeded(outcome: WriteOutcome) -> (r: bool)
    ensures
        r == (outcome == WriteOutcome::Written || outcome == WriteOutcome::KeyNotFound),
{
    match outcome {
        WriteOutcome::Written => true,
        WriteOutcome::KeyNotFound => true,
        _ => false,
    }
}

/// Plans taking `product_id` out of the cart read as `existing`: an update
/// to quantity zero.
pub fn plan_remove_from_cart(existing: Option<&StrMap<BinValue>>, product_id: &str) -> (r: UpdatePlan)
    ensures
        r.cart.wf(),
        existing is None ==> r.cart.lines() == Seq::<(Seq<char>, CartItemView)>::empty() && r.write is None,
        existing is Some ==> r.cart.lines() == keyed_remove(stored_lines(existing), product_id@)
            && (r.write matches Some(CartWrite::RemoveItem { product_id: p }) && p@ == product_id@),
{
    plan_update_cart_item(existing, product_id, 0)
}

/// After an item's quantity is set, the cart reads that quantity for it and
/// the item is otherwise unchanged; every other line reads as before.
pub proof fn lemma_set_quantity_then_find(ls: Seq<(Seq<char>, CartItemView)>, k: Seq<char>, q: i32, k2: Seq<char>)
    requires
        keyed_unique(ls),
        keyed_get(ls, k) is Some,
    ensures
        keyed_get(with_quantity(ls, k, q), k2) == (if k2 == k {
            Some(CartItemView { quantity: q, ..keyed_get(ls, k)->Some_0 })
        } else {
            keyed_get(ls, k2)
        }),
        keyed_unique(with_quantity(ls, k, q)),
{
    let i = keyed_index(ls, k);
    let r = with_quantity(ls, k, q);
    assert(keyed_has(ls, k));
    let w = choose|j: int| 0 <= j < ls.len() && #[trigger] ls[j].0 == k;
    assert(0 <= i < ls.len() && ls[i].0 == k) by {
        let c = choose|j: int| 0 <= j < ls.len() && ls[j].0 == k && forall|m: int| 0 <= m < j ==> #[trigger] ls[m].0 != k;
        assert(exists|j: int| 0 <= j < ls.len() && ls[j].0 == k && forall|m: int| 0 <= m < j ==> #[trigger] ls[m].0 != k) by {
            if w > 0 {
                assert forall|m: int| 0 <= m < w implies #[trigger] ls[m].0 != k by {
                    assert(ls[m].0 != ls[w].0);
                }
            }
        }
    }
    assert forall|j: int| 0 <= j < r.len() implies #[trigger] r[j].0 == ls[j].0 by {}
    assert(keyed_unique(r)) by {
        assert forall|a: int, b: int| 0 <= a < r.len() && 0 <= b < r.len() && a != b
            implies #[trigger] r[a].0 != #[trigger] r[b].0 by {
            assert(r[a].0 == ls[a].0 && r[b].0 == ls[b].0);
        }
    }
    assert(keyed_has(r, k2) == keyed_has(ls, k2)) by {
        if keyed_has(r, k2) {
            let j = choose|j: int| 0 <= j < r.len() && #[trigger] r[j].0 == k2;
            assert(ls[j].0 == k2);
        }
        if keyed_has(ls, k2) {
            let j = choose|j: int| 0 <= j < ls.len() && #[trigger] ls[j].0 == k2;
            assert(r[j].0 == k2);
        }
    }
    if keyed_has(ls, k2) {
        let a = keyed_index(ls, k2);
        let b = keyed_index(r, k2);
        let j = choose|j: int| 0 <= j < ls.len() && #[trigger] ls[j].0 == k2;
        assert(0 <= a < ls.len() && ls[a].0 == k2) by {
            assert(exists|x: int| 0 <= x < ls.len() && ls[x].0 == k2 && forall|m: int| 0 <= m < x ==> #[trigger] ls[m].0 != k2) by {
                assert forall|m: int| 0 <= m < j implies #[trigger] ls[m].0 != k2 by {
                    assert(ls[m].0 != ls[j].0);
                }
            }
        }
        assert(0 <= b < r.len() && r[b].0 == k2) by {
            assert(exists|x: int| 0 <= x < r.len() && r[x].0 == k2 && forall|m: int| 0 <= m < x ==> #[trigger] r[m].0 != k2) by {
                assert(r[j].0 == k2);
                assert forall|m: int| 0 <= m < j implies #[trigger] r[m].0 != k2 by {
                    assert(ls[m].0 != ls[j].0);
                }
            }
        }
        if a != b {
            assert(ls[a].0 == ls[b].0);
        }
    }
}

} // verus!
