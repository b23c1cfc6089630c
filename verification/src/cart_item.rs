//! Cart line items and their record layout.
use vstd::prelude::*;
use crate::bin_value::{bin_of, bins_to_json_map, json_of_named, json_to_value, BinValue, BinView};
use crate::fields::{opt_text, opt_text_spec, read_opt_text, seq_member, lemma_field_of, field_of, DecodeError};
use crate::json::{view_entries, Json, JsonNumber, JsonView};
use crate::product::{
    bin_pairs, bins_of_members, int_json, json_object_to_bins, opt_put, put_int, put_text, text_json, Product,
};
use crate::strmap::StrMap;

verus! {

#[derive(Debug, PartialEq)]
pub struct CartItem {
    pub product_id: String,
    pub name: Option<String>,
    pub price: i64,
    pub brand_name: Option<String>,
    pub quantity: i32,
    pub image: Option<String>,
    pub user_id: Option<String>,
}

/// The mathematical value of a [`CartItem`].
pub struct CartItemView {
    pub product_id: Seq<char>,
    pub name: Option<Seq<char>>,
    pub price: i64,
    pub brand_name: Option<Seq<char>>,
    pub quantity: i32,
    pub image: Option<Seq<char>>,
    pub user_id: Option<Seq<char>>,
}

impl View for CartItem {
    type V = CartItemView;

    open spec fn view(&self) -> CartItemView {
        CartItemView {
            product_id: self.product_id@,
            name: opt_text(self.name),
            price: self.price,
            brand_name: opt_text(self.brand_name),
            quantity: self.quantity,
            image: opt_text(self.image),
            user_id: opt_text(self.user_id),
        }
    }
}

/// The members of a cart item's JSON object, set in field order; an
/// optional field without a value is left out.
pub open spec fn cart_item_members(c: CartItemView) -> Seq<(Seq<char>, JsonView)> {
    let es = Seq::<(Seq<char>, JsonView)>::empty();
    let es = opt_put(es, "productId"@, Some(JsonView::Str(c.product_id)));
    let es = opt_put(es, "name"@, text_json(c.name));
    let es = opt_put(es, "price"@, Some(JsonView::Number(JsonNumber::Int(c.price))));
    let es = opt_put(es, "brandName"@, text_json(c.brand_name));
    let es = opt_put(es, "quantity"@, Some(JsonView::Number(JsonNumber::Int(c.quantity as i64))));
    let es = opt_put(es, "image"@, text_json(c.image));
    let es = opt_put(es, "userId"@, text_json(c.user_id));
    es
}

/// A required text field.
pub open spec fn req_text_spec(f: Option<JsonView>) -> Result<Seq<char>, ()> {
    match f {
        Some(JsonView::Str(s)) => Ok(s),
        _ => Err(()),
    }
}

/// An integer field that is 0 when missing.
pub open spec fn price_spec(f: Option<JsonView>) -> Result<i64, ()> {
    match f {
        None => Ok(0),
        Some(JsonView::Number(JsonNumber::Int(i))) => Ok(i),
        Some(_) => Err(()),
    }
}

/// The quantity of an item when none is given.
pub fn default_quantity() -> (r: i32)
    ensures
        r == 1,
{
    1
}

/// A 32-bit quantity that is 1 when missing.
pub open spec fn quantity_spec(f: Option<JsonView>) -> Result<i32, ()> {
    match f {
        None => Ok(1),
        Some(JsonView::Number(JsonNumber::Int(i))) => if i32::MIN <= i <= i32::MAX { Ok(i as i32) } else { Err(()) },
        Some(_) => Err(()),
    }
}

/// The cart item a JSON object with the members `es` decodes to.
pub open spec fn decode_cart_item(es: Seq<(Seq<char>, JsonView)>) -> Result<CartItemView, ()> {
    if req_text_spec(seq_member(es, "productId"@)) is Ok
        && opt_text_spec(seq_member(es, "name"@)) is Ok
        && price_spec(seq_member(es, "price"@)) is Ok
        && opt_text_spec(seq_member(es, "brandName"@)) is Ok
        && quantity_spec(seq_member(es, "quantity"@)) is Ok
        && opt_text_spec(seq_member(es, "image"@)) is Ok
        && opt_text_spec(seq_member(es, "userId"@)) is Ok {
        Ok(CartItemView {
            product_id: req_text_spec(seq_member(es, "productId"@))->Ok_0,
            name: opt_text_spec(seq_member(es, "name"@))->Ok_0,
            price: price_spec(seq_member(es, "price"@))->Ok_0,
            brand_name: opt_text_spec(seq_member(es, "brandName"@))->Ok_0,
            quantity: quantity_spec(seq_member(es, "quantity"@))->Ok_0,
            image: opt_text_spec(seq_member(es, "image"@))->Ok_0,
            user_id: opt_text_spec(seq_member(es, "userId"@))->Ok_0,
        })
    } else {
        Err(())
    }
}

/// The field a cart item object fails to decode at: the first field, in
/// field order, that is missing without a default or has the wrong type.
pub open spec fn cart_item_error_field(es: Seq<(Seq<char>, JsonView)>) -> Seq<char> {
    if req_text_spec(seq_member(es, "productId"@)) is Err {
        "productId"@
    } else if opt_text_spec(seq_member(es, "name"@)) is Err {
        "name"@
    } else if price_spec(seq_member(es, "price"@)) is Err {
        "price"@
    } else if opt_text_spec(seq_member(es, "brandName"@)) is Err {
        "brandName"@
    } else if quantity_spec(seq_member(es, "quantity"@)) is Err {
        "quantity"@
    } else if opt_text_spec(seq_member(es, "image"@)) is Err {
        "image"@
    } else if opt_text_spec(seq_member(es, "userId"@)) is Err {
        "userId"@
    } else {
        Seq::<char>::empty()
    }
}

/// The cart item a user gets for `quantity` of `product`.
pub open spec fn item_for_product(user_id: Seq<char>, quantity: i32, image: Option<Seq<char>>, p: crate::product::ProductView) -> CartItemView {
    CartItemView {
        product_id: match p.id { Some(s) => s, None => Seq::<char>::empty() },
        name: p.name,
        price: match p.price { Some(v) => v, None => 0 },
        brand_name: p.brand_name,
        quantity: quantity,
        image: image,
        user_id: Some(user_id),
    }
}

/// The item made for a product carries the product's own fields: its id
/// (empty when it has none), its name, its brand and its price (0 when it
/// has none), with the quantity, image and user it was made for.
pub proof fn lemma_item_carries_product_fields(
    user_id: Seq<char>,
    quantity: i32,
    image: Option<Seq<char>>,
    p: crate::product::ProductView,
)
    ensures
        ({
            let c = item_for_product(user_id, quantity, image, p);
            &&& c.product_id == match p.id {
                Some(id) => id,
                None => Seq::<char>::empty(),
            }
            &&& c.name == p.name
            &&& c.brand_name == p.brand_name
            &&& c.price == match p.price {
                Some(v) => v,
                None => 0i64,
            }
            &&& c.quantity == quantity
            &&& c.image == image
            &&& c.user_id == Some(user_id)
        }),
{
}

fn clone_opt(s: &Option<String>) -> (r: Option<String>)
    ensures
        opt_text(r) == opt_text(*s),
{
    match s {
        Some(t) => Some(t.clone()),
        None => None,
    }
}

fn read_product_id(m: &StrMap<Json>) -> (r: Result<String, DecodeError>)
    ensures
        match req_text_spec(field_of(*m, "productId"@)) {
            Ok(s) => r matches Ok(v) && v@ == s,
            Err(_) => r matches Err(e) && e.field() == "productId"@
                && (e is MissingField <==> field_of(*m, "productId"@) is None),
        },
{
    proof {
        lemma_field_of(*m, "productId"@);
    }
    match m.get("productId") {
        Some(Json::Str(s)) => Ok(s.clone()),
        Some(_) => Err(DecodeError::InvalidField(String::from_str("productId"))),
        None => Err(DecodeError::MissingField(String::from_str("productId"))),
    }
}

fn read_price(m: &StrMap<Json>) -> (r: Result<i64, DecodeError>)
    ensures
        match price_spec(field_of(*m, "price"@)) {
            Ok(v) => r == Ok::<i64, DecodeError>(v),
            Err(_) => r matches Err(e) && e is InvalidField && e.field() == "price"@,
        },
{
    proof {
        lemma_field_of(*m, "price"@);
    }
    match m.get("price") {
        None => Ok(0),
        Some(Json::Number(JsonNumber::Int(i))) => Ok(*i),
        Some(_) => Err(DecodeError::InvalidField(String::from_str("price"))),
    }
}

fn read_quantity(m: &StrMap<Json>) -> (r: Result<i32, DecodeError>)
    ensures
        match quantity_spec(field_of(*m, "quantity"@)) {
            Ok(v) => r == Ok::<i32, DecodeError>(v),
            Err(_) => r matches Err(e) && e is InvalidField && e.field() == "quantity"@,
        },
{
    proof {
        lemma_field_of(*m, "quantity"@);
    }
    match m.get("quantity") {
        None => Ok(default_quantity()),
        Some(Json::Number(JsonNumber::Int(i))) => {
            if *i >= -2147483648 && *i <= 2147483647 {
                Ok(*i as i32)
            } else {
                Err(DecodeError::InvalidField(String::from_str("quantity")))
            }
        },
        Some(_) => Err(DecodeError::InvalidField(String::from_str("quantity"))),
    }
}

impl CartItem {
    /// The item for `quantity` of `product` in `user_id`'s cart, showing `image`.
    pub fn from_product(user_id: &str, quantity: i32, image: Option<String>, product: &Product) -> (r: CartItem)
        ensures
            r@ == item_for_product(user_id@, quantity, opt_text(image), product@),
            r.product_id@ == match product@.id {
                Some(id) => id,
                None => Seq::<char>::empty(),
            },
            r@.name == product@.name,
            r@.brand_name == product@.brand_name,
            r.price == match product.price {
                Some(v) => v,
                None => 0i64,
            },
            r.quantity == quantity,
            r@.image == opt_text(image),
            r@.user_id == Some(user_id@),
    {
        proof {
            lemma_item_carries_product_fields(user_id@, quantity, opt_text(image), product@);
        }
        let product_id = match &product.id {
            Some(s) => s.clone(),
            None => String::new(),
        };
        let price = match product.price {
            Some(v) => v,
            None => 0,
        };
        CartItem {
            product_id,
            name: clone_opt(&product.name),
            price,
            brand_name: clone_opt(&product.brand_name),
            quantity,
            image,
            user_id: Some(String::from_str(user_id)),
        }
    }

    /// A copy of this item.
    pub fn deep_clone(&self) -> (r: CartItem)
        ensures
            r@ == self@,
    {
        CartItem {
            product_id: self.product_id.clone(),
            name: clone_opt(&self.name),
            price: self.price,
            brand_name: clone_opt(&self.brand_name),
            quantity: self.quantity,
            image: clone_opt(&self.image),
            user_id: clone_opt(&self.user_id),
        }
    }

    /// The item's JSON object.
    pub fn to_json(&self) -> (r: StrMap<Json>)
        ensures
            view_entries(r.entries@) == cart_item_members(self@),
            r.unique_keys(),
    {
        let mut m: StrMap<Json> = StrMap::new();
        let ghost es = Seq::<(Seq<char>, JsonView)>::empty();
        assert(view_entries(m.entries@) =~= es);
        let pid = Some(self.product_id.clone());
        let Ghost(es) = put_text(&mut m, "productId", &pid, Ghost(es));
        let Ghost(es) = put_text(&mut m, "name", &self.name, Ghost(es));
        let Ghost(es) = put_int(&mut m, "price", &Some(self.price), Ghost(es));
        let Ghost(es) = put_text(&mut m, "brandName", &self.brand_name, Ghost(es));
        let Ghost(es) = put_int(&mut m, "quantity", &Some(self.quantity as i64), Ghost(es));
        let Ghost(es) = put_text(&mut m, "image", &self.image, Ghost(es));
        let Ghost(es) = put_text(&mut m, "userId", &self.user_id, Ghost(es));
        m
    }

    /// Decodes a cart item from its JSON object.
    pub fn from_json(m: &StrMap<Json>) -> (r: Result<CartItem, DecodeError>)
        ensures
            match decode_cart_item(view_entries(m.entries@)) {
                Ok(cv) => r matches Ok(c) && c@ == cv,
                Err(_) => r matches Err(e) && e.field() == cart_item_error_field(view_entries(m.entries@))
                    && (e is MissingField <==> seq_member(view_entries(m.entries@), "productId"@) is None),
            },
    {
        let product_id = read_product_id(m)?;
        let name = read_opt_text(m, "name")?;
        let price = read_price(m)?;
        let brand_name = read_opt_text(m, "brandName")?;
        let quantity = read_quantity(m)?;
        let image = read_opt_text(m, "image")?;
        let user_id = read_opt_text(m, "userId")?;
        Ok(CartItem { product_id, name, price, brand_name, quantity, image, user_id })
    }

    /// The item's bins: one per member of its JSON object.
    pub fn to_bins(&self) -> (r: StrMap<BinValue>)
        ensures
            bin_pairs(r) == bins_of_members(cart_item_members(self@)),
            r.unique_keys(),
    {
        let m = self.to_json();
        json_object_to_bins(&m)
    }

    /// The item as one record value: a map of its JSON object's members.
    pub fn to_value(&self) -> (r: BinValue)
        ensures
            r@ == bin_of(JsonView::Object(cart_item_members(self@))),
    {
        let m = self.to_json();
        json_to_value(&Json::Object(m))
    }

    /// Decodes a cart item from a record's bins.
    pub fn from_bins(bins: &StrMap<BinValue>) -> (r: Result<CartItem, DecodeError>)
        ensures
            match decode_cart_item(json_of_named(bins.entries@)) {
                Ok(cv) => r matches Ok(c) && c@ == cv,
                Err(_) => r matches Err(e) && e.field() == cart_item_error_field(json_of_named(bins.entries@))
                    && (e is MissingField <==> seq_member(json_of_named(bins.entries@), "productId"@) is None),
            },
    {
        let m = bins_to_json_map(bins);
        CartItem::from_json(&m)
    }
}

} // verus!
