//! Small helpers over product values.
use vstd::prelude::*;
use crate::json::Json;

verus! {

/// The text of `value`, or empty text when there is none.
pub fn as_non_null_string(value: Option<&str>) -> (r: String)
    ensures
        r@ == match value {
            Some(s) => s@,
            None => Seq::<char>::empty(),
        },
{
    match value {
        Some(s) => String::from_str(s),
        None => String::new(),
    }
}

/// The image address at `<view>.resolutions.125X161` under `root`.
pub open spec fn image_at(root: Json, view_name: Seq<char>) -> Option<Seq<char>> {
    match root.get_spec(view_name) {
        Some(a) => match a.get_spec("resolutions"@) {
            Some(b) => match b.get_spec("125X161"@) {
                Some(c) => c.str_spec(),
                None => None,
            },
            None => None,
        },
        None => None,
    }
}

/// The thumbnail address a product's images give: the `search` view's, else
/// the `front` view's.
pub open spec fn product_image_spec(images: Option<Json>) -> Option<Seq<char>> {
    match images {
        Some(root) => match image_at(root, "search"@) {
            Some(s) => Some(s),
            None => image_at(root, "front"@),
        },
        None => None,
    }
}

fn image_from_path(root: &Json, view_name: &str) -> (r: Option<String>)
    ensures
        match r {
            Some(s) => image_at(*root, view_name@) == Some(s@),
            None => image_at(*root, view_name@) is None,
        },
{
    let a = root.get(view_name)?;
    let b = a.get("resolutions")?;
    let c = b.get("125X161")?;
    let s = c.as_str()?;
    Some(String::from_str(s))
}

/// The thumbnail address of a product's images, if they name one.
pub fn extract_product_image(images: Option<&Json>) -> (r: Option<String>)
    ensures
        match r {
            Some(s) => product_image_spec(match images { Some(j) => Some(*j), None => None }) == Some(s@),
            None => product_image_spec(match images { Some(j) => Some(*j), None => None }) is None,
        },
{
    match images {
        Some(root) => match image_from_path(root, "search") {
            Some(s) => Some(s),
            None => image_from_path(root, "front"),
        },
        None => None,
    }
}

} // verus!
