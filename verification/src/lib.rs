//! Verified core of the retail demo server: the JSON and record-value models,
//! product and cart records, the product-file transformation and the decisions
//! that the database client and the HTTP layer act on.
pub mod strmap;
pub mod text;
pub mod json;
pub mod json_text;
pub mod json_parsing;
pub mod paths;
pub mod bin_value;
pub mod utils;
pub mod fields;
pub mod product;
pub mod cart_item;
pub mod cart;
pub mod cart_ops;
pub mod cart_store;
pub mod config;
pub mod search;
pub mod loading;
pub mod product_file;
pub mod roundtrip;
