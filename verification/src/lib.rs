//! Core of a product-tracking service: exact fixed-point money, a rate
//! limiter's decision rules, an owned document tree, and the extraction of
//! product and offer records from it. Fetching and parsing of raw markup
//! stay outside; everything here works on plain values.

pub mod api;
pub mod collect;
pub mod condition;
pub mod dom;
pub mod forms;
pub mod offer;
pub mod price;
pub mod product;
pub mod rate_limit;
pub mod text;
