pub mod apple_json_formatter;
pub mod catalog;
pub mod codec;
pub mod convert;
pub mod copy;
pub mod error;
pub mod json;
pub mod languages;
pub mod laws;
pub mod manager;
pub mod model;
pub mod normalize;
pub mod normalize_laws;
pub mod ordered_map;
pub mod parse;
pub mod progress;
pub mod records;
pub mod round_trip;
pub mod store;
pub mod text;
pub mod update;
pub mod valid;
pub mod value;
