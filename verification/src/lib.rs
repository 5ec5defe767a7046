//! Core of an offline AWS log analyser.
pub mod detect;
pub mod gzip;
pub mod json;
pub mod laws;
pub mod logging;
pub mod mapping;
pub mod model;
pub mod ndjson;
pub mod number;
pub mod parse;
pub mod paths;
pub mod payload;
pub mod preview;
pub mod report;
pub mod results;
pub mod rule;
pub mod scan;
pub mod shell;
pub mod split;
pub mod stamp;
pub mod store;
pub mod text;
pub mod textmap;
