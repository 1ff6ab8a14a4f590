//! Summarises a directory tree: counts files by extension and by sniffed
//! content type, totals their size, and renders the census as text, CSV or
//! JSON. The walk itself and the reading of files are left to the caller,
//! which hands each visited node to `Report::record`.

pub mod counts;
pub mod order;
pub mod render;
pub mod report;
pub mod sniff;
pub mod text;

pub use counts::CountMap;
pub use order::compare_keys;
pub use render::OutputFormat;
pub use report::{Report, ScanError, Visit};
pub use sniff::{content_type, mime_or_default, SNIFF_LIMIT};
pub use text::{decimal_string, escape_json, extension_of, friendly_bytes};
