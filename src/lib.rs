//! Parsing and comparing dotted version strings such as `1.2.3` or `0.3.0.0`.
pub mod comp_op;
pub mod version_part;
pub mod version;
