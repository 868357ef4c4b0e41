//! Reading and writing of the tab-delimited genomic-variant text format:
//! a typed model of header lines and data lines, with verified parse and
//! format functions for each.
pub mod error;
pub mod text;
pub mod ordered_map;
pub mod payload;
pub mod body;
pub mod header;
pub mod header_line;
pub mod header_round_trip;
pub mod parser;
pub mod compression;
