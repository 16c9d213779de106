//! Garmin IMG map compiler: the binary subfile encoders, the subdivision
//! splitter, the routing graph helpers and the geometry filters, each with
//! its contract.
pub mod bytes;
pub mod dem;
pub mod error;
pub mod img;
pub mod parser;
pub mod routing;
pub mod strings;
pub mod text;

