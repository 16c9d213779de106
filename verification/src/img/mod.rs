pub mod area;
pub mod assembler;
pub mod labelenc;
pub mod common_header;
pub mod coord;
pub mod nod;
pub mod overview_features;
pub mod overview_map;
pub mod net;
pub mod lbl;
pub mod polyline;
pub mod polygon;
pub mod subdivision;
pub mod splitter;
pub mod filters;
pub mod mps;
pub mod gmp;
pub mod tdb;
pub mod dem;
pub mod filesystem;
pub mod writer;
