//! Verified core of a small suite of developer command-line tools.

pub mod text;
pub mod column_spec;
pub mod fw2delim;
pub mod nu;
pub mod uuidgen;
pub mod epochtime;
pub mod parquet_values;
pub mod commands;
