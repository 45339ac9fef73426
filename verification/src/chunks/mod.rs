//! The chunks of a binary XML document and their parsers.

pub mod chunk_types;
pub mod chunk_header;
pub mod common;
pub mod data_value_type;
pub mod res_value;
pub mod string_pool;
pub mod res_table_entry;
pub mod res_table;
pub mod resource_map;
