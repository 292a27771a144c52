pub mod config;
pub mod context;
pub mod context_collection;
pub mod cpp_type;
pub mod emit;
pub mod laws;
pub mod layout;
pub mod metadata;
pub mod offsets;
pub mod passes;
pub mod select;
pub mod type_tag;
