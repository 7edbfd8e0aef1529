//! Per-user configuration store: a structured document of named sections,
//! each a table of keys, with default bootstrapping and typed get/update.
pub mod codec;
pub mod directory;
pub mod document;
pub mod store;
pub mod value;
