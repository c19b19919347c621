pub mod entry;
pub mod merge;
pub mod order;
pub mod reader;
pub mod rules;
pub mod store;
pub mod text;
