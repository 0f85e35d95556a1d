pub mod filter;
pub mod graph;
pub mod items;
pub mod records;
pub mod text;
