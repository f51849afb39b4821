pub mod key;
pub mod matcher;
pub mod sorter;
pub mod store;
pub mod text;
pub mod track;
