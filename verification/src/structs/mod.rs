pub mod entry;
pub mod message;
