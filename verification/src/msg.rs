pub mod message;
pub mod result;
