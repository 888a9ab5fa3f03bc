pub mod dealer;
pub mod party;
