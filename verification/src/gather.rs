pub mod servers;
pub mod users;
