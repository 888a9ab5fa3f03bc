pub mod servers;
