pub mod adkg;
pub mod avss;
pub mod clients;
pub mod gather;
pub mod res;
pub mod vaba;
