pub mod laws;
pub mod worker;
