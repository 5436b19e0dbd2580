pub mod messages;
pub mod quorum_worker;
pub mod types;
