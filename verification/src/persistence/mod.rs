pub mod log_file;
pub mod recovery;
pub mod worker;
