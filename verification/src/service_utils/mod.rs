pub mod app_time;
pub mod channels;
pub mod errors;
pub mod little_endian;
pub mod random;
pub mod storage_utils;
pub mod text;
pub mod tracing_utils;
