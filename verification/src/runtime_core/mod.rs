pub mod task_buffer;
pub mod types;
