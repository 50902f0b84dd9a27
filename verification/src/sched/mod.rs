pub mod task;
pub mod scheduler;
