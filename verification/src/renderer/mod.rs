//! What is kept for the device: records, buffers, and what to write.

pub mod instance;
pub mod resource;
pub mod upload;
