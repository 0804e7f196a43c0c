pub mod le_bytes;
pub mod step;
pub mod text;
