pub mod alu;
pub mod assembler;
pub mod circular_buffer;
pub mod diag;
pub mod five_stage;
pub mod isa;
pub mod latch;
pub mod memory;
pub mod simple_ooo;
pub mod utils;
