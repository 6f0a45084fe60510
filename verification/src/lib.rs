pub mod text;
pub mod instruction;
pub mod error;
pub mod assembler;
pub mod grammar;
pub mod laws;
pub mod locality;
pub mod forms;
