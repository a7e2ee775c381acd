pub mod json;
pub mod error;
pub mod value;
pub mod int_methods;
pub mod memory;
pub mod interpreter;
pub mod component;
