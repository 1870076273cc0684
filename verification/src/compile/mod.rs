//! The template compiler: placeholders in strings and in whole trees, resolved
//! against a context, on two tracks: the raw one and the masked one.

pub mod laws;
pub mod string;
pub mod value;

pub use string::{compile_string, CompiledString};
pub use value::{compile_value, CompiledValue};
