//! A declarative HTTP workflow runner's core: templates resolved against a
//! growing context, a small assertion language, and the bookkeeping of a run.

pub mod assertion;
pub mod compile;
pub mod error;
pub mod number;
pub mod options;
pub mod path;
pub mod render;
pub mod text;
pub mod utils;
pub mod value;
pub mod workflow;

pub use options::CliOptions;
