//! The assertion language: a check's text is read as a path, a test and what
//! the test asks for, and is held against the data of a response.

pub mod check;
pub mod assertions;
pub mod laws;
pub mod utils;
pub mod value_assertions;

pub use check::{Assertion, AssertionData, AssertionResultData, AssertionTest};
pub use value_assertions::{TestName, ValueAssertions};
