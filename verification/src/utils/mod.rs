//! Helpers of the workflow.

pub mod deep_replace;

pub use deep_replace::deep_replace;
