//! The faults of a workflow's definition. Each of them ends the run before a
//! request is made for the step in which it was found.

use vstd::prelude::*;

verus! {

/// What can be wrong with a workflow's definition.
#[derive(Debug, Clone, Copy, PartialEq, Eq, Structural)]
pub enum ConfigError {
    /// A placeholder holds more than two words.
    InvalidTemplate,
    /// A check is not a path, the name of a test and what the test asks for.
    InvalidAssertion,
    /// Neither the step nor the workflow names a URL.
    MissingUrl,
    /// A name that is not the name of a test.
    UnknownTest,
    /// A `to_match` check whose pattern is no regular expression.
    InvalidPattern,
}

impl ConfigError {
    /// A sentence for the user.
    pub fn message(&self) -> (r: String)
        ensures
            r@ == match *self {
                ConfigError::InvalidTemplate => "invalid template"@,
                ConfigError::InvalidAssertion => "could not parse assertion"@,
                ConfigError::MissingUrl => "no url found for step"@,
                ConfigError::UnknownTest => "assertion not found"@,
                ConfigError::InvalidPattern => "invalid pattern"@,
            },
    {
        match self {
            ConfigError::InvalidTemplate => "invalid template".to_owned(),
            ConfigError::InvalidAssertion => "could not parse assertion".to_owned(),
            ConfigError::MissingUrl => "no url found for step".to_owned(),
            ConfigError::UnknownTest => "assertion not found".to_owned(),
            ConfigError::InvalidPattern => "invalid pattern".to_owned(),
        }
    }
}

} // verus!
