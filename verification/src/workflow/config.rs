//! The definition of a workflow, as its file gives it.

use crate::value::Value;
use vstd::prelude::*;

verus! {

/// A workflow: steps that are run one after the other, each a request and the
/// checks on its response.
#[derive(Debug)]
pub struct WorkflowConfig {
    /// The file that holds the definition.
    pub file: Option<String>,
    /// The workflow's name.
    pub name: String,
    /// The URL of the steps that name none.
    pub url: Option<String>,
    /// The method of the steps that name none.
    pub method: Option<String>,
    /// Headers, by name.
    pub headers: Option<Vec<(String, Value)>>,
    /// Values for `env.*`, by name; they come before those of the process.
    pub env: Option<Vec<(String, Value)>>,
    /// The steps, in the order in which they run.
    pub steps: Vec<WorkflowConfigStep>,
    /// With any value, the workflow is not run.
    pub skip: Option<bool>,
}

/// A step: one request and the checks on its response.
#[derive(Debug)]
pub struct WorkflowConfigStep {
    /// The step's name.
    pub name: String,
    /// The key under which later steps find this step's request and response.
    pub id: Option<String>,
    /// The URL, with the method in front of it where one likes: `POST https://..`.
    pub url: Option<String>,
    /// The method.
    pub method: Option<String>,
    /// The query, by name.
    pub query: Option<Vec<(String, String)>>,
    /// The headers, by name.
    pub headers: Option<Vec<(String, Value)>>,
    /// The body.
    pub body: Option<Value>,
    /// The checks on the response.
    pub assertions: Vec<WorkflowConfigAssertion>,
    /// What to mask in what is reported.
    pub options: Option<WorkflowConfigStepOptions>,
    /// A GraphQL request, in place of a body.
    pub graphql: Option<WorkflowConfigGraphQlConfig>,
    /// With any value, the step is not run.
    pub skip: Option<bool>,
}

/// A check, plain or inverted.
#[derive(Debug)]
#[allow(non_camel_case_types)]
pub enum WorkflowConfigAssertion {
    /// The check must pass.
    expect(String),
    /// The check must fail.
    expect_not(String),
}

/// What to mask in what is reported of a response.
#[derive(Debug)]
pub struct WorkflowConfigStepOptions {
    /// The keys whose values are masked.
    pub mask: Option<Vec<String>>,
}

/// A GraphQL request.
#[derive(Debug)]
pub struct WorkflowConfigGraphQlConfig {
    /// The query.
    pub query: String,
    /// Its variables.
    pub variables: Option<Value>,
}

impl WorkflowConfigAssertion {
    /// The check's text.
    pub open spec fn text(self) -> Seq<char> {
        match self {
            WorkflowConfigAssertion::expect(s) => s@,
            WorkflowConfigAssertion::expect_not(s) => s@,
        }
    }

    /// Whether the check is inverted.
    pub open spec fn inverted(self) -> bool {
        self is expect_not
    }
}

} // verus!
