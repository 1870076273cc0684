//! Workflows: their definition, the requests made from it, the responses, and
//! the run that threads one step's data into the next.

pub mod config;
pub mod request;
pub mod response;
pub mod run;
pub mod workflow_result;

pub use config::{
    WorkflowConfig,
    WorkflowConfigAssertion,
    WorkflowConfigGraphQlConfig,
    WorkflowConfigStep,
    WorkflowConfigStepOptions,
};
pub use request::{Request, RequestData};
pub use response::{CallOutcome, ResponseData};
pub use run::{Action, CallbackEvent, RunState, StepStatus, WorkflowRun};
pub use workflow_result::{ExitClass, WorkflowResult};
