//! The response to a request, and what is reported of it.

use crate::assertion::check::{
    Assertion,
    AssertionData,
    AssertionResultData,
    AssertionResultView,
    clone_results,
    evaluated,
    fault_of,
    results_view,
};
use crate::compile::string::{expanded, valid_template};
use crate::error::ConfigError;
use crate::number::{int_text, write_int};
use crate::text::texts;
use crate::utils::deep_replace::{deep_replace, law_nothing_masked, replaced};
use crate::value::{Json, Value, lemma_members_view, members_view};
use crate::workflow::config::{WorkflowConfigAssertion, WorkflowConfigStepOptions};
use vstd::prelude::*;

verus! {

/// The view of a value that may be missing.
pub open spec fn opt_json(v: Option<Value>) -> Option<Json> {
    match v {
        Some(x) => Some(x@),
        None => None,
    }
}

/// How a call ended, as the client that made it tells.
#[derive(Debug)]
pub enum CallOutcome {
    /// A response came and the client took it for a success.
    Answered {
        /// The status.
        status: u16,
        /// The status text.
        status_text: String,
        /// The headers, by name.
        headers: Value,
        /// The body, where it was JSON.
        body: Option<Value>,
    },
    /// A response came with a status that the client takes for a failure.
    Rejected {
        /// The status.
        status: u16,
        /// The status text.
        status_text: String,
    },
    /// No response came.
    Failed {
        /// Whether the host's name could not be resolved.
        dns: bool,
        /// What the client says went wrong.
        kind: String,
    },
}

/// The result of a request. Checks are run on it with `evaluate`, which fills
/// `assertion_results`.
#[derive(Debug)]
pub struct ResponseData {
    /// When the response was recorded.
    pub created_at: String,
    /// The status; none where no response came.
    pub status: Option<u16>,
    /// The status text; where no response came, what went wrong.
    pub status_text: String,
    /// The headers, by name.
    pub headers: Value,
    /// The body.
    pub body: Option<Value>,
    /// The time the call took, in milliseconds.
    pub response_time: i64,
    /// The results of the checks.
    pub assertion_results: Vec<AssertionResultData>,
}

/// A response, as the contracts see it.
pub struct ResponseView {
    /// When the response was recorded.
    pub created_at: Seq<char>,
    /// The status.
    pub status: Option<u16>,
    /// The status text.
    pub status_text: Seq<char>,
    /// The headers.
    pub headers: Json,
    /// The body.
    pub body: Option<Json>,
    /// The time the call took.
    pub response_time: i64,
    /// The results of the checks.
    pub assertion_results: Seq<AssertionResultView>,
}

impl View for ResponseData {
    type V = ResponseView;

    open spec fn view(&self) -> ResponseView {
        ResponseView {
            created_at: self.created_at@,
            status: self.status,
            status_text: self.status_text@,
            headers: self.headers@,
            body: opt_json(self.body),
            response_time: self.response_time,
            assertion_results: results_view(self.assertion_results@),
        }
    }
}

impl Clone for ResponseData {
    /// A copy of the response.
    fn clone(&self) -> (r: Self)
        ensures
            r@ == self@,
    {
        ResponseData {
            created_at: self.created_at.clone(),
            status: self.status,
            status_text: self.status_text.clone(),
            headers: self.headers.clone(),
            body: match &self.body {
                Some(b) => Some(b.clone()),
                None => None,
            },
            response_time: self.response_time,
            assertion_results: clone_results(&self.assertion_results),
        }
    }
}

/// The keys that a step asks to mask.
pub open spec fn mask_of(options: WorkflowConfigStepOptions) -> Seq<Seq<char>> {
    match options.mask {
        Some(m) => texts(m@),
        None => Seq::empty(),
    }
}

/// The keys that a step asks to mask, if it has options.
pub open spec fn mask_list(options: Option<WorkflowConfigStepOptions>) -> Seq<Seq<char>> {
    match options {
        Some(o) => mask_of(o),
        None => Seq::empty(),
    }
}

impl ResponseView {
    /// What the checks of the step see of the response.
    pub open spec fn tree(self) -> Json {
        Json::Object(
            seq![
                (
                    "body"@,
                    match self.body {
                        Some(b) => b,
                        None => Json::Null,
                    },
                ),
                ("duration"@, Json::Number(int_text(self.response_time as int))),
                ("headers"@, self.headers),
                (
                    "status"@,
                    match self.status {
                        Some(s) => Json::Number(int_text(s as int)),
                        None => Json::Null,
                    },
                ),
            ],
        )
    }

    /// The response with the values under the keys `mask` hidden in its headers
    /// and its body.
    pub open spec fn masked(self, mask: Seq<Seq<char>>) -> ResponseView {
        ResponseView {
            headers: replaced(self.headers, mask),
            body: match self.body {
                Some(b) => Some(replaced(b, mask)),
                None => None,
            },
            ..self
        }
    }

    /// The response as later steps find it under `<id>.response`.
    pub open spec fn stored(self) -> Json {
        Json::Object(
            seq![
                ("assertion_results"@, Json::Array(Seq::empty())),
                (
                    "body"@,
                    match self.body {
                        Some(b) => b,
                        None => Json::Null,
                    },
                ),
                ("created_at"@, Json::String(self.created_at)),
                ("headers"@, self.headers),
                ("response_time"@, Json::Number(int_text(self.response_time as int))),
                (
                    "status"@,
                    match self.status {
                        Some(s) => Json::Number(int_text(s as int)),
                        None => Json::Null,
                    },
                ),
                ("status_text"@, Json::String(self.status_text)),
            ],
        )
    }
}

/// The fault of a check of the workflow, if it has one: its text is no
/// template, or what it compiles to is no check.
pub open spec fn check_fault(a: WorkflowConfigAssertion, ctx: Json) -> Option<ConfigError> {
    if !valid_template(a.text()) {
        Some(ConfigError::InvalidTemplate)
    } else {
        fault_of(expanded(a.text(), ctx, false), expanded(a.text(), ctx, true), a.inverted())
    }
}

/// The result of a check of the workflow that has no fault.
pub open spec fn check_result(a: WorkflowConfigAssertion, ctx: Json, tree: Json) -> AssertionResultView {
    evaluated(expanded(a.text(), ctx, false), expanded(a.text(), ctx, true), a.inverted(), tree)
}

/// The fault of the first of the first `n` checks that has one.
pub open spec fn first_fault(a: Seq<WorkflowConfigAssertion>, ctx: Json, n: nat) -> Option<
    ConfigError,
>
    decreases n,
{
    if n == 0 || n > a.len() {
        None
    } else {
        match first_fault(a, ctx, (n - 1) as nat) {
            Some(e) => Some(e),
            None => check_fault(a[n - 1], ctx),
        }
    }
}

/// The results of checks without a fault, in their order.
pub open spec fn check_results(a: Seq<WorkflowConfigAssertion>, ctx: Json, tree: Json) -> Seq<
    AssertionResultView,
> {
    Seq::new(a.len(), |i: int| check_result(a[i], ctx, tree))
}

impl ResponseData {
    /// A response without status, headers, body or results.
    pub fn new(created_at: String) -> (r: ResponseData)
        ensures
            r@ == (ResponseView {
                created_at: created_at@,
                status: None,
                status_text: Seq::empty(),
                headers: Json::Null,
                body: None,
                response_time: 0,
                assertion_results: Seq::empty(),
            }),
    {
        let r = ResponseData {
            created_at,
            status_text: String::new(),
            headers: Value::Null,
            response_time: 0,
            status: None,
            body: None,
            assertion_results: Vec::new(),
        };
        assert(results_view(r.assertion_results@) =~= Seq::empty());
        r
    }

    /// The response that a call ended in.
    ///
    /// A call that failed gives a response too: without a status, and with what
    /// went wrong as its status text. Checks run on it like on any other; a
    /// failure may be what a step expects.
    pub fn from_result(result: CallOutcome, response_time: i64, created_at: String) -> (r:
        ResponseData)
        ensures
            r@ == (match result {
                CallOutcome::Answered { status, status_text, headers, body } => ResponseView {
                    created_at: created_at@,
                    status: Some(status),
                    status_text: status_text@,
                    headers: headers@,
                    body: Some(
                        match body {
                            Some(b) => b@,
                            None => Json::String(status_text@),
                        },
                    ),
                    response_time,
                    assertion_results: Seq::empty(),
                },
                CallOutcome::Rejected { status, status_text } => ResponseView {
                    created_at: created_at@,
                    status: Some(status),
                    status_text: status_text@,
                    headers: Json::Null,
                    body: None,
                    response_time,
                    assertion_results: Seq::empty(),
                },
                CallOutcome::Failed { dns, kind } => ResponseView {
                    created_at: created_at@,
                    status: None,
                    status_text: if dns {
                        "Could not connect to URL"@
                    } else {
                        kind@
                    },
                    headers: Json::Null,
                    body: None,
                    response_time,
                    assertion_results: Seq::empty(),
                },
            }),
    {
        let mut r = ResponseData::new(created_at);
        r.response_time = response_time;
        match result {
            CallOutcome::Answered { status, status_text, headers, body } => {
                r.status = Some(status);
                r.body = Some(
                    match body {
                        Some(b) => b,
                        None => Value::String(status_text.clone()),
                    },
                );
                r.status_text = status_text;
                r.headers = headers;
            },
            CallOutcome::Rejected { status, status_text } => {
                r.status = Some(status);
                r.status_text = status_text;
            },
            CallOutcome::Failed { dns, kind } => {
                r.status_text = if dns {
                    "Could not connect to URL".to_owned()
                } else {
                    kind
                };
            },
        }
        r
    }

    /// What the checks of the step see of the response.
    pub fn assertion_data(&self) -> (r: AssertionData)
        ensures
            r.tree() == self@.tree(),
    {
        let r = AssertionData {
            status: self.status,
            duration: self.response_time,
            body: match &self.body {
                Some(b) => b.clone(),
                None => Value::Null,
            },
            headers: self.headers.clone(),
        };
        assert(r.tree()->Object_0 =~= self@.tree()->Object_0);
        r
    }

    /// Runs the checks on the response and fills `assertion_results`. The first
    /// check with a fault ends it, and leaves the response as it was.
    pub fn evaluate(&mut self, assertions: &Vec<WorkflowConfigAssertion>, workflow_data: &Value) -> (r:
        Result<Vec<AssertionResultData>, ConfigError>)
        ensures
            match first_fault(assertions@, workflow_data@, assertions@.len()) {
                Some(fault) => r matches Err(e) && e == fault && final(self)@ == old(self)@,
                None => r matches Ok(results) && results_view(results@) == check_results(
                    assertions@,
                    workflow_data@,
                    old(self)@.tree(),
                ) && final(self)@ == (ResponseView {
                    assertion_results: results_view(results@),
                    ..old(self)@
                }),
            },
    {
        let mut results: Vec<AssertionResultData> = Vec::new();
        let data = self.assertion_data();
        let mut i: usize = 0;
        while i < assertions.len()
            invariant
                i <= assertions.len(),
                data.tree() == self@.tree(),
                first_fault(assertions@, workflow_data@, i as nat) is None,
                results@.len() == i,
                forall|k: int|
                    0 <= k < i ==> (#[trigger] results@[k])@ == check_result(
                        assertions@[k],
                        workflow_data@,
                        data.tree(),
                    ),
            decreases assertions.len() - i,
        {
            let assertion = match Assertion::from_assertion(&assertions[i], workflow_data) {
                Ok(a) => a,
                Err(e) => {
                    proof {
                        lemma_first_fault_stays(
                            assertions@,
                            workflow_data@,
                            (i + 1) as nat,
                            assertions@.len(),
                        );
                    }
                    return Err(e);
                },
            };
            match assertion.evaluate(&data) {
                Ok(result) => {
                    results.push(result);
                },
                Err(e) => {
                    proof {
                        lemma_first_fault_stays(
                            assertions@,
                            workflow_data@,
                            (i + 1) as nat,
                            assertions@.len(),
                        );
                    }
                    return Err(e);
                },
            }
            i += 1;
        }
        self.assertion_results = clone_results(&results);
        assert(results_view(results@) =~= check_results(
            assertions@,
            workflow_data@,
            data.tree(),
        ));
        Ok(results)
    }

    /// The response as it is reported: with the values under the keys of
    /// `options` hidden, or as it is where there are no options.
    pub fn into_masked(&self, options: &Option<WorkflowConfigStepOptions>) -> (r: Option<
        ResponseData,
    >)
        ensures
            r matches Some(m) && m@ == self@.masked(mask_list(*options)),
    {
        let response = match options {
            Some(options) => self.mask(options),
            None => {
                proof {
                    lemma_nothing_to_mask(self@);
                }
                self.clone()
            },
        };
        Some(response)
    }

    /// The response with the values under the keys of `options` hidden in its
    /// headers and its body.
    pub fn mask(&self, options: &WorkflowConfigStepOptions) -> (r: ResponseData)
        ensures
            r@ == self@.masked(mask_of(*options)),
    {
        let mut response_result = self.clone();
        if let Some(mask) = &options.mask {
            if mask.len() == 0 {
                proof {
                    assert(texts(mask@) =~= Seq::empty());
                    lemma_nothing_to_mask(self@);
                }
                return response_result;
            }
            let headers = deep_replace(&response_result.headers, mask);
            response_result.headers = headers;
            let body = match &response_result.body {
                Some(body) => Some(deep_replace(body, mask)),
                None => None,
            };
            response_result.body = body;
        } else {
            proof {
                lemma_nothing_to_mask(self@);
            }
        }
        response_result
    }

    /// The response as later steps find it under `<id>.response`.
    pub fn to_value(&self) -> (r: Value)
        ensures
            r@ == self@.stored(),
    {
        let mut members: Vec<(String, Value)> = Vec::new();
        let none: Vec<Value> = Vec::new();
        proof {
            crate::value::lemma_items_view(none@);
            assert(crate::value::items_view(none@) =~= Seq::empty());
        }
        members.push(("assertion_results".to_owned(), Value::Array(none)));
        members.push(
            (
                "body".to_owned(),
                match &self.body {
                    Some(b) => b.clone(),
                    None => Value::Null,
                },
            ),
        );
        members.push(("created_at".to_owned(), Value::String(self.created_at.clone())));
        members.push(("headers".to_owned(), self.headers.clone()));
        members.push(("response_time".to_owned(), Value::Number(write_int(self.response_time))));
        members.push(
            (
                "status".to_owned(),
                match self.status {
                    Some(s) => Value::Number(write_int(s as i64)),
                    None => Value::Null,
                },
            ),
        );
        members.push(("status_text".to_owned(), Value::String(self.status_text.clone())));
        proof {
            lemma_members_view(members@);
            assert(members_view(members@) =~= self@.stored()->Object_0);
        }
        Value::Object(members)
    }
}

/// With nothing to mask the response stays as it is.
pub proof fn lemma_nothing_to_mask(v: ResponseView)
    ensures
        v.masked(Seq::empty()) == v,
{
    law_nothing_masked(v.headers);
    if let Some(b) = v.body {
        law_nothing_masked(b);
    }
}

/// A fault among the first checks is the fault among more of them.
pub proof fn lemma_first_fault_stays(a: Seq<WorkflowConfigAssertion>, ctx: Json, n: nat, m: nat)
    requires
        n <= m <= a.len(),
        first_fault(a, ctx, n) is Some,
    ensures
        first_fault(a, ctx, m) == first_fault(a, ctx, n),
    decreases m,
{
    if n < m {
        lemma_first_fault_stays(a, ctx, n, (m - 1) as nat);
    }
}

} // verus!
