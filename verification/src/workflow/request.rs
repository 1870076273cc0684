//! The request of a step: its URL, method, headers, query and body, each
//! compiled against the data of the run.

use crate::assertion::check::AssertionResultData;
use crate::compile::string::{CompiledString, compile_string, expanded, valid_template};
use crate::compile::value::{CompiledValue, compile_value, compiled, compiles_to, valid_tree};
use crate::error::ConfigError;
use crate::number::{count_digits, digits_of};
use crate::text::{chars_of, string_of};
use crate::value::{Json, Value, lemma_members_view, members_view, put};
use crate::workflow::config::{
    WorkflowConfig,
    WorkflowConfigAssertion,
    WorkflowConfigStep,
    WorkflowConfigStepOptions,
};
use crate::workflow::response::{
    ResponseData,
    ResponseView,
    check_results,
    first_fault,
    mask_list,
    opt_json,
};
use crate::assertion::check::results_view;
use vstd::prelude::*;

verus! {

/// Whether `s` is the name of a method of HTTP.
pub open spec fn is_method(s: Seq<char>) -> bool {
    s == "GET"@ || s == "HEAD"@ || s == "POST"@ || s == "PUT"@ || s == "DELETE"@ || s
        == "CONNECT"@ || s == "OPTIONS"@ || s == "TRACE"@ || s == "PATCH"@
}

/// Where the first space of `s` from `i` on stands; the length of `s` where
/// there is none.
pub open spec fn space_from(s: Seq<char>, i: int) -> int
    decreases s.len() - i,
{
    if 0 <= i < s.len() && s[i] != ' ' {
        space_from(s, i + 1)
    } else {
        i
    }
}

/// Whether the URL `u` begins with a method and a space: `POST https://..`.
pub open spec fn names_method(u: Seq<char>) -> bool {
    space_from(u, 0) < u.len() && is_method(u.subrange(0, space_from(u, 0)))
}

/// The method in front of the URL `u`, if there is one.
pub open spec fn url_method(u: Seq<char>) -> Option<Seq<char>> {
    if names_method(u) {
        Some(u.subrange(0, space_from(u, 0)))
    } else {
        None
    }
}

/// The URL `u` without the method in front of it.
pub open spec fn url_text(u: Seq<char>) -> Seq<char> {
    if names_method(u) {
        u.subrange(space_from(u, 0) + 1, u.len() as int)
    } else {
        u
    }
}

/// The URL of a step: its own, else the workflow's.
pub open spec fn chosen_url(step: WorkflowConfigStep, config: WorkflowConfig) -> Option<Seq<char>> {
    match step.url {
        Some(u) => Some(u@),
        None => match config.url {
            Some(u) => Some(u@),
            None => None,
        },
    }
}

/// The method of a step that names none in front of its URL: its own, else the
/// workflow's, else `POST` for a GraphQL request, else `GET`.
pub open spec fn default_method(step: WorkflowConfigStep, config: WorkflowConfig) -> Seq<char> {
    match step.method {
        Some(m) => m@,
        None => match config.method {
            Some(m) => m@,
            None => if step.graphql is Some {
                "POST"@
            } else {
                "GET"@
            },
        },
    }
}

/// The method of a step: the one in front of its URL, else its default.
pub open spec fn chosen_method(step: WorkflowConfigStep, config: WorkflowConfig) -> Seq<char> {
    match chosen_url(step, config) {
        Some(u) => match url_method(u) {
            Some(m) => m,
            None => default_method(step, config),
        },
        None => default_method(step, config),
    }
}

/// The object that holds the first `n` of `entries`, a later one in place of an
/// earlier one with the same key.
pub open spec fn object_of(entries: Seq<(String, Value)>, n: nat) -> Json
    decreases n,
{
    if n == 0 || n > entries.len() {
        Json::Object(Seq::empty())
    } else {
        put(object_of(entries, (n - 1) as nat), entries[n - 1].0@, entries[n - 1].1@)
    }
}

/// The object that holds the first `n` of `entries` as strings.
pub open spec fn strings_object(entries: Seq<(String, String)>, n: nat) -> Json
    decreases n,
{
    if n == 0 || n > entries.len() {
        Json::Object(Seq::empty())
    } else {
        put(
            strings_object(entries, (n - 1) as nat),
            entries[n - 1].0@,
            Json::String(entries[n - 1].1@),
        )
    }
}

/// The headers of a step, before they are compiled: its own, and
/// `content-type: application/json` for a GraphQL request.
pub open spec fn headers_tree(step: WorkflowConfigStep) -> Json {
    let own = match step.headers {
        Some(h) => object_of(h@, h@.len()),
        None => Json::Null,
    };
    if step.graphql is Some {
        put(own, "content-type"@, Json::String("application/json"@))
    } else {
        own
    }
}

/// The query of a step, before it is compiled.
pub open spec fn query_tree(step: WorkflowConfigStep) -> Json {
    match step.query {
        Some(q) => strings_object(q@, q@.len()),
        None => Json::Null,
    }
}

/// The body of a step, before it is compiled: for a GraphQL request the query
/// and its variables, else the step's own body.
pub open spec fn body_tree(step: WorkflowConfigStep) -> Option<Json> {
    match step.graphql {
        Some(g) => {
            let query = put(Json::Object(Seq::empty()), "query"@, Json::String(g.query@));
            match g.variables {
                Some(v) => Some(put(query, "variables"@, v@)),
                None => Some(query),
            }
        },
        None => opt_json(step.body),
    }
}

/// Whether `a` and `b` are the same text.
fn same_text(a: &String, b: &str) -> (r: bool)
    ensures
        r == (a@ == b@),
{
    *a == b.to_owned()
}

/// Whether `s` is the name of a method of HTTP.
fn method_named(s: &String) -> (r: bool)
    ensures
        r == is_method(s@),
{
    same_text(s, "GET") || same_text(s, "HEAD") || same_text(s, "POST") || same_text(s, "PUT")
        || same_text(s, "DELETE") || same_text(s, "CONNECT") || same_text(s, "OPTIONS")
        || same_text(s, "TRACE") || same_text(s, "PATCH")
}

/// The URL of a step, compiled, and the method in front of it, if there is one.
///
/// The step's URL is used where it has one, the workflow's where it has none.
/// A step without either is a fault of the definition.
pub fn create_url(step: &WorkflowConfigStep, config: &WorkflowConfig, workflow_data: &Value) -> (r:
    Result<(CompiledString, Option<String>), ConfigError>)
    ensures
        match chosen_url(*step, *config) {
            None => r matches Err(e) && e == ConfigError::MissingUrl,
            Some(u) => if valid_template(url_text(u)) {
                r matches Ok(c) && c.0.raw@ == expanded(url_text(u), workflow_data@, false)
                    && c.0.masked@ == expanded(url_text(u), workflow_data@, true) && (match c.1 {
                    Some(m) => Some(m@),
                    None => None,
                }) == url_method(u)
            } else {
                r matches Err(e) && e == ConfigError::InvalidTemplate
            },
        },
{
    let url: &String = match &step.url {
        Some(u) => u,
        None => match &config.url {
            Some(u) => u,
            None => {
                return Err(ConfigError::MissingUrl);
            },
        },
    };
    let chars = chars_of(url.as_str());
    let mut e: usize = 0;
    while e < chars.len() && chars[e] != ' '
        invariant
            e <= chars.len(),
            space_from(chars@, 0) == space_from(chars@, e as int),
        decreases chars.len() - e,
    {
        e += 1;
    }
    if e < chars.len() {
        let first = string_of(&chars, 0, e);
        if method_named(&first) {
            let rest = string_of(&chars, e + 1, chars.len());
            return match compile_string(rest.as_str(), workflow_data) {
                Ok(c) => Ok((c, Some(first))),
                Err(err) => Err(err),
            };
        }
    }
    match compile_string(url.as_str(), workflow_data) {
        Ok(c) => Ok((c, None)),
        Err(err) => Err(err),
    }
}

/// The method of a step that names none in front of its URL.
///
/// The step's method is used where it has one, the workflow's where it has
/// none; without either it is `POST` for a GraphQL request and `GET` for any
/// other.
pub fn create_method(step: &WorkflowConfigStep, config: &WorkflowConfig) -> (r: String)
    ensures
        r@ == default_method(*step, *config),
{
    if let Some(method) = &step.method {
        return method.clone();
    }
    if let Some(method) = &config.method {
        return method.clone();
    }
    if step.graphql.is_some() {
        return "POST".to_owned();
    }
    "GET".to_owned()
}

/// The object that holds `entries`.
pub fn to_object(entries: &Vec<(String, Value)>) -> (r: Value)
    ensures
        r@ == object_of(entries@, entries@.len()),
{
    let mut r = Value::object();
    let mut i: usize = 0;
    while i < entries.len()
        invariant
            i <= entries.len(),
            r@ == object_of(entries@, i as nat),
        decreases entries.len() - i,
    {
        r = r.put(entries[i].0.clone(), entries[i].1.clone());
        i += 1;
    }
    r
}

/// The object that holds `entries` as strings.
pub fn to_strings_object(entries: &Vec<(String, String)>) -> (r: Value)
    ensures
        r@ == strings_object(entries@, entries@.len()),
{
    let mut r = Value::object();
    let mut i: usize = 0;
    while i < entries.len()
        invariant
            i <= entries.len(),
            r@ == strings_object(entries@, i as nat),
        decreases entries.len() - i,
    {
        r = r.put(entries[i].0.clone(), Value::String(entries[i].1.clone()));
        i += 1;
    }
    r
}

/// The headers of a step, compiled. A GraphQL request gets
/// `content-type: application/json`.
pub fn create_headers(step: &WorkflowConfigStep, workflow_data: &Value) -> (r: Result<
    CompiledValue,
    ConfigError,
>)
    ensures
        compiles_to(r, Some(headers_tree(*step)), workflow_data@),
{
    let mut headers = match &step.headers {
        Some(h) => to_object(h),
        None => Value::Null,
    };
    if step.graphql.is_some() {
        headers = headers.put("content-type".to_owned(), Value::String("application/json".to_owned()));
    }
    compile_value(Some(headers), workflow_data)
}

/// The query of a step, compiled.
pub fn create_query(step: &WorkflowConfigStep, workflow_data: &Value) -> (r: Result<
    CompiledValue,
    ConfigError,
>)
    ensures
        compiles_to(r, Some(query_tree(*step)), workflow_data@),
{
    let query = match &step.query {
        Some(q) => to_strings_object(q),
        None => Value::Null,
    };
    compile_value(Some(query), workflow_data)
}

/// The body of a step, compiled. For a GraphQL request it holds the query and
/// its variables.
pub fn create_body(step: &WorkflowConfigStep, workflow_data: &Value) -> (r: Result<
    CompiledValue,
    ConfigError,
>)
    ensures
        compiles_to(r, body_tree(*step), workflow_data@),
{
    if let Some(graphql) = &step.graphql {
        let mut body = Value::object().put("query".to_owned(), Value::String(graphql.query.clone()));
        if let Some(variables) = &graphql.variables {
            body = body.put("variables".to_owned(), variables.clone());
        }
        return compile_value(Some(body), workflow_data);
    }
    let body = match &step.body {
        Some(b) => Some(b.clone()),
        None => None,
    };
    compile_value(body, workflow_data)
}

/// A request and its response, as they are kept and reported.
#[derive(Debug)]
pub struct RequestData {
    /// When the request was made.
    pub created_at: String,
    /// The URL.
    pub url: String,
    /// The step's name.
    pub name: String,
    /// The method.
    pub method: String,
    /// The headers.
    pub headers: Option<Value>,
    /// The query.
    pub query: Option<Value>,
    /// The body.
    pub body: Option<Value>,
    /// The step's place in the workflow.
    pub order: usize,
    /// Whether the request is a GraphQL request.
    pub is_graphql: bool,
    /// The response, once it is there.
    pub response: Option<ResponseData>,
}

/// A request and its response, as the contracts see them.
pub struct RequestView {
    /// When the request was made.
    pub created_at: Seq<char>,
    /// The URL.
    pub url: Seq<char>,
    /// The step's name.
    pub name: Seq<char>,
    /// The method.
    pub method: Seq<char>,
    /// The headers.
    pub headers: Option<Json>,
    /// The query.
    pub query: Option<Json>,
    /// The body.
    pub body: Option<Json>,
    /// The step's place in the workflow.
    pub order: usize,
    /// Whether the request is a GraphQL request.
    pub is_graphql: bool,
    /// The response.
    pub response: Option<ResponseView>,
}

/// The view of a response that may be missing.
pub open spec fn opt_response(r: Option<ResponseData>) -> Option<ResponseView> {
    match r {
        Some(x) => Some(x@),
        None => None,
    }
}

/// The tree of a value that may be missing: null where it is.
pub open spec fn or_null(j: Option<Json>) -> Json {
    match j {
        Some(x) => x,
        None => Json::Null,
    }
}

impl View for RequestData {
    type V = RequestView;

    open spec fn view(&self) -> RequestView {
        RequestView {
            created_at: self.created_at@,
            url: self.url@,
            name: self.name@,
            method: self.method@,
            headers: opt_json(self.headers),
            query: opt_json(self.query),
            body: opt_json(self.body),
            order: self.order,
            is_graphql: self.is_graphql,
            response: opt_response(self.response),
        }
    }
}

impl RequestView {
    /// The request as later steps find it under `<id>.request`.
    pub open spec fn stored(self) -> Json {
        Json::Object(
            seq![
                ("body"@, or_null(self.body)),
                ("created_at"@, Json::String(self.created_at)),
                ("headers"@, or_null(self.headers)),
                ("is_graphql"@, Json::Bool(self.is_graphql)),
                ("method"@, Json::String(self.method)),
                ("name"@, Json::String(self.name)),
                ("order"@, Json::Number(digits_of(self.order as nat))),
                ("query"@, or_null(self.query)),
                (
                    "response"@,
                    match self.response {
                        Some(r) => r.stored(),
                        None => Json::Null,
                    },
                ),
                ("url"@, Json::String(self.url)),
            ],
        )
    }
}

/// A copy of a value that may be missing.
fn clone_opt(v: &Option<Value>) -> (r: Option<Value>)
    ensures
        opt_json(r) == opt_json(*v),
{
    match v {
        Some(x) => Some(x.clone()),
        None => None,
    }
}

/// The value, or null where it is missing.
fn value_or_null(v: &Option<Value>) -> (r: Value)
    ensures
        r@ == or_null(opt_json(*v)),
{
    match v {
        Some(x) => x.clone(),
        None => Value::Null,
    }
}

impl Clone for RequestData {
    /// A copy of the record.
    fn clone(&self) -> (r: Self)
        ensures
            r@ == self@,
    {
        RequestData {
            created_at: self.created_at.clone(),
            url: self.url.clone(),
            name: self.name.clone(),
            method: self.method.clone(),
            headers: clone_opt(&self.headers),
            query: clone_opt(&self.query),
            body: clone_opt(&self.body),
            order: self.order,
            is_graphql: self.is_graphql,
            response: match &self.response {
                Some(r) => Some(r.clone()),
                None => None,
            },
        }
    }
}

impl RequestData {
    /// The request as later steps find it under `<id>.request`.
    pub fn to_value(&self) -> (r: Value)
        ensures
            r@ == self@.stored(),
    {
        let digits = count_digits(self.order as u64);
        let order = string_of(&digits, 0, digits.len());
        assert(digits@.subrange(0, digits@.len() as int) =~= digits@);
        let mut members: Vec<(String, Value)> = Vec::new();
        members.push(("body".to_owned(), value_or_null(&self.body)));
        members.push(("created_at".to_owned(), Value::String(self.created_at.clone())));
        members.push(("headers".to_owned(), value_or_null(&self.headers)));
        members.push(("is_graphql".to_owned(), Value::Bool(self.is_graphql)));
        members.push(("method".to_owned(), Value::String(self.method.clone())));
        members.push(("name".to_owned(), Value::String(self.name.clone())));
        members.push(("order".to_owned(), Value::Number(order)));
        members.push(("query".to_owned(), value_or_null(&self.query)));
        members.push(
            (
                "response".to_owned(),
                match &self.response {
                    Some(r) => r.to_value(),
                    None => Value::Null,
                },
            ),
        );
        members.push(("url".to_owned(), Value::String(self.url.clone())));
        proof {
            lemma_members_view(members@);
            assert(members_view(members@) =~= self@.stored()->Object_0);
        }
        Value::Object(members)
    }
}

/// A step's request: made from the step, answered by a call, and checked.
///
/// It is made with `new`, which compiles the step against the data of the run.
/// Whoever makes the call hands the response to `respond`; `assert_on_response`
/// then runs the step's checks on it.
#[derive(Debug)]
pub struct Request {
    /// The step's place in the workflow.
    pub step_index: usize,
    /// The step's name.
    pub name: String,
    /// Whether the step is a GraphQL request.
    pub is_graphql: bool,
    /// What the step asks to mask.
    pub options: Option<WorkflowConfigStepOptions>,
    /// The data of the run at the time the request was made.
    pub workflow_data: Value,
    /// When the request was made.
    pub created_at: String,
    /// The URL.
    pub url: CompiledString,
    /// The method.
    pub method: String,
    /// The headers.
    pub headers: CompiledValue,
    /// The query.
    pub query: CompiledValue,
    /// The body.
    pub body: CompiledValue,
    /// The response, once it is there.
    pub response: Option<ResponseData>,
}

/// What is wrong with the request of a step, if anything: it has no URL, or
/// its URL, body, query or headers hold a string that is no template.
pub open spec fn request_fault(step: WorkflowConfigStep, config: WorkflowConfig) -> Option<
    ConfigError,
> {
    match chosen_url(step, config) {
        None => Some(ConfigError::MissingUrl),
        Some(u) => if valid_template(url_text(u)) && (body_tree(step) matches Some(b)
            ==> valid_tree(b)) && valid_tree(query_tree(step)) && valid_tree(headers_tree(step)) {
            None
        } else {
            Some(ConfigError::InvalidTemplate)
        },
    }
}

/// A copy of what a step asks to mask.
fn clone_options(options: &Option<WorkflowConfigStepOptions>) -> (r: Option<
    WorkflowConfigStepOptions,
>)
    ensures
        mask_list(r) == mask_list(*options),
{
    match options {
        None => None,
        Some(o) => match &o.mask {
            None => Some(WorkflowConfigStepOptions { mask: None }),
            Some(m) => {
                let mut copy: Vec<String> = Vec::new();
                let mut i: usize = 0;
                while i < m.len()
                    invariant
                        i <= m.len(),
                        copy@.len() == i,
                        forall|k: int| 0 <= k < i ==> (#[trigger] copy@[k])@ == m@[k]@,
                    decreases m.len() - i,
                {
                    copy.push(m[i].clone());
                    i += 1;
                }
                assert(crate::text::texts(copy@) =~= crate::text::texts(m@));
                Some(WorkflowConfigStepOptions { mask: Some(copy) })
            },
        },
    }
}

impl Request {
    /// The raw record of the request, as the contracts see it.
    pub open spec fn raw_view(self) -> RequestView {
        RequestView {
            created_at: self.created_at@,
            url: self.url.raw@,
            name: self.name@,
            method: self.method@,
            headers: Some(self.headers.raw@),
            query: Some(self.query.raw@),
            body: Some(self.body.raw@),
            order: self.step_index,
            is_graphql: self.is_graphql,
            response: opt_response(self.response),
        }
    }

    /// The masked record of the request, as the contracts see it: the URL, the
    /// query, the headers and the body from the masked track, and the response
    /// with the values hidden that the step asks to mask.
    pub open spec fn masked_view(self) -> RequestView {
        RequestView {
            url: self.url.masked@,
            query: Some(self.query.masked@),
            headers: Some(self.headers.masked@),
            body: Some(self.body.masked@),
            response: match self.response {
                Some(r) => Some(r@.masked(mask_list(self.options))),
                None => None,
            },
            ..self.raw_view()
        }
    }

    /// Whether the request is the one of step `step_index` of `workflow_config`,
    /// compiled against `workflow_data` and not yet answered.
    pub open spec fn made_from(
        self,
        workflow_config: WorkflowConfig,
        step_index: usize,
        workflow_data: Json,
        created_at: Seq<char>,
    ) -> bool {
        let step = workflow_config.steps@[step_index as int];
        let url = url_text(chosen_url(step, workflow_config)->Some_0);
        &&& self.step_index == step_index
        &&& self.name@ == step.name@
        &&& self.is_graphql == (step.graphql is Some)
        &&& mask_list(self.options) == mask_list(step.options)
        &&& self.workflow_data@ == workflow_data
        &&& self.created_at@ == created_at
        &&& self.url.raw@ == expanded(url, workflow_data, false)
        &&& self.url.masked@ == expanded(url, workflow_data, true)
        &&& self.method@ == chosen_method(step, workflow_config)
        &&& self.headers.raw@ == compiled(headers_tree(step), workflow_data, false)
        &&& self.headers.masked@ == compiled(headers_tree(step), workflow_data, true)
        &&& self.query.raw@ == compiled(query_tree(step), workflow_data, false)
        &&& self.query.masked@ == compiled(query_tree(step), workflow_data, true)
        &&& self.body.raw@ == (match body_tree(step) {
            Some(b) => compiled(b, workflow_data, false),
            None => Json::Null,
        })
        &&& self.body.masked@ == (match body_tree(step) {
            Some(b) => compiled(b, workflow_data, true),
            None => Json::Null,
        })
        &&& self.response is None
    }

    /// Makes the request of a step: compiles its URL, body, query and headers
    /// against the data of the run and settles its method.
    pub fn new(
        workflow_config: &WorkflowConfig,
        step_index: usize,
        workflow_data: &Value,
        created_at: String,
    ) -> (r: Result<Request, ConfigError>)
        requires
            step_index < workflow_config.steps@.len(),
        ensures
            match request_fault(workflow_config.steps@[step_index as int], *workflow_config) {
                Some(fault) => r matches Err(e) && e == fault,
                None => r matches Ok(request) && request.made_from(
                    *workflow_config,
                    step_index,
                    workflow_data@,
                    created_at@,
                ),
            },
    {
        let step = &workflow_config.steps[step_index];
        let (url, method) = match create_url(step, workflow_config, workflow_data) {
            Ok(pair) => pair,
            Err(e) => {
                return Err(e);
            },
        };
        let body = match create_body(step, workflow_data) {
            Ok(b) => b,
            Err(e) => {
                return Err(e);
            },
        };
        let query = match create_query(step, workflow_data) {
            Ok(q) => q,
            Err(e) => {
                return Err(e);
            },
        };
        let headers = match create_headers(step, workflow_data) {
            Ok(h) => h,
            Err(e) => {
                return Err(e);
            },
        };
        let method = match method {
            Some(m) => m,
            None => create_method(step, workflow_config),
        };
        Ok(
            Request {
                url,
                query,
                body,
                headers,
                step_index,
                method,
                created_at,
                name: step.name.clone(),
                is_graphql: step.graphql.is_some(),
                options: clone_options(&step.options),
                workflow_data: workflow_data.clone(),
                response: None,
            },
        )
    }

    /// Takes the response that the call gave.
    pub fn respond(&mut self, response: ResponseData)
        ensures
            *final(self) == (Request { response: Some(response), ..*old(self) }),
    {
        self.response = Some(response);
    }

    /// Runs the checks on the response and keeps their results in it; without a
    /// response there is nothing to check.
    pub fn assert_on_response(&mut self, assertions: &Vec<WorkflowConfigAssertion>) -> (r: Result<
        Vec<AssertionResultData>,
        ConfigError,
    >)
        ensures
            *final(self) == (Request { response: final(self).response, ..*old(self) }),
            match old(self).response {
                None => r matches Ok(results) && results@.len() == 0 && final(self).response
                    is None,
                Some(before) => match first_fault(
                    assertions@,
                    old(self).workflow_data@,
                    assertions@.len(),
                ) {
                    Some(fault) => r matches Err(e) && e == fault && opt_response(
                        final(self).response,
                    ) == Some(before@),
                    None => r matches Ok(results) && results_view(results@) == check_results(
                        assertions@,
                        old(self).workflow_data@,
                        before@.tree(),
                    ) && opt_response(final(self).response) == Some(
                        ResponseView { assertion_results: results_view(results@), ..before@ },
                    ),
                },
            },
    {
        match self.response.take() {
            None => Ok(Vec::new()),
            Some(mut response) => {
                let result = response.evaluate(assertions, &self.workflow_data);
                self.response = Some(response);
                result
            },
        }
    }

    /// The record of the request, with its response if it has one.
    pub fn data(&self) -> (r: RequestData)
        ensures
            r@ == self.raw_view(),
    {
        RequestData {
            created_at: self.created_at.clone(),
            url: self.url.raw.clone(),
            name: self.name.clone(),
            query: Some(self.query.raw.clone()),
            body: Some(self.body.raw.clone()),
            method: self.method.clone(),
            headers: Some(self.headers.raw.clone()),
            order: self.step_index,
            is_graphql: self.is_graphql,
            response: match &self.response {
                Some(r) => Some(r.clone()),
                None => None,
            },
        }
    }

    /// The record of the request as it is reported: the URL, the query, the
    /// headers and the body with their masked values hidden, and the response
    /// with the values hidden that the step asks to mask.
    pub fn data_masked(&self) -> (r: RequestData)
        ensures
            r@ == self.masked_view(),
    {
        let data = self.data();
        let response = match &data.response {
            Some(response) => response.into_masked(&self.options),
            None => None,
        };
        RequestData {
            url: self.url.masked.clone(),
            query: Some(self.query.masked.clone()),
            headers: Some(self.headers.masked.clone()),
            body: Some(self.body.masked.clone()),
            response,
            created_at: data.created_at,
            name: data.name,
            method: data.method,
            order: data.order,
            is_graphql: data.is_graphql,
        }
    }
}

} // verus!
