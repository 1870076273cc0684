//! The run of a workflow, step by step.
//!
//! A run makes no call itself. `next` says what is to be done: it skips a step,
//! hands out the request of a step, or ends the run. Whoever drives the run
//! makes the call and hands the response to `complete`. Between the two the run
//! keeps the data that later steps read, the records that are reported, and the
//! events, in the order in which they happened.

use crate::assertion::check::{
    Assertion,
    AssertionResultData,
    AssertionResultView,
    all_passed,
    passed_all,
    results_view,
};
use crate::error::ConfigError;
use crate::value::{Json, Value, lemma_member_of_with_member, member, put};
use crate::workflow::config::{WorkflowConfig, WorkflowConfigAssertion};
use crate::workflow::request::{Request, RequestData, RequestView, request_fault};
use crate::workflow::response::{
    ResponseData,
    ResponseView,
    check_fault,
    check_results,
    first_fault,
    lemma_first_fault_stays,
    mask_list,
};
use vstd::prelude::*;

verus! {

/// Where a run stands.
#[derive(Debug, Clone, Copy, PartialEq, Eq, Structural)]
pub enum RunState {
    /// Nothing has happened yet.
    NotStarted,
    /// The step with this index is the next to run, or is waiting for its
    /// response.
    Running(usize),
    /// The run is over; it passed or failed.
    Done(bool),
}

/// Where a step stands.
#[derive(Debug, Clone, Copy, PartialEq, Eq, Structural)]
pub enum StepStatus {
    /// The step has started.
    Running,
    /// The step is over; it passed or failed.
    Done(bool),
    /// The step was skipped.
    Skipped,
}

/// What happens in the lifetime of a run.
#[derive(Debug)]
pub enum CallbackEvent {
    /// The run has started.
    RunStart,
    /// The workflow is marked to be skipped; nothing was run.
    RunSkipped,
    /// The run is over; it passed or failed.
    RunDone(bool),
    /// The step with this index has started.
    StepStart(usize),
    /// The step with this index is over: the results of its checks, and whether
    /// all of them passed.
    StepDone(usize, Vec<AssertionResultData>, bool),
    /// The step with this index was skipped.
    StepSkipped(usize),
}

/// An event, as the contracts see it.
pub enum EventView {
    /// The run has started.
    RunStart,
    /// The workflow is marked to be skipped.
    RunSkipped,
    /// The run is over.
    RunDone(bool),
    /// A step has started.
    StepStart(usize),
    /// A step is over.
    StepDone(usize, Seq<AssertionResultView>, bool),
    /// A step was skipped.
    StepSkipped(usize),
}

impl View for CallbackEvent {
    type V = EventView;

    open spec fn view(&self) -> EventView {
        match self {
            CallbackEvent::RunStart => EventView::RunStart,
            CallbackEvent::RunSkipped => EventView::RunSkipped,
            CallbackEvent::RunDone(passed) => EventView::RunDone(*passed),
            CallbackEvent::StepStart(i) => EventView::StepStart(*i),
            CallbackEvent::StepDone(i, results, passed) => EventView::StepDone(
                *i,
                results_view(results@),
                *passed,
            ),
            CallbackEvent::StepSkipped(i) => EventView::StepSkipped(*i),
        }
    }
}

impl CallbackEvent {
    /// The step that the event is about, and where it stands by it.
    pub fn status(&self) -> (r: Option<(usize, StepStatus)>)
        ensures
            r == (match self@ {
                EventView::StepStart(i) => Some((i, StepStatus::Running)),
                EventView::StepDone(i, _, passed) => Some((i, StepStatus::Done(passed))),
                EventView::StepSkipped(i) => Some((i, StepStatus::Skipped)),
                _ => None,
            }),
    {
        match self {
            CallbackEvent::StepStart(i) => Some((*i, StepStatus::Running)),
            CallbackEvent::StepDone(i, _, passed) => Some((*i, StepStatus::Done(*passed))),
            CallbackEvent::StepSkipped(i) => Some((*i, StepStatus::Skipped)),
            _ => None,
        }
    }
}

/// The views of events in a row.
pub open spec fn events_view(v: Seq<CallbackEvent>) -> Seq<EventView> {
    v.map_values(|e: CallbackEvent| e@)
}

/// The views of records in a row.
pub open spec fn requests_view(v: Seq<RequestData>) -> Seq<RequestView> {
    v.map_values(|r: RequestData| r@)
}

/// What stands under `key` in the data of a run; null where nothing does.
pub open spec fn entry_of(ctx: Json, key: Seq<char>) -> Json {
    match ctx {
        Json::Object(m) => match member(m, key) {
            Some(e) => e,
            None => Json::Null,
        },
        _ => Json::Null,
    }
}

/// The data `ctx` with `value` under `outer.inner`.
pub open spec fn set_in(ctx: Json, outer: Seq<char>, inner: Seq<char>, value: Json) -> Json {
    put(ctx, outer, put(entry_of(ctx, outer), inner, value))
}

/// The data `ctx` with the first `n` of `vars` under `env`, as strings.
pub open spec fn with_vars(ctx: Json, vars: Seq<(String, String)>, n: nat) -> Json
    decreases n,
{
    if n == 0 || n > vars.len() {
        ctx
    } else {
        set_in(with_vars(ctx, vars, (n - 1) as nat), "env"@, vars[n - 1].0@, Json::String(vars[n - 1].1@))
    }
}

/// The data `ctx` with the first `n` of `entries` under `env`.
pub open spec fn with_entries(ctx: Json, entries: Seq<(String, Value)>, n: nat) -> Json
    decreases n,
{
    if n == 0 || n > entries.len() {
        ctx
    } else {
        set_in(with_entries(ctx, entries, (n - 1) as nat), "env"@, entries[n - 1].0@, entries[n - 1].1@)
    }
}

/// The data with which a run begins: under `env` the variables of the process,
/// and over them those of the workflow.
pub open spec fn seeded(config: WorkflowConfig, process_env: Seq<(String, String)>) -> Json {
    let base = with_vars(Json::Object(Seq::empty()), process_env, process_env.len());
    match config.env {
        Some(e) => with_entries(base, e@, e@.len()),
        None => base,
    }
}

/// The data `ctx` with `value` under `outer.inner`.
pub fn put_in(ctx: Value, outer: &str, inner: &str, value: Value) -> (r: Value)
    ensures
        r@ == set_in(ctx@, outer@, inner@, value@),
{
    let entry = match ctx.get(outer) {
        Some(e) => e.clone(),
        None => Value::Null,
    };
    ctx.put(outer.to_owned(), entry.put(inner.to_owned(), value))
}

/// What is wrong with a step, if anything: with its request, or else with the
/// first of its checks that has a fault.
pub open spec fn step_fault(config: WorkflowConfig, i: int, ctx: Json) -> Option<ConfigError> {
    let step = config.steps@[i];
    match request_fault(step, config) {
        Some(fault) => Some(fault),
        None => first_fault(step.assertions@, ctx, step.assertions@.len()),
    }
}

/// The fault of the first of the checks that has one.
pub fn find_fault(assertions: &Vec<WorkflowConfigAssertion>, workflow_data: &Value) -> (r: Option<
    ConfigError,
>)
    ensures
        r == first_fault(assertions@, workflow_data@, assertions@.len()),
{
    let mut i: usize = 0;
    while i < assertions.len()
        invariant
            i <= assertions.len(),
            first_fault(assertions@, workflow_data@, i as nat) is None,
        decreases assertions.len() - i,
    {
        let fault = match Assertion::from_assertion(&assertions[i], workflow_data) {
            Ok(a) => a.fault(),
            Err(e) => Some(e),
        };
        if fault.is_some() {
            proof {
                assert(check_fault(assertions@[i as int], workflow_data@) == fault);
                lemma_first_fault_stays(
                    assertions@,
                    workflow_data@,
                    (i + 1) as nat,
                    assertions@.len(),
                );
            }
            return fault;
        }
        i += 1;
    }
    None
}

/// What a run asks of whoever drives it.
#[derive(Debug)]
pub enum Action {
    /// Make this request, and hand the response to `complete`.
    Call(RequestData),
    /// A step was skipped; go on.
    Skipped,
    /// The run is over.
    Finished,
    /// Nothing was done: the run has not started, is over, or waits for a
    /// response.
    Idle,
}

/// The run of a workflow.
#[derive(Debug)]
pub struct WorkflowRun {
    /// Where the run stands.
    pub state: RunState,
    /// The data of the run: `env`, and under the id of each step that has one
    /// its `request` and its `response`.
    pub context: Value,
    /// Whether every step so far has passed.
    pub passed: bool,
    /// The records of the steps so far, as they are reported.
    pub requests: Vec<RequestData>,
    /// What has happened so far.
    pub events: Vec<CallbackEvent>,
    /// The request that waits for its response.
    pub pending: Option<Request>,
}

/// A run, as the contracts see it.
pub struct RunView {
    /// Where the run stands.
    pub state: RunState,
    /// The data of the run.
    pub context: Json,
    /// Whether every step so far has passed.
    pub passed: bool,
    /// The records of the steps so far.
    pub requests: Seq<RequestView>,
    /// What has happened so far.
    pub events: Seq<EventView>,
    /// Whether a request waits for its response.
    pub waiting: bool,
}

impl View for WorkflowRun {
    type V = RunView;

    open spec fn view(&self) -> RunView {
        RunView {
            state: self.state,
            context: self.context@,
            passed: self.passed,
            requests: requests_view(self.requests@),
            events: events_view(self.events@),
            waiting: self.pending is Some,
        }
    }
}

impl WorkflowRun {
    /// A run that has not started: it holds no data and nothing has happened.
    pub fn new() -> (r: WorkflowRun)
        ensures
            r@ == (RunView {
                state: RunState::NotStarted,
                context: Json::Object(Seq::empty()),
                passed: true,
                requests: Seq::empty(),
                events: Seq::empty(),
                waiting: false,
            }),
    {
        let r = WorkflowRun {
            state: RunState::NotStarted,
            context: Value::object(),
            passed: true,
            requests: Vec::new(),
            events: Vec::new(),
            pending: None,
        };
        assert(requests_view(r.requests@) =~= Seq::empty());
        assert(events_view(r.events@) =~= Seq::empty());
        r
    }

    fn emit(&mut self, event: CallbackEvent)
        ensures
            final(self)@ == (RunView { events: old(self)@.events.push(event@), ..old(self)@ }),
            final(self).pending == old(self).pending,
    {
        let ghost before = events_view(self.events@);
        self.events.push(event);
        assert(events_view(self.events@) =~= before.push(event@));
    }

    /// Starts a run that has not started. A workflow that is marked to be
    /// skipped is over at once, with nothing in its data; any other begins at
    /// its first step, with `env` in its data. A run that has started stays as
    /// it is.
    pub fn start(self, config: &WorkflowConfig, process_env: &Vec<(String, String)>) -> (r:
        WorkflowRun)
        ensures
            self.state != RunState::NotStarted ==> r == self,
            self.state == RunState::NotStarted ==> r.pending == self.pending && r@ == (
            if config.skip is Some {
                RunView {
                    state: RunState::Done(self.passed),
                    events: self@.events.push(EventView::RunSkipped),
                    ..self@
                }
            } else {
                RunView {
                    state: RunState::Running(0),
                    context: seeded(*config, process_env@),
                    events: self@.events.push(EventView::RunStart),
                    ..self@
                }
            }),
    {
        let mut run = self;
        match run.state {
            RunState::NotStarted => {},
            _ => {
                return run;
            },
        }
        if config.skip.is_some() {
            run.emit(CallbackEvent::RunSkipped);
            run.state = RunState::Done(run.passed);
            return run;
        }
        let mut context = Value::object();
        let mut i: usize = 0;
        while i < process_env.len()
            invariant
                i <= process_env.len(),
                context@ == with_vars(Json::Object(Seq::empty()), process_env@, i as nat),
            decreases process_env.len() - i,
        {
            context = put_in(
                context,
                "env",
                process_env[i].0.as_str(),
                Value::String(process_env[i].1.clone()),
            );
            i += 1;
        }
        if let Some(env) = &config.env {
            let ghost base = context@;
            let mut k: usize = 0;
            while k < env.len()
                invariant
                    k <= env.len(),
                    context@ == with_entries(base, env@, k as nat),
                decreases env.len() - k,
            {
                context = put_in(context, "env", env[k].0.as_str(), env[k].1.clone());
                k += 1;
            }
        }
        run.context = context;
        run.emit(CallbackEvent::RunStart);
        run.state = RunState::Running(0);
        run
    }

    /// Whether `after` and `action` are what `next` makes of the run `self` at a
    /// step that is run: the step has started, its request is made from the
    /// data of the run and waits for its response, and the data holds the
    /// request under the step's id, if it has one.
    pub open spec fn begins_step(
        self,
        after: WorkflowRun,
        action: Action,
        config: WorkflowConfig,
        i: usize,
        now: Seq<char>,
    ) -> bool {
        let step = config.steps@[i as int];
        &&& after.pending is Some
        &&& action is Call
        &&& after.pending->Some_0.made_from(config, i, self.context@, now)
        &&& action->Call_0@ == after.pending->Some_0.raw_view()
        &&& after@ == (RunView {
            context: match step.id {
                Some(id) => set_in(
                    self.context@,
                    id@,
                    "request"@,
                    after.pending->Some_0.raw_view().stored(),
                ),
                None => self.context@,
            },
            events: self@.events.push(EventView::StepStart(i)),
            waiting: true,
            ..self@
        })
    }

    /// Says what is to be done next, and does what needs no call.
    ///
    /// Behind the last step the run is over. A step that is marked to be skipped
    /// starts and is skipped: the data and the verdict of the run stay as they
    /// are. Of any other step the request is made and handed out; a fault in the
    /// step's request or in one of its checks ends the run before any call is
    /// made for the step.
    pub fn next(self, config: &WorkflowConfig, now: String) -> (r: Result<
        (WorkflowRun, Action),
        ConfigError,
    >)
        ensures
            match (self.state, self.pending) {
                (RunState::Running(i), None) => if i >= config.steps@.len() {
                    r matches Ok(pair) && pair.1 is Finished && pair.0.pending is None && pair.0@
                        == (RunView {
                        state: RunState::Done(self.passed),
                        events: self@.events.push(EventView::RunDone(self.passed)),
                        ..self@
                    })
                } else if config.steps@[i as int].skip is Some {
                    r matches Ok(pair) && pair.1 is Skipped && pair.0.pending is None && pair.0@
                        == (RunView {
                        state: RunState::Running((i + 1) as usize),
                        events: self@.events.push(EventView::StepStart(i)).push(
                            EventView::StepSkipped(i),
                        ),
                        ..self@
                    })
                } else {
                    match step_fault(*config, i as int, self.context@) {
                        Some(fault) => r matches Err(e) && e == fault,
                        None => r matches Ok(pair) && self.begins_step(
                            pair.0,
                            pair.1,
                            *config,
                            i,
                            now@,
                        ),
                    }
                },
                _ => r matches Ok(pair) && pair.1 is Idle && pair.0 == self,
            },
    {
        let mut run = self;
        let index = match run.state {
            RunState::Running(i) => i,
            _ => {
                return Ok((run, Action::Idle));
            },
        };
        if run.pending.is_some() {
            return Ok((run, Action::Idle));
        }
        if index >= config.steps.len() {
            run.emit(CallbackEvent::RunDone(run.passed));
            run.state = RunState::Done(run.passed);
            return Ok((run, Action::Finished));
        }
        let step = &config.steps[index];
        if step.skip.is_some() {
            run.emit(CallbackEvent::StepStart(index));
            run.emit(CallbackEvent::StepSkipped(index));
            run.state = RunState::Running(index + 1);
            return Ok((run, Action::Skipped));
        }
        let request = match Request::new(config, index, &run.context, now) {
            Ok(request) => request,
            Err(e) => {
                return Err(e);
            },
        };
        if let Some(e) = find_fault(&step.assertions, &run.context) {
            return Err(e);
        }
        let record = request.data();
        if let Some(id) = &step.id {
            run.context = put_in(run.context, id.as_str(), "request", record.to_value());
        }
        run.emit(CallbackEvent::StepStart(index));
        run.pending = Some(request);
        Ok((run, Action::Call(record)))
    }

    /// Whether `after` is what `complete` makes of the run `self`, whose step `i`
    /// waits with `request`, when `response` comes: the checks of the step have
    /// run on the response, the step is over, the data holds the response under
    /// the step's id, if it has one, the masked record is added to the records,
    /// and the run has passed so far if it had before and all checks passed.
    pub open spec fn ends_step(
        self,
        after: WorkflowRun,
        config: WorkflowConfig,
        i: usize,
        request: Request,
        response: ResponseView,
    ) -> bool {
        let step = config.steps@[i as int];
        let results = check_results(step.assertions@, request.workflow_data@, response.tree());
        let checked = ResponseView { assertion_results: results, ..response };
        &&& after.pending is None
        &&& after@ == (RunView {
            state: RunState::Running((i + 1) as usize),
            context: match step.id {
                Some(id) => set_in(self.context@, id@, "response"@, response.stored()),
                None => self.context@,
            },
            passed: self.passed && all_passed(results),
            requests: self@.requests.push(
                RequestView {
                    response: Some(checked.masked(mask_list(request.options))),
                    ..request.masked_view()
                },
            ),
            events: self@.events.push(EventView::StepDone(i, results, all_passed(results))),
            waiting: false,
        })
    }

    /// Takes the response to the request that waits, runs the step's checks on
    /// it, and closes the step. The run goes on whatever the response is; only
    /// a fault in a check ends it. A run that does not wait for a response
    /// stays as it is.
    pub fn complete(self, config: &WorkflowConfig, response: ResponseData) -> (r: Result<
        WorkflowRun,
        ConfigError,
    >)
        ensures
            match (self.state, self.pending) {
                (RunState::Running(i), Some(request)) => if i < config.steps@.len() {
                    match first_fault(
                        config.steps@[i as int].assertions@,
                        request.workflow_data@,
                        config.steps@[i as int].assertions@.len(),
                    ) {
                        Some(fault) => r matches Err(e) && e == fault,
                        None => r matches Ok(after) && self.ends_step(
                            after,
                            *config,
                            i,
                            request,
                            response@,
                        ),
                    }
                } else {
                    r matches Ok(after) && after == self
                },
                _ => r matches Ok(after) && after == self,
            },
    {
        let mut run = self;
        let index = match run.state {
            RunState::Running(i) => i,
            _ => {
                return Ok(run);
            },
        };
        if index >= config.steps.len() || run.pending.is_none() {
            return Ok(run);
        }
        let mut request = match run.pending.take() {
            Some(request) => request,
            None => {
                return Ok(run);
            },
        };
        let step = &config.steps[index];
        let stored = response.to_value();
        request.respond(response);
        let results = match request.assert_on_response(&step.assertions) {
            Ok(results) => results,
            Err(e) => {
                return Err(e);
            },
        };
        let step_passed = passed_all(&results);
        let record = request.data_masked();
        run.emit(CallbackEvent::StepDone(index, results, step_passed));
        if let Some(id) = &step.id {
            run.context = put_in(run.context, id.as_str(), "response", stored);
        }
        let ghost before = requests_view(run.requests@);
        run.requests.push(record);
        assert(requests_view(run.requests@) =~= before.push(record@));
        run.passed = run.passed && step_passed;
        run.state = RunState::Running(index + 1);
        Ok(run)
    }
}

/// What is put under a key is found there, and what stood under another key
/// still stands there.
pub proof fn lemma_entry_of_put(j: Json, key: Seq<char>, value: Json, other: Seq<char>)
    ensures
        entry_of(put(j, key, value), key) == value,
        other != key ==> entry_of(put(j, key, value), other) == entry_of(j, other),
{
    match j {
        Json::Object(m) => {
            lemma_member_of_with_member(m, key, value, other);
        },
        _ => {
            let m = seq![(key, value)];
            assert(m.drop_first() =~= Seq::empty());
            assert(member(m.drop_first(), other) is None);
        },
    }
}

/// What is put under `outer.inner` is found there; what stood beside it under
/// `outer`, and what stood under any other key, still stands there.
pub proof fn law_data_is_kept(
    ctx: Json,
    outer: Seq<char>,
    inner: Seq<char>,
    value: Json,
    other: Seq<char>,
)
    ensures
        entry_of(entry_of(set_in(ctx, outer, inner, value), outer), inner) == value,
        other != inner ==> entry_of(entry_of(set_in(ctx, outer, inner, value), outer), other)
            == entry_of(entry_of(ctx, outer), other),
        other != outer ==> entry_of(set_in(ctx, outer, inner, value), other) == entry_of(
            ctx,
            other,
        ),
{
    let entry = put(entry_of(ctx, outer), inner, value);
    lemma_entry_of_put(ctx, outer, entry, other);
    lemma_entry_of_put(entry_of(ctx, outer), inner, value, other);
}

} // verus!
