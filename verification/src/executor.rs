use crate::errors::ResolveError;
use crate::errors::SpecResolveError;
use crate::function_registry::Version;
use crate::payload_template::resolve;
use crate::payload_template::resolve_spec;
use crate::state_machine::accepts;
use crate::state_machine::delay_before_retry;
use crate::state_machine::find_catch;
use crate::state_machine::find_state;
use crate::state_machine::is_truthy;
use crate::state_machine::matches_code;
use crate::state_machine::read_seconds;
use crate::state_machine::slot_view;
use crate::state_machine::slot_views;
use crate::state_machine::Action;
use crate::state_machine::Backoff;
use crate::state_machine::BranchOutcome;
use crate::state_machine::Execution;
use crate::state_machine::Signal;
use crate::state_machine::Status;
use crate::state_machine::backoff_delay;
use crate::state_machine::catch_target;
use crate::state_machine::seconds_of;
use crate::state_machine::state_named;
use crate::state_machine::truthy;
use crate::state_machine::CatchRule;
use crate::state_machine::ChoiceRule;
use crate::state_machine::Phase;
use crate::state_machine::RetryPolicy;
use crate::state_machine::SpecAction;
use crate::state_machine::SpecBranchOutcome;
use crate::state_machine::SpecExecution;
use crate::state_machine::SpecSignal;
use crate::state_machine::SpecStatus;
use crate::state_machine::StateDefinition;
use crate::state_machine::WaitFor;
use crate::state_machine::WorkflowDefinition;
use crate::template_functions_v1::render_scalar;
use crate::template_functions_v1::scalar_text;
use crate::value::lemma_array_view;
use crate::value::lemma_object_view;
use crate::value::member_views;
use crate::value::set_member;
use crate::value::views;
use crate::value::with_member;
use crate::value::Number;
use crate::value::Value;
use crate::workflow_executions::record_views;
use crate::workflow_executions::Record;
use crate::value::SpecNumber;
use crate::value::SpecValue;
use crate::workflow_executions::EventKind;
use crate::workflow_executions::SpecRecord;
use vstd::pervasive::unreached;
use vstd::prelude::*;
use vstd::string::StringExecFns;

verus! {

/// One step of an execution as a mathematical value: the execution after it, what is to be
/// done outside, and what is to be written to the history.
pub struct SpecTransition {
    pub execution: SpecExecution,
    pub action: SpecAction,
    pub records: Seq<SpecRecord>,
}

/// The payload that tells of a failure: its code and its message.
pub open spec fn failure_payload(code: Seq<char>, message: Seq<char>) -> SpecValue {
    SpecValue::Object(
        seq![("code"@, SpecValue::String(code)), ("message"@, SpecValue::String(message))],
    )
}

/// A record of the given kind that holds a text.
pub open spec fn text_record(kind: EventKind, text: Seq<char>) -> SpecRecord {
    SpecRecord { kind, payload: SpecValue::String(text) }
}

/// The execution ends as failed: nothing else of it changes.
pub open spec fn fail_spec(
    e: SpecExecution,
    code: Seq<char>,
    cause: Seq<char>,
    records: Seq<SpecRecord>,
) -> SpecTransition {
    SpecTransition {
        execution: SpecExecution { status: SpecStatus::Failed { code, cause }, ..e },
        action: SpecAction::Finished,
        records: records.push(
            SpecRecord { kind: EventKind::ExecutionEnded, payload: failure_payload(code, cause) },
        ),
    }
}

/// The execution leaves its current state: for the state `next`, which it is then about to
/// enter, or, where there is none, for good, as succeeded.
pub open spec fn leave_spec(e: SpecExecution, next: Option<Seq<char>>, records: Seq<SpecRecord>)
    -> SpecTransition {
    let exited = records.push(text_record(EventKind::StateExited, e.current));
    match next {
        Some(target) => SpecTransition {
            execution: SpecExecution {
                current: target,
                phase: Phase::Entering,
                attempts: 0,
                branches: Seq::empty(),
                ..e
            },
            action: SpecAction::Continue,
            records: exited,
        },
        None => SpecTransition {
            execution: SpecExecution { status: SpecStatus::Succeeded, ..e },
            action: SpecAction::Finished,
            records: exited.push(text_record(EventKind::ExecutionEnded, "Succeeded"@)),
        },
    }
}

/// Whether a task that failed with `code` after the attempts of `e` is tried again.
pub open spec fn retries(e: SpecExecution, retry: Option<RetryPolicy>, code: Seq<char>) -> bool {
    retry matches Some(policy) && accepts(policy.matchers@, code) && e.attempts
        < policy.max_attempts
}

/// A task failed: it is tried again where its retry policy accepts the code and attempts are
/// left, after the delay of the retry whose number is that of the attempts made; else the first catch rule that accepts the code takes over, with the
/// failure in the context under `errors`; else the execution fails.
pub open spec fn task_failure_spec(
    e: SpecExecution,
    retry: Option<RetryPolicy>,
    catch: Seq<CatchRule>,
    code: Seq<char>,
    message: Seq<char>,
    records: Seq<SpecRecord>,
) -> SpecTransition {
    let failed = records.push(
        SpecRecord { kind: EventKind::TaskFailed, payload: failure_payload(code, message) },
    );
    if retries(e, retry, code) {
        let delay = backoff_delay(retry->0.backoff, e.attempts as nat);
        SpecTransition {
            execution: SpecExecution { phase: Phase::AwaitingRetry, ..e },
            action: SpecAction::Sleep { seconds: delay as u64 },
            records: failed.push(
                SpecRecord {
                    kind: EventKind::RetryScheduled,
                    payload: SpecValue::Number(SpecNumber::Int(delay as int)),
                },
            ),
        }
    } else {
        match catch_target(catch, code) {
            Some(target) => leave_spec(
                SpecExecution {
                    context: with_member(e.context, "errors"@, failure_payload(code, message)),
                    ..e
                },
                Some(target),
                failed,
            ),
            None => fail_spec(e, code, message, failed),
        }
    }
}

/// One more than `n`, as far as `u64` reaches.
pub open spec fn next_count(n: u64) -> u64 {
    if n < u64::MAX {
        (n + 1) as u64
    } else {
        n
    }
}

/// An attempt of the task `state` starts: its input is resolved and the handler is to be
/// invoked; where the input does not resolve, the task has failed.
pub open spec fn attempt_spec(
    version: Version,
    state: StateDefinition,
    e: SpecExecution,
    records: Seq<SpecRecord>,
) -> SpecTransition
    recommends
        state is Task,
{
    let started = SpecExecution { attempts: next_count(e.attempts), ..e };
    match resolve_spec(version, state->input@, e.context) {
        Ok(input) => SpecTransition {
            execution: SpecExecution { phase: Phase::AwaitingTask, ..started },
            action: SpecAction::InvokeTask {
                handler: state->handler@,
                input,
                timeout: state->timeout,
            },
            records: records.push(SpecRecord { kind: EventKind::InputResolved, payload: input })
                .push(text_record(EventKind::TaskInvoked, state->handler@)),
        },
        Err(err) => task_failure_spec(
            started,
            state->retry,
            state->catch@,
            err.code(),
            err.text(),
            records,
        ),
    }
}

/// The target of the first rule from index `i` on whose condition holds in the context; none
/// where no condition holds. A condition that does not resolve ends the search.
pub open spec fn choice_from(version: Version, rules: Seq<ChoiceRule>, context: SpecValue, i: int)
    -> Result<Option<Seq<char>>, SpecResolveError>
    decreases rules.len() - i,
{
    if i < 0 || i >= rules.len() {
        Ok(None)
    } else {
        match resolve_spec(version, rules[i].condition@, context) {
            Err(e) => Err(e),
            Ok(v) => if truthy(v) {
                Ok(Some(rules[i].target@))
            } else {
                choice_from(version, rules, context, i + 1)
            },
        }
    }
}

/// The view of an optional name.
pub open spec fn name_view(name: Option<String>) -> Option<Seq<char>> {
    match name {
        Some(n) => Some(n@),
        None => None,
    }
}

/// The slots of `count` branches of which none has ended.
pub open spec fn open_slots(count: nat) -> Seq<Option<SpecBranchOutcome>> {
    Seq::new(count, |i: int| None)
}

/// The execution enters the state `state`, its current one.
pub open spec fn enter_state_spec(version: Version, state: StateDefinition, e: SpecExecution)
    -> SpecTransition {
    let fresh = SpecExecution { attempts: 0, branches: Seq::empty(), ..e };
    let entered = seq![text_record(EventKind::StateEntered, e.current)];
    match state {
        StateDefinition::Task { .. } => attempt_spec(version, state, fresh, entered),
        StateDefinition::Choice { rules, default } => match choice_from(
            version,
            rules@,
            e.context,
            0,
        ) {
            Err(err) => fail_spec(fresh, err.code(), err.text(), entered),
            Ok(Some(target)) => leave_spec(fresh, Some(target), entered),
            Ok(None) => match default {
                Some(target) => leave_spec(fresh, Some(target@), entered),
                None => fail_spec(
                    fresh,
                    "DefinitionError"@,
                    "no condition of the choice holds and it has no default"@,
                    entered,
                ),
            },
        },
        StateDefinition::Parallel { branches, next } => if branches.len() == 0 {
            leave_spec(
                SpecExecution {
                    context: with_member(e.context, "result"@, SpecValue::Array(Seq::empty())),
                    ..fresh
                },
                name_view(next),
                entered,
            )
        } else {
            SpecTransition {
                execution: SpecExecution {
                    phase: Phase::AwaitingBranches,
                    branches: open_slots(branches.len() as nat),
                    ..fresh
                },
                action: SpecAction::StartBranches {
                    count: branches.len() as nat,
                    input: e.context,
                },
                records: entered,
            }
        },
        StateDefinition::Wait { until, next } => {
            let template = match until {
                WaitFor::Duration(t) => t,
                WaitFor::Timestamp(t) => t,
            };
            match resolve_spec(version, template@, e.context) {
                Err(err) => fail_spec(fresh, err.code(), err.text(), entered),
                Ok(v) => match seconds_of(v) {
                    None => fail_spec(
                        fresh,
                        "Template.InvalidArgument"@,
                        "a wait must resolve to a whole number of seconds"@,
                        entered,
                    ),
                    Some(amount) => SpecTransition {
                        execution: SpecExecution { phase: Phase::Waiting, ..fresh },
                        action: if until is Duration {
                            SpecAction::Sleep { seconds: amount }
                        } else {
                            SpecAction::SleepUntil { timestamp: amount }
                        },
                        records: entered,
                    },
                },
            }
        },
        StateDefinition::Succeed => leave_spec(fresh, None, entered),
        StateDefinition::Fail { error, cause } => {
            let exited = entered.push(text_record(EventKind::StateExited, e.current));
            match resolve_spec(version, cause@, e.context) {
                Err(err) => fail_spec(fresh, err.code(), err.text(), exited),
                Ok(v) => match scalar_text(v) {
                    Some(text) => fail_spec(fresh, error@, text, exited),
                    None => fail_spec(
                        fresh,
                        "Template.InvalidArgument"@,
                        "the cause of a failure must resolve to a scalar"@,
                        exited,
                    ),
                },
            }
        },
    }
}

/// Nothing changes, and `action` is to be done.
pub open spec fn stay_spec(e: SpecExecution, action: SpecAction) -> SpecTransition {
    SpecTransition { execution: e, action, records: Seq::empty() }
}

/// The diagnostic for a current state that the workflow does not hold.
pub open spec fn missing_state_message(name: Seq<char>) -> Seq<char> {
    "the workflow has no state named: "@ + name
}

/// The execution is in a state that the workflow does not hold, or that is not of the kind
/// that its phase asks for: it fails, and is not tried again.
pub open spec fn inconsistent_spec(e: SpecExecution) -> SpecTransition {
    fail_spec(e, "DefinitionError"@, missing_state_message(e.current), Seq::empty())
}

/// Whether every branch has ended.
pub open spec fn all_ended(slots: Seq<Option<SpecBranchOutcome>>) -> bool {
    forall|i: int| 0 <= i < slots.len() ==> (#[trigger] slots[i]) is Some
}

/// The index of the first branch from index `i` on that did not succeed.
pub open spec fn first_failure_from(slots: Seq<Option<SpecBranchOutcome>>, i: int) -> Option<int>
    decreases slots.len() - i,
{
    if i < 0 || i >= slots.len() {
        None
    } else if slots[i] matches Some(SpecBranchOutcome::Succeeded(_)) {
        first_failure_from(slots, i + 1)
    } else {
        Some(i)
    }
}

/// The output of a branch that succeeded; null for any other.
pub open spec fn branch_output(slot: Option<SpecBranchOutcome>) -> SpecValue {
    match slot {
        Some(SpecBranchOutcome::Succeeded(v)) => v,
        _ => SpecValue::Null,
    }
}

/// The outputs of the branches, in the order in which the branches are declared.
pub open spec fn branch_outputs(slots: Seq<Option<SpecBranchOutcome>>) -> Seq<SpecValue> {
    Seq::new(slots.len(), |i: int| branch_output(slots[i]))
}

/// The code under which a branch that did not succeed fails its parallel state.
pub open spec fn branch_failure_code(slot: Option<SpecBranchOutcome>) -> Seq<char> {
    match slot {
        Some(SpecBranchOutcome::Failed { code, .. }) => code,
        _ => "Branch.Aborted"@,
    }
}

/// The cause with which a branch that did not succeed fails its parallel state.
pub open spec fn branch_failure_cause(slot: Option<SpecBranchOutcome>) -> Seq<char> {
    match slot {
        Some(SpecBranchOutcome::Failed { cause, .. }) => cause,
        _ => "a branch did not run to its end"@,
    }
}

/// All branches have ended: where one did not succeed, the execution fails with the failure
/// of the first such branch; else the outputs become the result, and the state is left.
pub open spec fn join_spec(e: SpecExecution, next: Option<Seq<char>>) -> SpecTransition {
    match first_failure_from(e.branches, 0) {
        Some(i) => {
            let code = branch_failure_code(e.branches[i]);
            let cause = branch_failure_cause(e.branches[i]);
            fail_spec(
                e,
                code,
                cause,
                seq![
                    SpecRecord {
                        kind: EventKind::TaskFailed,
                        payload: failure_payload(code, cause),
                    },
                ],
            )
        },
        None => leave_spec(
            SpecExecution {
                context: with_member(
                    e.context,
                    "result"@,
                    SpecValue::Array(branch_outputs(e.branches)),
                ),
                ..e
            },
            next,
            Seq::empty(),
        ),
    }
}

/// A signal reaches an execution that is in the state `state`.
pub open spec fn react_spec(
    version: Version,
    state: StateDefinition,
    e: SpecExecution,
    signal: SpecSignal,
) -> SpecTransition {
    match (e.phase, signal) {
        (Phase::Entering, SpecSignal::Proceed) => enter_state_spec(version, state, e),
        (Phase::Entering, _) => stay_spec(e, SpecAction::Continue),
        (Phase::AwaitingTask, SpecSignal::TaskSucceeded(value)) => if state is Task {
            let succeeded = seq![SpecRecord { kind: EventKind::TaskSucceeded, payload: value }];
            match resolve_spec(version, state->output@, with_member(e.context, "result"@, value)) {
                Ok(output) => leave_spec(
                    SpecExecution { context: with_member(e.context, "result"@, output), ..e },
                    name_view(state->Task_next),
                    succeeded,
                ),
                Err(err) => task_failure_spec(
                    e,
                    state->retry,
                    state->catch@,
                    err.code(),
                    err.text(),
                    succeeded,
                ),
            }
        } else {
            inconsistent_spec(e)
        },
        (Phase::AwaitingTask, SpecSignal::TaskFailed { code, message }) => if state is Task {
            task_failure_spec(e, state->retry, state->catch@, code, message, Seq::empty())
        } else {
            inconsistent_spec(e)
        },
        (Phase::AwaitingRetry, SpecSignal::TimerElapsed) => if state is Task {
            attempt_spec(version, state, e, Seq::empty())
        } else {
            inconsistent_spec(e)
        },
        (Phase::Waiting, SpecSignal::TimerElapsed) => if state is Wait {
            leave_spec(e, name_view(state->Wait_next), Seq::empty())
        } else {
            inconsistent_spec(e)
        },
        (Phase::AwaitingBranches, SpecSignal::BranchFinished { index, outcome }) => if state
            is Parallel {
            if index < e.branches.len() && e.branches[index as int] is None {
                let filled = SpecExecution {
                    branches: e.branches.update(index as int, Some(outcome)),
                    ..e
                };
                if all_ended(filled.branches) {
                    join_spec(filled, name_view(state->Parallel_next))
                } else {
                    stay_spec(filled, SpecAction::Idle)
                }
            } else {
                stay_spec(e, SpecAction::Idle)
            }
        } else {
            inconsistent_spec(e)
        },
        _ => stay_spec(e, SpecAction::Idle),
    }
}

/// What one step makes of an execution and a signal.
///
/// An execution that has ended stays as it is. A running one is aborted by `Abort`, whatever
/// it is waiting for, and stays in its state. Any other signal is handed to the current
/// state; an execution whose current state the workflow does not hold fails.
pub open spec fn step_spec(definition: &WorkflowDefinition, e: SpecExecution, signal: SpecSignal)
    -> SpecTransition {
    if !(e.status is Running) {
        stay_spec(e, SpecAction::Finished)
    } else if signal is Abort {
        SpecTransition {
            execution: SpecExecution { status: SpecStatus::Aborted, ..e },
            action: SpecAction::Finished,
            records: seq![text_record(EventKind::ExecutionEnded, "Aborted"@)],
        }
    } else {
        match state_named(definition, e.current) {
            Some(state) => react_spec(definition.functions, state, e, signal),
            None => inconsistent_spec(e),
        }
    }
}

/// One step of an execution: the execution after it, what is to be done outside, and what is
/// to be written to the history.
#[derive(Debug)]
pub struct Transition {
    pub execution: Execution,
    pub action: Action,
    pub records: Vec<Record>,
}

impl View for Transition {
    type V = SpecTransition;

    open spec fn view(&self) -> SpecTransition {
        SpecTransition {
            execution: self.execution@,
            action: self.action@,
            records: record_views(self.records@),
        }
    }
}

fn failure_value(code: &str, message: &str) -> (out: Value)
    ensures
        out@ == failure_payload(code@, message@),
{
    let mut members: Vec<(String, Value)> = Vec::new();
    members.push((String::from_str("code"), Value::String(String::from_str(code))));
    members.push((String::from_str("message"), Value::String(String::from_str(message))));
    proof {
        lemma_object_view(members);
        assert(member_views(members@) =~= seq![
            ("code"@, SpecValue::String(code@)),
            ("message"@, SpecValue::String(message@)),
        ]);
    }
    Value::Object(members)
}

fn push_record(records: Vec<Record>, kind: EventKind, payload: Value) -> (out: Vec<Record>)
    ensures
        record_views(out@) == record_views(records@).push(SpecRecord { kind, payload: payload@ }),
{
    let mut out = records;
    out.push(Record { kind, payload });
    assert(record_views(out@) =~= record_views(records@).push(
        SpecRecord { kind, payload: payload@ },
    ));
    out
}

fn push_text(records: Vec<Record>, kind: EventKind, text: &str) -> (out: Vec<Record>)
    ensures
        record_views(out@) == record_views(records@).push(text_record(kind, text@)),
{
    push_record(records, kind, Value::String(String::from_str(text)))
}

fn no_records() -> (out: Vec<Record>)
    ensures
        record_views(out@) == Seq::<SpecRecord>::empty(),
{
    let out: Vec<Record> = Vec::new();
    assert(record_views(out@) =~= Seq::<SpecRecord>::empty());
    out
}

fn copy_name(name: &Option<String>) -> (out: Option<String>)
    ensures
        name_view(out) == name_view(*name),
{
    match name {
        Some(n) => Some(n.clone()),
        None => None,
    }
}

fn fail_with(e: Execution, code: String, cause: String, records: Vec<Record>) -> (t: Transition)
    ensures
        t@ == fail_spec(e@, code@, cause@, record_views(records@)),
{
    let payload = failure_value(code.as_str(), cause.as_str());
    let records = push_record(records, EventKind::ExecutionEnded, payload);
    Transition {
        execution: Execution { status: Status::Failed { code, cause }, ..e },
        action: Action::Finished,
        records,
    }
}

fn leave(e: Execution, next: Option<String>, records: Vec<Record>) -> (t: Transition)
    ensures
        t@ == leave_spec(e@, name_view(next), record_views(records@)),
{
    let records = push_text(records, EventKind::StateExited, e.current.as_str());
    match next {
        Some(target) => {
            let branches: Vec<Option<BranchOutcome>> = Vec::new();
            assert(slot_views(branches@) =~= Seq::empty());
            Transition {
                execution: Execution {
                    current: target,
                    phase: Phase::Entering,
                    attempts: 0,
                    branches,
                    ..e
                },
                action: Action::Continue,
                records,
            }
        },
        None => {
            let records = push_text(records, EventKind::ExecutionEnded, "Succeeded");
            Transition {
                execution: Execution { status: Status::Succeeded, ..e },
                action: Action::Finished,
                records,
            }
        },
    }
}

fn handle_task_failure(
    e: Execution,
    retry: &Option<RetryPolicy>,
    catch: &Vec<CatchRule>,
    code: String,
    message: String,
    records: Vec<Record>,
) -> (t: Transition)
    ensures
        t@ == task_failure_spec(e@, *retry, catch@, code@, message@, record_views(records@)),
{
    let records = push_record(
        records,
        EventKind::TaskFailed,
        failure_value(code.as_str(), message.as_str()),
    );
    let plan: Option<Backoff> = match retry {
        Some(policy) => if matches_code(&policy.matchers, code.as_str()) && e.attempts
            < policy.max_attempts {
            Some(policy.backoff)
        } else {
            None
        },
        None => None,
    };
    if let Some(backoff) = plan {
        let delay = delay_before_retry(backoff, e.attempts);
        let records = push_record(
            records,
            EventKind::RetryScheduled,
            Value::Number(Number::PosInt(delay)),
        );
        Transition {
            execution: Execution { phase: Phase::AwaitingRetry, ..e },
            action: Action::Sleep { seconds: delay },
            records,
        }
    } else {
        match find_catch(catch, code.as_str()) {
            Some(target) => {
                let Execution { id, current, context, status, phase, attempts, branches } = e;
                let context = set_member(
                    context,
                    "errors",
                    failure_value(code.as_str(), message.as_str()),
                );
                leave(
                    Execution { id, current, context, status, phase, attempts, branches },
                    Some(target),
                    records,
                )
            },
            None => fail_with(e, code, message, records),
        }
    }
}

fn start_attempt(version: Version, state: &StateDefinition, e: Execution, records: Vec<Record>) -> (t:
    Transition)
    requires
        state is Task,
    ensures
        t@ == attempt_spec(version, *state, e@, record_views(records@)),
{
    match state {
        StateDefinition::Task { handler, input, output, retry, catch, timeout, next } => {
            let attempts: u64 = if e.attempts < u64::MAX {
                e.attempts + 1
            } else {
                e.attempts
            };
            let started = Execution { attempts, ..e };
            match resolve(version, input, &started.context) {
                Ok(resolved) => {
                    let records = push_record(
                        records,
                        EventKind::InputResolved,
                        resolved.duplicate(),
                    );
                    let records = push_text(records, EventKind::TaskInvoked, handler.as_str());
                    Transition {
                        execution: Execution { phase: Phase::AwaitingTask, ..started },
                        action: Action::InvokeTask {
                            handler: handler.clone(),
                            input: resolved,
                            timeout: *timeout,
                        },
                        records,
                    }
                },
                Err(err) => handle_task_failure(
                    started,
                    retry,
                    catch,
                    err.code(),
                    err.to_string(),
                    records,
                ),
            }
        },
        _ => unreached(),
    }
}

/// The outcome of a choice as a mathematical value.
pub open spec fn choice_view(res: Result<Option<String>, ResolveError>) -> Result<
    Option<Seq<char>>,
    SpecResolveError,
> {
    match res {
        Ok(target) => Ok(name_view(target)),
        Err(e) => Err(e@),
    }
}

fn pick_target(version: Version, rules: &Vec<ChoiceRule>, context: &Value) -> (res: Result<
    Option<String>,
    ResolveError,
>)
    ensures
        choice_view(res) == choice_from(version, rules@, context@, 0),
{
    let mut i: usize = 0;
    while i < rules.len()
        invariant
            i <= rules.len(),
            choice_from(version, rules@, context@, 0) == choice_from(
                version,
                rules@,
                context@,
                i as int,
            ),
        decreases rules.len() - i,
    {
        match resolve(version, &rules[i].condition, context) {
            Err(e) => {
                return Err(e);
            },
            Ok(v) => {
                if is_truthy(&v) {
                    return Ok(Some(rules[i].target.clone()));
                }
            },
        }
        i = i + 1;
    }
    Ok(None)
}

fn open_branch_slots(count: usize) -> (slots: Vec<Option<BranchOutcome>>)
    ensures
        slot_views(slots@) == open_slots(count as nat),
{
    let mut slots: Vec<Option<BranchOutcome>> = Vec::new();
    let mut i: usize = 0;
    while i < count
        invariant
            i <= count,
            slots.len() == i,
            forall|k: int| 0 <= k < i ==> slots[k] is None,
        decreases count - i,
    {
        slots.push(None);
        i = i + 1;
    }
    assert(slot_views(slots@) =~= open_slots(count as nat));
    slots
}

fn enter_state(version: Version, state: &StateDefinition, e: Execution) -> (t: Transition)
    ensures
        t@ == enter_state_spec(version, *state, e@),
{
    let entered = push_text(no_records(), EventKind::StateEntered, e.current.as_str());
    assert(record_views(entered@) =~= seq![text_record(EventKind::StateEntered, e.current@)]);
    let Execution { id, current, context, status, phase, attempts: _, branches: _ } = e;
    let branches: Vec<Option<BranchOutcome>> = Vec::new();
    assert(slot_views(branches@) =~= Seq::empty());
    let fresh = Execution { id, current, context, status, phase, attempts: 0, branches };
    match state {
        StateDefinition::Task { .. } => start_attempt(version, state, fresh, entered),
        StateDefinition::Choice { rules, default } => match pick_target(version, rules, &fresh.context) {
            Err(err) => fail_with(fresh, err.code(), err.to_string(), entered),
            Ok(Some(target)) => leave(fresh, Some(target), entered),
            Ok(None) => match default {
                Some(target) => leave(fresh, Some(target.clone()), entered),
                None => fail_with(
                    fresh,
                    String::from_str("DefinitionError"),
                    String::from_str("no condition of the choice holds and it has no default"),
                    entered,
                ),
            },
        },
        StateDefinition::Parallel { branches, next } => {
            if branches.len() == 0 {
                let Execution { id, current, context, status, phase, attempts, branches } = fresh;
                let none: Vec<Value> = Vec::new();
                proof {
                    lemma_array_view(none);
                    assert(views(none@) =~= Seq::empty());
                }
                let context = set_member(context, "result", Value::Array(none));
                leave(
                    Execution { id, current, context, status, phase, attempts, branches },
                    copy_name(next),
                    entered,
                )
            } else {
                let input = fresh.context.duplicate();
                let Execution { id, current, context, status, phase: _, attempts, branches: _ } =
                    fresh;
                Transition {
                    execution: Execution {
                        id,
                        current,
                        context,
                        status,
                        phase: Phase::AwaitingBranches,
                        attempts,
                        branches: open_branch_slots(branches.len()),
                    },
                    action: Action::StartBranches { count: branches.len(), input },
                    records: entered,
                }
            }
        },
        StateDefinition::Wait { until, next } => {
            let template = match until {
                WaitFor::Duration(t) => t,
                WaitFor::Timestamp(t) => t,
            };
            match resolve(version, template, &fresh.context) {
                Err(err) => fail_with(fresh, err.code(), err.to_string(), entered),
                Ok(v) => match read_seconds(&v) {
                    None => fail_with(
                        fresh,
                        String::from_str("Template.InvalidArgument"),
                        String::from_str("a wait must resolve to a whole number of seconds"),
                        entered,
                    ),
                    Some(amount) => Transition {
                        execution: Execution { phase: Phase::Waiting, ..fresh },
                        action: match until {
                            WaitFor::Duration(_) => Action::Sleep { seconds: amount },
                            WaitFor::Timestamp(_) => Action::SleepUntil { timestamp: amount },
                        },
                        records: entered,
                    },
                },
            }
        },
        StateDefinition::Succeed => leave(fresh, None, entered),
        StateDefinition::Fail { error, cause } => {
            let exited = push_text(entered, EventKind::StateExited, fresh.current.as_str());
            match resolve(version, cause, &fresh.context) {
                Err(err) => fail_with(fresh, err.code(), err.to_string(), exited),
                Ok(v) => match render_scalar(&v) {
                    Some(text) => fail_with(fresh, error.clone(), text, exited),
                    None => fail_with(
                        fresh,
                        String::from_str("Template.InvalidArgument"),
                        String::from_str("the cause of a failure must resolve to a scalar"),
                        exited,
                    ),
                },
            }
        },
    }
}

fn stay(e: Execution, action: Action) -> (t: Transition)
    ensures
        t@ == stay_spec(e@, action@),
{
    Transition { execution: e, action, records: no_records() }
}

fn inconsistent(e: Execution) -> (t: Transition)
    ensures
        t@ == inconsistent_spec(e@),
{
    let message = String::from_str("the workflow has no state named: ").concat(e.current.as_str());
    fail_with(e, String::from_str("DefinitionError"), message, no_records())
}

fn all_slots_filled(slots: &Vec<Option<BranchOutcome>>) -> (b: bool)
    ensures
        b == all_ended(slot_views(slots@)),
{
    let mut i: usize = 0;
    while i < slots.len()
        invariant
            i <= slots.len(),
            forall|k: int| 0 <= k < i ==> (#[trigger] slot_views(slots@)[k]) is Some,
        decreases slots.len() - i,
    {
        if slots[i].is_none() {
            assert(slot_views(slots@)[i as int] is None);
            return false;
        }
        i = i + 1;
    }
    true
}

fn join(e: Execution, next: &Option<String>) -> (t: Transition)
    ensures
        t@ == join_spec(e@, name_view(*next)),
{
    let ghost slots = slot_views(e.branches@);
    let mut i: usize = 0;
    while i < e.branches.len()
        invariant
            i <= e.branches.len(),
            slots == slot_views(e.branches@),
            first_failure_from(slots, 0) == first_failure_from(slots, i as int),
        decreases e.branches.len() - i,
    {
        assert(slots[i as int] == slot_view(e.branches[i as int]));
        match &e.branches[i] {
            Some(BranchOutcome::Succeeded(_)) => {},
            Some(BranchOutcome::Failed { code, cause }) => {
                let code = code.clone();
                let cause = cause.clone();
                let records = push_record(
                    no_records(),
                    EventKind::TaskFailed,
                    failure_value(code.as_str(), cause.as_str()),
                );
                assert(record_views(records@) =~= seq![
                    SpecRecord {
                        kind: EventKind::TaskFailed,
                        payload: failure_payload(code@, cause@),
                    },
                ]);
                return fail_with(e, code, cause, records);
            },
            _ => {
                let code = String::from_str("Branch.Aborted");
                let cause = String::from_str("a branch did not run to its end");
                let records = push_record(
                    no_records(),
                    EventKind::TaskFailed,
                    failure_value(code.as_str(), cause.as_str()),
                );
                assert(record_views(records@) =~= seq![
                    SpecRecord {
                        kind: EventKind::TaskFailed,
                        payload: failure_payload(code@, cause@),
                    },
                ]);
                return fail_with(e, code, cause, records);
            },
        }
        i = i + 1;
    }
    let mut outputs: Vec<Value> = Vec::new();
    let mut k: usize = 0;
    while k < e.branches.len()
        invariant
            k <= e.branches.len(),
            outputs.len() == k,
            slots == slot_views(e.branches@),
            forall|j: int| 0 <= j < k ==> outputs[j]@ == branch_output(slots[j]),
        decreases e.branches.len() - k,
    {
        assert(slots[k as int] == slot_view(e.branches[k as int]));
        let output = match &e.branches[k] {
            Some(BranchOutcome::Succeeded(v)) => v.duplicate(),
            _ => Value::Null,
        };
        outputs.push(output);
        k = k + 1;
    }
    proof {
        lemma_array_view(outputs);
        assert(views(outputs@) =~= branch_outputs(slots));
    }
    let Execution { id, current, context, status, phase, attempts, branches } = e;
    let context = set_member(context, "result", Value::Array(outputs));
    leave(
        Execution { id, current, context, status, phase, attempts, branches },
        copy_name(next),
        no_records(),
    )
}

fn react(version: Version, state: &StateDefinition, e: Execution, signal: Signal) -> (t: Transition)
    ensures
        t@ == react_spec(version, *state, e@, signal@),
{
    match e.phase {
        Phase::Entering => match signal {
            Signal::Proceed => enter_state(version, state, e),
            _ => stay(e, Action::Continue),
        },
        Phase::AwaitingTask => match signal {
            Signal::TaskSucceeded(value) => match state {
                StateDefinition::Task { output, retry, catch, next, .. } => {
                    let succeeded = push_record(
                        no_records(),
                        EventKind::TaskSucceeded,
                        value.duplicate(),
                    );
                    assert(record_views(succeeded@) =~= seq![
                        SpecRecord { kind: EventKind::TaskSucceeded, payload: value@ },
                    ]);
                    let with_result = set_member(e.context.duplicate(), "result", value);
                    match resolve(version, output, &with_result) {
                        Ok(resolved) => {
                            let Execution {
                                id,
                                current,
                                context,
                                status,
                                phase,
                                attempts,
                                branches,
                            } = e;
                            let context = set_member(context, "result", resolved);
                            leave(
                                Execution {
                                    id,
                                    current,
                                    context,
                                    status,
                                    phase,
                                    attempts,
                                    branches,
                                },
                                copy_name(next),
                                succeeded,
                            )
                        },
                        Err(err) => handle_task_failure(
                            e,
                            retry,
                            catch,
                            err.code(),
                            err.to_string(),
                            succeeded,
                        ),
                    }
                },
                _ => inconsistent(e),
            },
            Signal::TaskFailed { code, message } => match state {
                StateDefinition::Task { retry, catch, .. } => handle_task_failure(
                    e,
                    retry,
                    catch,
                    code,
                    message,
                    no_records(),
                ),
                _ => inconsistent(e),
            },
            _ => stay(e, Action::Idle),
        },
        Phase::AwaitingRetry => match signal {
            Signal::TimerElapsed => match state {
                StateDefinition::Task { .. } => start_attempt(version, state, e, no_records()),
                _ => inconsistent(e),
            },
            _ => stay(e, Action::Idle),
        },
        Phase::Waiting => match signal {
            Signal::TimerElapsed => match state {
                StateDefinition::Wait { next, .. } => leave(e, copy_name(next), no_records()),
                _ => inconsistent(e),
            },
            _ => stay(e, Action::Idle),
        },
        Phase::AwaitingBranches => match signal {
            Signal::BranchFinished { index, outcome } => match state {
                StateDefinition::Parallel { next, .. } => {
                    if index < e.branches.len() && e.branches[index].is_none() {
                        let ghost before = slot_views(e.branches@);
                        let Execution {
                            id,
                            current,
                            context,
                            status,
                            phase,
                            attempts,
                            branches,
                        } = e;
                        let mut branches = branches;
                        let ghost ended = outcome@;
                        branches.set(index, Some(outcome));
                        assert(slot_views(branches@) =~= before.update(index as int, Some(ended)));
                        let filled = Execution {
                            id,
                            current,
                            context,
                            status,
                            phase,
                            attempts,
                            branches,
                        };
                        if all_slots_filled(&filled.branches) {
                            join(filled, next)
                        } else {
                            stay(filled, Action::Idle)
                        }
                    } else {
                        assert(index < e.branches.len() ==> slot_views(e.branches@)[index as int]
                            == slot_view(e.branches[index as int]));
                        stay(e, Action::Idle)
                    }
                },
                _ => inconsistent(e),
            },
            _ => stay(e, Action::Idle),
        },
    }
}

/// Takes one step of an execution of the workflow `definition`.
///
/// The step consumes one signal from outside and says what is to be done there next. It
/// never waits itself: whoever drives the execution performs the action, and steps again
/// with the signal that tells how the action ended.
pub fn step(definition: &WorkflowDefinition, execution: Execution, signal: Signal) -> (t: Transition)
    ensures
        t@ == step_spec(definition, execution@, signal@),
{
    if !matches!(execution.status, Status::Running) {
        return stay(execution, Action::Finished);
    }
    if matches!(signal, Signal::Abort) {
        let records = push_text(no_records(), EventKind::ExecutionEnded, "Aborted");
        assert(record_views(records@) =~= seq![text_record(EventKind::ExecutionEnded, "Aborted"@)]);
        return Transition {
            execution: Execution { status: Status::Aborted, ..execution },
            action: Action::Finished,
            records,
        };
    }
    match find_state(definition, execution.current.as_str()) {
        Some(state) => react(definition.functions, state, execution, signal),
        None => inconsistent(execution),
    }
}

/// The context `context` with each of the constants from index `i` on put under its name, in
/// order.
pub open spec fn with_constants(
    context: SpecValue,
    constants: Seq<(Seq<char>, SpecValue)>,
    i: int,
) -> SpecValue
    decreases constants.len() - i,
{
    if i < 0 || i >= constants.len() {
        context
    } else {
        with_constants(with_member(context, constants[i].0, constants[i].1), constants, i + 1)
    }
}

/// The context of a run that has not entered a state yet: the input under `input`, and each
/// constant of the workflow under its name. A constant named `input` takes the place of the
/// input.
pub open spec fn initial_context(input: SpecValue, constants: Seq<(Seq<char>, SpecValue)>)
    -> SpecValue {
    with_constants(SpecValue::Object(seq![("input"@, input)]), constants, 0)
}

/// A run of `definition` on `input` that is about to enter the start state.
pub fn start(id: String, definition: &WorkflowDefinition, input: Value) -> (e: Execution)
    ensures
        e@ == (SpecExecution {
            id: id@,
            current: definition.start_at@,
            context: initial_context(input@, member_views(definition.constants@)),
            status: SpecStatus::Running,
            phase: Phase::Entering,
            attempts: 0,
            branches: Seq::empty(),
        }),
{
    let mut members: Vec<(String, Value)> = Vec::new();
    members.push((String::from_str("input"), input));
    proof {
        lemma_object_view(members);
        assert(member_views(members@) =~= seq![("input"@, input@)]);
    }
    let mut context = Value::Object(members);
    let ghost constants = member_views(definition.constants@);
    let mut i: usize = 0;
    while i < definition.constants.len()
        invariant
            i <= definition.constants.len(),
            constants == member_views(definition.constants@),
            initial_context(input@, constants) == with_constants(context@, constants, i as int),
        decreases definition.constants.len() - i,
    {
        let constant = &definition.constants[i];
        context = set_member(context, constant.0.as_str(), constant.1.duplicate());
        i = i + 1;
    }
    let branches: Vec<Option<BranchOutcome>> = Vec::new();
    assert(slot_views(branches@) =~= Seq::empty());
    Execution {
        id,
        current: definition.start_at.clone(),
        context,
        status: Status::Running,
        phase: Phase::Entering,
        attempts: 0,
        branches,
    }
}

/// What an execution shows to whoever inspects it, as a mathematical value.
pub struct SpecSnapshot {
    pub status: SpecStatus,
    pub context: SpecValue,
}

/// What an execution shows to whoever inspects it: its status and a copy of its context.
#[derive(Debug)]
pub struct Snapshot {
    pub status: Status,
    pub context: Value,
}

impl View for Snapshot {
    type V = SpecSnapshot;

    open spec fn view(&self) -> SpecSnapshot {
        SpecSnapshot { status: self.status@, context: self.context@ }
    }
}

/// The status of an execution and a copy of its context, as they stand.
pub fn snapshot(execution: &Execution) -> (out: Snapshot)
    ensures
        out@ == (SpecSnapshot { status: execution@.status, context: execution@.context }),
{
    let status = match &execution.status {
        Status::Running => Status::Running,
        Status::Succeeded => Status::Succeeded,
        Status::Failed { code, cause } => Status::Failed {
            code: code.clone(),
            cause: cause.clone(),
        },
        Status::Aborted => Status::Aborted,
    };
    Snapshot { status, context: execution.context.duplicate() }
}

} // verus!
