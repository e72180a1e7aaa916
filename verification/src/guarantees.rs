use crate::executor::all_ended;
use crate::executor::attempt_spec;
use crate::executor::enter_state_spec;
use crate::executor::leave_spec;
use crate::executor::react_spec;
use crate::executor::task_failure_spec;
use crate::function_registry::Version;
use crate::state_machine::CatchRule;
use crate::state_machine::RetryPolicy;
use crate::executor::branch_failure_cause;
use crate::executor::branch_failure_code;
use crate::executor::branch_outputs;
use crate::executor::choice_from;
use crate::executor::failure_payload;
use crate::executor::first_failure_from;
use crate::executor::name_view;
use crate::executor::retries;
use crate::executor::step_spec;
use crate::executor::text_record;
use crate::payload_template::resolve_spec;
use crate::state_machine::backoff_delay;
use crate::state_machine::catch_target;
use crate::state_machine::state_named;
use crate::state_machine::Phase;
use crate::state_machine::SpecAction;
use crate::state_machine::SpecBranchOutcome;
use crate::state_machine::SpecExecution;
use crate::state_machine::SpecSignal;
use crate::state_machine::SpecStatus;
use crate::state_machine::StateDefinition;
use crate::state_machine::WorkflowDefinition;
use crate::value::with_member;
use crate::value::SpecValue;
use crate::workflow_executions::EventKind;
use crate::workflow_executions::SpecRecord;
use vstd::prelude::*;

verus! {

/// An execution that has ended stays as it is, whatever reaches it: nothing of it changes,
/// nothing is recorded, and nothing is left to do.
pub proof fn lemma_ended_is_final(
    definition: &WorkflowDefinition,
    e: SpecExecution,
    signal: SpecSignal,
)
    requires
        !(e.status is Running),
    ensures
        step_spec(definition, e, signal).execution == e,
        step_spec(definition, e, signal).action is Finished,
        step_spec(definition, e, signal).records.len() == 0,
{
}

/// Aborting a running execution ends it as aborted in the state it is in, whatever it is
/// waiting for: it does not advance to any target, its context is untouched, and the end is
/// recorded.
pub proof fn lemma_abort_stays_in_state(definition: &WorkflowDefinition, e: SpecExecution)
    requires
        e.status is Running,
    ensures
        step_spec(definition, e, SpecSignal::Abort).execution == (SpecExecution {
            status: SpecStatus::Aborted,
            ..e
        }),
        step_spec(definition, e, SpecSignal::Abort).action is Finished,
        step_spec(definition, e, SpecSignal::Abort).records == seq![
            text_record(EventKind::ExecutionEnded, "Aborted"@),
        ],
{
}

/// An execution that was aborted while it waited does not go on when the delay is over.
pub proof fn lemma_abort_outlasts_timer(definition: &WorkflowDefinition, e: SpecExecution)
    requires
        e.status is Running,
        e.phase is Waiting,
    ensures
        ({
            let aborted = step_spec(definition, e, SpecSignal::Abort).execution;
            let later = step_spec(definition, aborted, SpecSignal::TimerElapsed).execution;
            later.status is Aborted && later.current == e.current && later.phase is Waiting
        }),
{
}

/// The branch slots after a branch has reported its end: the report fills the slot of its
/// branch if that slot exists and is empty, and is ignored otherwise.
pub open spec fn slots_after(
    slots: Seq<Option<SpecBranchOutcome>>,
    index: nat,
    outcome: SpecBranchOutcome,
) -> Seq<Option<SpecBranchOutcome>> {
    if index < slots.len() && slots[index as int] is None {
        slots.update(index as int, Some(outcome))
    } else {
        slots
    }
}

/// While a branch of a parallel state still runs, the state is not left and nothing is
/// reported, whether or not a branch that has ended did fail.
pub proof fn lemma_join_waits_for_all_branches(
    definition: &WorkflowDefinition,
    e: SpecExecution,
    index: nat,
    outcome: SpecBranchOutcome,
)
    requires
        e.status is Running,
        e.phase is AwaitingBranches,
        state_named(definition, e.current) matches Some(state) && state is Parallel,
        !all_ended(slots_after(e.branches, index, outcome)),
    ensures
        ({
            let t = step_spec(definition, e, SpecSignal::BranchFinished { index, outcome });
            &&& t.execution == (SpecExecution {
                branches: slots_after(e.branches, index, outcome),
                ..e
            })
            &&& t.action is Idle
            &&& t.records.len() == 0
        }),
{
}

/// Some branch did not succeed exactly where a first such branch is found, and that one is the
/// first in the order of declaration.
pub proof fn lemma_first_failure(slots: Seq<Option<SpecBranchOutcome>>, i: int)
    requires
        0 <= i <= slots.len(),
    ensures
        match first_failure_from(slots, i) {
            Some(k) => i <= k < slots.len() && !(slots[k] matches Some(
                SpecBranchOutcome::Succeeded(_),
            )) && forall|j: int|
                i <= j < k ==> (#[trigger] slots[j]) matches Some(SpecBranchOutcome::Succeeded(_)),
            None => forall|j: int|
                i <= j < slots.len() ==> (#[trigger] slots[j]) matches Some(
                    SpecBranchOutcome::Succeeded(_),
                ),
        },
    decreases slots.len() - i,
{
    if i < slots.len() && slots[i] matches Some(SpecBranchOutcome::Succeeded(_)) {
        lemma_first_failure(slots, i + 1);
    }
}

/// When the last branch of a parallel state ends and some branch did not succeed, the
/// execution fails, with the failure of the first such branch in the order of declaration.
pub proof fn lemma_join_reports_failure(
    definition: &WorkflowDefinition,
    e: SpecExecution,
    index: nat,
    outcome: SpecBranchOutcome,
    failed: int,
)
    requires
        e.status is Running,
        e.phase is AwaitingBranches,
        state_named(definition, e.current) matches Some(state) && state is Parallel,
        index < e.branches.len(),
        e.branches[index as int] is None,
        all_ended(slots_after(e.branches, index, outcome)),
        0 <= failed < e.branches.len(),
        !(slots_after(e.branches, index, outcome)[failed] matches Some(
            SpecBranchOutcome::Succeeded(_),
        )),
    ensures
        ({
            let slots = slots_after(e.branches, index, outcome);
            let t = step_spec(definition, e, SpecSignal::BranchFinished { index, outcome });
            &&& first_failure_from(slots, 0) matches Some(first) && first <= failed
            &&& t.execution.status == (SpecStatus::Failed {
                code: branch_failure_code(slots[first_failure_from(slots, 0)->0]),
                cause: branch_failure_cause(slots[first_failure_from(slots, 0)->0]),
            })
            &&& t.execution.current == e.current
            &&& t.action is Finished
        }),
{
    let slots = slots_after(e.branches, index, outcome);
    lemma_first_failure(slots, 0);
}

/// When the last branch of a parallel state ends and all branches succeeded, the result in
/// the context is the sequence of their outputs, in the order in which the branches are
/// declared, and the state is left for its target.
pub proof fn lemma_join_collects_outputs(
    definition: &WorkflowDefinition,
    e: SpecExecution,
    index: nat,
    outcome: SpecBranchOutcome,
)
    requires
        e.status is Running,
        e.phase is AwaitingBranches,
        state_named(definition, e.current) matches Some(state) && state is Parallel,
        index < e.branches.len(),
        e.branches[index as int] is None,
        forall|j: int|
            0 <= j < e.branches.len() ==> (#[trigger] slots_after(e.branches, index, outcome)[j])
                matches Some(SpecBranchOutcome::Succeeded(_)),
    ensures
        ({
            let slots = slots_after(e.branches, index, outcome);
            let t = step_spec(definition, e, SpecSignal::BranchFinished { index, outcome });
            &&& t.execution.context == with_member(
                e.context,
                "result"@,
                SpecValue::Array(branch_outputs(slots)),
            )
            &&& branch_outputs(slots).len() == e.branches.len()
            &&& !(t.execution.status is Failed)
            &&& match name_view(state_named(definition, e.current)->0->Parallel_next) {
                Some(target) => t.execution.current == target && t.execution.phase is Entering
                    && t.execution.status is Running,
                None => t.execution.status is Succeeded,
            }
        }),
{
    let slots = slots_after(e.branches, index, outcome);
    lemma_first_failure(slots, 0);
    assert(all_ended(slots)) by {
        assert forall|j: int| 0 <= j < slots.len() implies (#[trigger] slots[j]) is Some by {}
    }
}

/// A task that fails with a code that its retry policy accepts is tried again while attempts
/// are left: the execution stays in the state and waits for the delay of that retry. Once
/// the attempts are used up, or for any other code, it is not tried again: the first catch
/// rule that accepts the code takes over, and without one the execution fails with the
/// failure of the task.
pub proof fn lemma_retry_until_exhausted(
    definition: &WorkflowDefinition,
    e: SpecExecution,
    code: Seq<char>,
    message: Seq<char>,
)
    requires
        e.status is Running,
        e.phase is AwaitingTask,
        state_named(definition, e.current) matches Some(state) && state is Task,
    ensures
        ({
            let state = state_named(definition, e.current)->0;
            let t = step_spec(definition, e, SpecSignal::TaskFailed { code, message });
            if retries(e, state->retry, code) {
                &&& t.execution == (SpecExecution { phase: Phase::AwaitingRetry, ..e })
                &&& t.action == (SpecAction::Sleep {
                    seconds: backoff_delay(state->retry->0.backoff, e.attempts as nat) as u64,
                })
                &&& t.records.len() == 2
                &&& t.records[0].kind == EventKind::TaskFailed
                &&& t.records[1].kind == EventKind::RetryScheduled
            } else {
                match catch_target(state->catch@, code) {
                    Some(target) => t.execution.status is Running && t.execution.current == target
                        && t.execution.phase is Entering && t.action is Continue,
                    None => t.execution.status == (SpecStatus::Failed { code, cause: message })
                        && t.execution.current == e.current && t.action is Finished,
                }
            }
        }),
{
}

/// The number of invocations that a history records for the state that the execution is in:
/// the `TaskInvoked` records after the last record of a state being entered or left.
pub open spec fn invocations_recorded(history: Seq<SpecRecord>) -> nat
    decreases history.len(),
{
    if history.len() == 0 {
        0
    } else {
        match history.last().kind {
            EventKind::StateEntered => 0,
            EventKind::StateExited => 0,
            EventKind::TaskInvoked => invocations_recorded(history.drop_last()) + 1,
            _ => invocations_recorded(history.drop_last()),
        }
    }
}

/// Whether the input of the current state resolves in the context of the execution; true
/// of a state that is no task, which has no input.
pub open spec fn input_resolves(definition: &WorkflowDefinition, e: SpecExecution) -> bool {
    match state_named(definition, e.current) {
        Some(state) => state is Task ==> resolve_spec(
            definition.functions,
            state->input@,
            e.context,
        ) is Ok,
        None => true,
    }
}

proof fn lemma_count_after_push(history: Seq<SpecRecord>, records: Seq<SpecRecord>, r: SpecRecord)
    ensures
        invocations_recorded(history + records.push(r)) == (match r.kind {
            EventKind::StateEntered => 0,
            EventKind::StateExited => 0,
            EventKind::TaskInvoked => invocations_recorded(history + records) + 1,
            _ => invocations_recorded(history + records),
        }),
{
    let all = history + records.push(r);
    assert(all.drop_last() =~= history + records);
    assert(all.last() == r);
}

proof fn lemma_count_after_leave(
    history: Seq<SpecRecord>,
    e: SpecExecution,
    next: Option<Seq<char>>,
    records: Seq<SpecRecord>,
)
    requires
        e.status is Running,
    ensures
        ({
            let t = leave_spec(e, next, records);
            t.execution.status is Running ==> invocations_recorded(history + t.records)
                == t.execution.attempts
        }),
{
    lemma_count_after_push(history, records, text_record(EventKind::StateExited, e.current));
}

proof fn lemma_count_after_failure(
    history: Seq<SpecRecord>,
    e: SpecExecution,
    retry: Option<RetryPolicy>,
    catch: Seq<CatchRule>,
    code: Seq<char>,
    message: Seq<char>,
    records: Seq<SpecRecord>,
)
    requires
        e.status is Running,
        invocations_recorded(history + records) == e.attempts,
    ensures
        ({
            let t = task_failure_spec(e, retry, catch, code, message, records);
            t.execution.status is Running ==> invocations_recorded(history + t.records)
                == t.execution.attempts
        }),
{
    let t = task_failure_spec(e, retry, catch, code, message, records);
    let failed_record = SpecRecord {
        kind: EventKind::TaskFailed,
        payload: failure_payload(code, message),
    };
    let failed = records.push(failed_record);
    lemma_count_after_push(history, records, failed_record);
    if retries(e, retry, code) {
        lemma_count_after_push(history, failed, t.records.last());
        assert(t.records.drop_last() =~= failed);
        assert(t.records =~= failed.push(t.records.last()));
    } else {
        match catch_target(catch, code) {
            Some(target) => {
                lemma_count_after_leave(
                    history,
                    SpecExecution {
                        context: with_member(
                            e.context,
                            "errors"@,
                            failure_payload(code, message),
                        ),
                        ..e
                    },
                    Some(target),
                    failed,
                );
            },
            None => {},
        }
    }
}

proof fn lemma_count_after_attempt(
    history: Seq<SpecRecord>,
    version: Version,
    state: StateDefinition,
    e: SpecExecution,
    records: Seq<SpecRecord>,
)
    requires
        state is Task,
        e.status is Running,
        e.attempts < u64::MAX,
        invocations_recorded(history + records) == e.attempts,
        resolve_spec(version, state->input@, e.context) is Ok,
    ensures
        ({
            let t = attempt_spec(version, state, e, records);
            t.execution.status is Running && invocations_recorded(history + t.records)
                == t.execution.attempts && t.execution.attempts == e.attempts + 1
        }),
{
    let input = resolve_spec(version, state->input@, e.context)->Ok_0;
    let resolved = SpecRecord { kind: EventKind::InputResolved, payload: input };
    lemma_count_after_push(history, records, resolved);
    lemma_count_after_push(
        history,
        records.push(resolved),
        text_record(EventKind::TaskInvoked, state->handler@),
    );
}

/// While an execution runs, its count of attempts is the number of invocations that its
/// history records for the state it is in: a step that keeps the two equal where they were
/// equal before. This holds where the input of the current task resolves, so that every
/// attempt reaches the handler.
pub proof fn lemma_invocations_equal_attempts(
    definition: &WorkflowDefinition,
    e: SpecExecution,
    signal: SpecSignal,
    history: Seq<SpecRecord>,
)
    requires
        invocations_recorded(history) == e.attempts,
        e.attempts < u64::MAX,
        input_resolves(definition, e),
    ensures
        ({
            let t = step_spec(definition, e, signal);
            t.execution.status is Running ==> invocations_recorded(history + t.records)
                == t.execution.attempts
        }),
{
    let t = step_spec(definition, e, signal);
    let none = Seq::<SpecRecord>::empty();
    assert(history + none =~= history);
    if e.status is Running && !(signal is Abort) {
        if let Some(state) = state_named(definition, e.current) {
            let version = definition.functions;
            assert(t == react_spec(version, state, e, signal));
            match (e.phase, signal) {
                (Phase::Entering, SpecSignal::Proceed) => {
                    lemma_count_after_enter(history, version, state, e);
                },
                (Phase::AwaitingTask, SpecSignal::TaskSucceeded(value)) => {
                    if state is Task {
                        let record = SpecRecord { kind: EventKind::TaskSucceeded, payload: value };
                        let succeeded = seq![record];
                        assert(succeeded =~= none.push(record));
                        lemma_count_after_push(history, none, record);
                        match resolve_spec(
                            version,
                            state->output@,
                            with_member(e.context, "result"@, value),
                        ) {
                            Ok(output) => {
                                lemma_count_after_leave(
                                    history,
                                    SpecExecution {
                                        context: with_member(e.context, "result"@, output),
                                        ..e
                                    },
                                    name_view(state->Task_next),
                                    succeeded,
                                );
                            },
                            Err(err) => {
                                lemma_count_after_failure(
                                    history,
                                    e,
                                    state->retry,
                                    state->catch@,
                                    err.code(),
                                    err.text(),
                                    succeeded,
                                );
                            },
                        }
                    }
                },
                (Phase::AwaitingTask, SpecSignal::TaskFailed { code, message }) => {
                    if state is Task {
                        lemma_count_after_failure(
                            history,
                            e,
                            state->retry,
                            state->catch@,
                            code,
                            message,
                            none,
                        );
                    }
                },
                (Phase::AwaitingRetry, SpecSignal::TimerElapsed) => {
                    if state is Task {
                        lemma_count_after_attempt(history, version, state, e, none);
                    }
                },
                (Phase::Waiting, SpecSignal::TimerElapsed) => {
                    if state is Wait {
                        lemma_count_after_leave(history, e, name_view(state->Wait_next), none);
                    }
                },
                (Phase::AwaitingBranches, SpecSignal::BranchFinished { index, outcome }) => {
                    if state is Parallel && index < e.branches.len() && e.branches[index as int]
                        is None {
                        let filled = SpecExecution {
                            branches: e.branches.update(index as int, Some(outcome)),
                            ..e
                        };
                        if all_ended(filled.branches) {
                            if first_failure_from(filled.branches, 0) is None {
                                lemma_count_after_leave(
                                    history,
                                    SpecExecution {
                                        context: with_member(
                                            filled.context,
                                            "result"@,
                                            SpecValue::Array(branch_outputs(filled.branches)),
                                        ),
                                        ..filled
                                    },
                                    name_view(state->Parallel_next),
                                    none,
                                );
                            }
                        }
                    }
                },
                _ => {},
            }
        }
    }
}

proof fn lemma_count_after_enter(
    history: Seq<SpecRecord>,
    version: Version,
    state: StateDefinition,
    e: SpecExecution,
)
    requires
        e.status is Running,
        state is Task ==> resolve_spec(version, state->input@, e.context) is Ok,
    ensures
        ({
            let t = enter_state_spec(version, state, e);
            t.execution.status is Running ==> invocations_recorded(history + t.records)
                == t.execution.attempts
        }),
{
    let t = enter_state_spec(version, state, e);
    let fresh = SpecExecution { attempts: 0, branches: Seq::empty(), ..e };
    let none = Seq::<SpecRecord>::empty();
    let record = text_record(EventKind::StateEntered, e.current);
    let entered = seq![record];
    assert(entered =~= none.push(record));
    lemma_count_after_push(history, none, record);
    match state {
        StateDefinition::Task { .. } => {
            lemma_count_after_attempt(history, version, state, fresh, entered);
        },
        StateDefinition::Choice { rules, default } => {
            match choice_from(version, rules@, e.context, 0) {
                Ok(Some(target)) => {
                    lemma_count_after_leave(history, fresh, Some(target), entered);
                },
                Ok(None) => {
                    if let Some(target) = default {
                        lemma_count_after_leave(history, fresh, Some(target@), entered);
                    }
                },
                Err(_) => {},
            }
        },
        StateDefinition::Parallel { branches, next } => {
            if branches.len() == 0 {
                lemma_count_after_leave(
                    history,
                    SpecExecution {
                        context: with_member(e.context, "result"@, SpecValue::Array(Seq::empty())),
                        ..fresh
                    },
                    name_view(next),
                    entered,
                );
            }
        },
        StateDefinition::Wait { .. } => {},
        StateDefinition::Succeed => {},
        StateDefinition::Fail { .. } => {},
    }
}

/// The most attempts that a task with the given retry policy is given: those of the policy,
/// and one where there is no policy or the policy grants none.
pub open spec fn attempts_granted(retry: Option<RetryPolicy>) -> nat {
    match retry {
        Some(policy) => if policy.max_attempts >= 1 {
            policy.max_attempts as nat
        } else {
            1
        },
        None => 1,
    }
}

/// Whether the attempts made on the current task of a running execution are within those
/// that it is given: at most as many while an attempt is under way, and fewer while the next
/// one is waited for.
pub open spec fn within_cap(definition: &WorkflowDefinition, e: SpecExecution) -> bool {
    match state_named(definition, e.current) {
        Some(state) => state is Task && e.status is Running ==> {
            &&& e.phase is AwaitingTask ==> e.attempts <= attempts_granted(state->retry)
            &&& e.phase is AwaitingRetry ==> e.attempts < attempts_granted(state->retry)
        },
        None => true,
    }
}

/// A task is never attempted more often than its retry policy grants: a step keeps the
/// attempts within the cap.
pub proof fn lemma_attempts_stay_within_cap(
    definition: &WorkflowDefinition,
    e: SpecExecution,
    signal: SpecSignal,
)
    requires
        within_cap(definition, e),
    ensures
        within_cap(definition, step_spec(definition, e, signal).execution),
{
    let t = step_spec(definition, e, signal);
    if e.status is Running && !(signal is Abort) {
        if let Some(state) = state_named(definition, e.current) {
            assert(t == react_spec(definition.functions, state, e, signal));
            if t.execution.current == e.current {
                assert(state_named(definition, t.execution.current) == Some(state));
            }
        }
    }
}

} // verus!
