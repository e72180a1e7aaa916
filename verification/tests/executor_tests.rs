use celerity_runtime_workflow::executor::{snapshot, start, step, Transition};
use celerity_runtime_workflow::function_registry::Version;
use celerity_runtime_workflow::state_machine::{
    delay_before_retry, Action, Backoff, BranchOutcome, CatchRule, ChoiceRule, Execution, Phase,
    RetryPolicy, Signal, StateDefinition, Status, WaitFor, WorkflowDefinition,
};
use celerity_runtime_workflow::value::{Number, Value};
use celerity_runtime_workflow::workflow_executions::{EventKind, ExecutionStore, Record};

fn string(text: &str) -> Value {
    Value::String(text.to_string())
}

fn object(members: Vec<(&str, Value)>) -> Value {
    Value::Object(
        members
            .into_iter()
            .map(|(name, value)| (name.to_string(), value))
            .collect(),
    )
}

fn show<T: std::fmt::Debug>(value: &T) -> String {
    format!("{:?}", value)
}

fn kinds(records: &[Record]) -> Vec<EventKind> {
    records.iter().map(|r| r.kind).collect()
}

fn count_invoked(history: &[EventKind]) -> usize {
    history.iter().filter(|k| **k == EventKind::TaskInvoked).count()
}

fn task(
    input: Value,
    retry: Option<RetryPolicy>,
    catch: Vec<CatchRule>,
    next: Option<&str>,
) -> StateDefinition {
    StateDefinition::Task {
        handler: "charge".to_string(),
        input,
        output: string("${result}"),
        retry,
        catch,
        timeout: Some(30),
        next: next.map(|n| n.to_string()),
    }
}

fn retry_policy(codes: &[&str], max_attempts: u64) -> RetryPolicy {
    RetryPolicy {
        matchers: codes.iter().map(|c| c.to_string()).collect(),
        max_attempts,
        backoff: Backoff { initial_interval: 2, multiplier: 3, max_interval: 10 },
    }
}

fn workflow(states: Vec<(&str, StateDefinition)>, start_at: &str) -> WorkflowDefinition {
    WorkflowDefinition {
        states: states.into_iter().map(|(n, s)| (n.to_string(), s)).collect(),
        start_at: start_at.to_string(),
        functions: Version::V1,
        constants: vec![],
    }
}

fn failed(code: &str, message: &str) -> Signal {
    Signal::TaskFailed { code: code.to_string(), message: message.to_string() }
}

fn begin(definition: &WorkflowDefinition) -> Execution {
    start(
        "run-1".to_string(),
        definition,
        object(vec![("amount", Value::Number(Number::PosInt(5)))]),
    )
}

#[test]
fn start_prepares_the_first_state() {
    let definition = workflow(vec![("done", StateDefinition::Succeed)], "done");
    let e = begin(&definition);
    assert_eq!(e.id, "run-1");
    assert_eq!(e.current, "done");
    assert_eq!(e.phase, Phase::Entering);
    assert_eq!(e.attempts, 0);
    assert!(matches!(e.status, Status::Running));
    assert_eq!(
        show(&e.context),
        show(&object(vec![("input", object(vec![("amount", Value::Number(Number::PosInt(5)))]))]))
    );
}

#[test]
fn start_puts_the_constants_into_the_context() {
    let mut definition = workflow(vec![("done", StateDefinition::Succeed)], "done");
    definition.constants = vec![
        ("region".to_string(), string("eu")),
        ("limit".to_string(), Value::Number(Number::PosInt(3))),
        ("region".to_string(), string("us")),
    ];
    let e = begin(&definition);
    assert_eq!(
        show(&e.context),
        show(&object(vec![
            ("input", object(vec![("amount", Value::Number(Number::PosInt(5)))])),
            ("region", string("us")),
            ("limit", Value::Number(Number::PosInt(3))),
        ]))
    );
}

#[test]
fn task_runs_and_hands_its_result_on() {
    let definition = workflow(
        vec![
            ("pay", task(string("${input.amount}"), None, vec![], Some("done"))),
            ("done", StateDefinition::Succeed),
        ],
        "pay",
    );
    let Transition { execution, action, records } = step(&definition, begin(&definition), Signal::Proceed);
    match action {
        Action::InvokeTask { handler, input, timeout } => {
            assert_eq!(handler, "charge");
            assert_eq!(show(&input), show(&Value::Number(Number::PosInt(5))));
            assert_eq!(timeout, Some(30));
        }
        other => panic!("unexpected action: {:?}", other),
    }
    assert_eq!(
        kinds(&records),
        vec![EventKind::StateEntered, EventKind::InputResolved, EventKind::TaskInvoked]
    );
    assert_eq!(execution.phase, Phase::AwaitingTask);
    assert_eq!(execution.attempts, 1);

    let Transition { execution, action, records } =
        step(&definition, execution, Signal::TaskSucceeded(string("paid")));
    assert!(matches!(action, Action::Continue));
    assert_eq!(kinds(&records), vec![EventKind::TaskSucceeded, EventKind::StateExited]);
    assert_eq!(execution.current, "done");
    assert_eq!(execution.phase, Phase::Entering);
    assert_eq!(execution.attempts, 0);
    let shown = snapshot(&execution);
    assert!(matches!(shown.status, Status::Running));
    assert_eq!(
        show(&shown.context),
        show(&object(vec![
            ("input", object(vec![("amount", Value::Number(Number::PosInt(5)))])),
            ("result", string("paid")),
        ]))
    );

    let Transition { execution, action, records } = step(&definition, execution, Signal::Proceed);
    assert!(matches!(action, Action::Finished));
    assert!(matches!(execution.status, Status::Succeeded));
    assert_eq!(
        kinds(&records),
        vec![EventKind::StateEntered, EventKind::StateExited, EventKind::ExecutionEnded]
    );
    let Transition { execution, action, records } = step(&definition, execution, Signal::Proceed);
    assert!(matches!(action, Action::Finished));
    assert!(matches!(execution.status, Status::Succeeded));
    assert!(records.is_empty());
}

#[test]
fn failing_task_is_retried_up_to_the_cap_and_then_caught() {
    let definition = workflow(
        vec![
            (
                "pay",
                task(
                    string("${input.amount}"),
                    Some(retry_policy(&["Busy"], 3)),
                    vec![
                        CatchRule { matchers: vec!["Other".to_string()], target: "never".to_string() },
                        CatchRule { matchers: vec!["*".to_string()], target: "recover".to_string() },
                    ],
                    Some("done"),
                ),
            ),
            ("recover", StateDefinition::Succeed),
            ("done", StateDefinition::Succeed),
        ],
        "pay",
    );
    let mut history: Vec<EventKind> = Vec::new();
    let mut delays: Vec<u64> = Vec::new();
    let mut t = step(&definition, begin(&definition), Signal::Proceed);
    history.extend(kinds(&t.records));
    loop {
        assert!(matches!(t.action, Action::InvokeTask { .. }));
        assert_eq!(count_invoked(&history) as u64, t.execution.attempts);
        t = step(&definition, t.execution, failed("Busy", "try later"));
        history.extend(kinds(&t.records));
        match t.action {
            Action::Sleep { seconds } => {
                assert_eq!(t.execution.phase, Phase::AwaitingRetry);
                assert_eq!(t.execution.current, "pay");
                delays.push(seconds);
                t = step(&definition, t.execution, Signal::TimerElapsed);
                history.extend(kinds(&t.records));
            }
            Action::Continue => break,
            other => panic!("unexpected action: {:?}", other),
        }
    }
    assert_eq!(delays, vec![2, 6]);
    assert_eq!(count_invoked(&history), 3);
    assert_eq!(
        history.iter().filter(|k| **k == EventKind::RetryScheduled).count(),
        2
    );
    assert_eq!(t.execution.current, "recover");
    assert_eq!(t.execution.phase, Phase::Entering);
    assert!(matches!(t.execution.status, Status::Running));
    let expected_errors = object(vec![("code", string("Busy")), ("message", string("try later"))]);
    match &t.execution.context {
        Value::Object(members) => {
            let errors = members.iter().find(|(name, _)| name == "errors").unwrap();
            assert_eq!(show(&errors.1), show(&expected_errors));
        }
        other => panic!("unexpected context: {:?}", other),
    }
}

#[test]
fn failure_that_no_policy_matches_is_fatal() {
    let definition = workflow(
        vec![(
            "pay",
            task(
                string("${input.amount}"),
                Some(retry_policy(&["Busy"], 3)),
                vec![CatchRule { matchers: vec!["Busy".to_string()], target: "pay".to_string() }],
                None,
            ),
        )],
        "pay",
    );
    let t = step(&definition, begin(&definition), Signal::Proceed);
    let t = step(&definition, t.execution, failed("Denied", "card refused"));
    assert!(matches!(t.action, Action::Finished));
    assert_eq!(kinds(&t.records), vec![EventKind::TaskFailed, EventKind::ExecutionEnded]);
    match t.execution.status {
        Status::Failed { code, cause } => {
            assert_eq!(code, "Denied");
            assert_eq!(cause, "card refused");
        }
        other => panic!("unexpected status: {:?}", other),
    }
    assert_eq!(t.execution.current, "pay");
}

#[test]
fn input_that_does_not_resolve_fails_the_task() {
    let definition = workflow(
        vec![
            (
                "pay",
                task(
                    string("${input.missing}"),
                    None,
                    vec![CatchRule {
                        matchers: vec!["Template.InvalidArgument".to_string()],
                        target: "done".to_string(),
                    }],
                    None,
                ),
            ),
            ("done", StateDefinition::Succeed),
        ],
        "pay",
    );
    let t = step(&definition, begin(&definition), Signal::Proceed);
    assert!(matches!(t.action, Action::Continue));
    assert_eq!(
        kinds(&t.records),
        vec![EventKind::StateEntered, EventKind::TaskFailed, EventKind::StateExited]
    );
    assert_eq!(t.execution.current, "done");
}

#[test]
fn backoff_grows_and_is_capped() {
    let backoff = Backoff { initial_interval: 2, multiplier: 3, max_interval: 50 };
    assert_eq!(delay_before_retry(backoff, 1), 2);
    assert_eq!(delay_before_retry(backoff, 2), 6);
    assert_eq!(delay_before_retry(backoff, 3), 18);
    assert_eq!(delay_before_retry(backoff, 4), 50);
    assert_eq!(delay_before_retry(backoff, 200), 50);
    let flat = Backoff { initial_interval: 7, multiplier: 0, max_interval: 5 };
    assert_eq!(delay_before_retry(flat, 1), 5);
    assert_eq!(delay_before_retry(flat, 2), 0);
    let huge = Backoff { initial_interval: u64::MAX, multiplier: u64::MAX, max_interval: u64::MAX };
    assert_eq!(delay_before_retry(huge, 5), u64::MAX);
}

#[test]
fn choice_takes_the_first_rule_that_holds() {
    let rules = |first: &str| {
        vec![
            ChoiceRule { condition: string(first), target: "a".to_string() },
            ChoiceRule { condition: string("${input.amount}"), target: "b".to_string() },
            ChoiceRule { condition: Value::Bool(true), target: "c".to_string() },
        ]
    };
    let definition = workflow(
        vec![("pick", StateDefinition::Choice { rules: rules("${false}"), default: None })],
        "pick",
    );
    let t = step(&definition, begin(&definition), Signal::Proceed);
    assert_eq!(t.execution.current, "b");
    assert!(matches!(t.action, Action::Continue));

    let definition = workflow(
        vec![(
            "pick",
            StateDefinition::Choice {
                rules: vec![ChoiceRule { condition: string("${0}"), target: "a".to_string() }],
                default: Some("fallback".to_string()),
            },
        )],
        "pick",
    );
    let t = step(&definition, begin(&definition), Signal::Proceed);
    assert_eq!(t.execution.current, "fallback");

    let definition = workflow(
        vec![(
            "pick",
            StateDefinition::Choice {
                rules: vec![ChoiceRule { condition: Value::Null, target: "a".to_string() }],
                default: None,
            },
        )],
        "pick",
    );
    let t = step(&definition, begin(&definition), Signal::Proceed);
    match t.execution.status {
        Status::Failed { code, .. } => assert_eq!(code, "DefinitionError"),
        other => panic!("unexpected status: {:?}", other),
    }
}

#[test]
fn unknown_state_is_a_definition_error() {
    let definition = workflow(vec![("a", StateDefinition::Succeed)], "nowhere");
    let t = step(&definition, begin(&definition), Signal::Proceed);
    assert!(matches!(t.action, Action::Finished));
    match t.execution.status {
        Status::Failed { code, cause } => {
            assert_eq!(code, "DefinitionError");
            assert_eq!(cause, "the workflow has no state named: nowhere");
        }
        other => panic!("unexpected status: {:?}", other),
    }
}

fn parallel_definition() -> WorkflowDefinition {
    let branch = || workflow(vec![("only", StateDefinition::Succeed)], "only");
    workflow(
        vec![
            (
                "fan",
                StateDefinition::Parallel {
                    branches: vec![branch(), branch(), branch()],
                    next: Some("done".to_string()),
                },
            ),
            ("done", StateDefinition::Succeed),
        ],
        "fan",
    )
}

fn finished(index: usize, outcome: BranchOutcome) -> Signal {
    Signal::BranchFinished { index, outcome }
}

#[test]
fn parallel_joins_in_declaration_order() {
    let definition = parallel_definition();
    let t = step(&definition, begin(&definition), Signal::Proceed);
    match &t.action {
        Action::StartBranches { count, input } => {
            assert_eq!(*count, 3);
            assert_eq!(show(input), show(&t.execution.context));
        }
        other => panic!("unexpected action: {:?}", other),
    }
    assert_eq!(t.execution.phase, Phase::AwaitingBranches);
    let t = step(&definition, t.execution, finished(2, BranchOutcome::Succeeded(string("c"))));
    assert!(matches!(t.action, Action::Idle));
    let t = step(&definition, t.execution, finished(0, BranchOutcome::Succeeded(string("a"))));
    assert!(matches!(t.action, Action::Idle));
    // A second report for a branch that has ended, and one for no branch, change nothing.
    let t = step(&definition, t.execution, finished(0, BranchOutcome::Aborted));
    assert!(matches!(t.action, Action::Idle));
    let t = step(&definition, t.execution, finished(7, BranchOutcome::Aborted));
    assert!(matches!(t.action, Action::Idle));
    assert_eq!(t.execution.current, "fan");
    let t = step(&definition, t.execution, finished(1, BranchOutcome::Succeeded(string("b"))));
    assert!(matches!(t.action, Action::Continue));
    assert_eq!(t.execution.current, "done");
    match &t.execution.context {
        Value::Object(members) => {
            let result = members.iter().find(|(name, _)| name == "result").unwrap();
            assert_eq!(
                show(&result.1),
                show(&Value::Array(vec![string("a"), string("b"), string("c")]))
            );
        }
        other => panic!("unexpected context: {:?}", other),
    }
}

#[test]
fn parallel_with_a_failed_branch_fails_only_after_all_have_ended() {
    let definition = parallel_definition();
    let t = step(&definition, begin(&definition), Signal::Proceed);
    let t = step(
        &definition,
        t.execution,
        finished(
            1,
            BranchOutcome::Failed { code: "Boom".to_string(), cause: "branch broke".to_string() },
        ),
    );
    assert!(matches!(t.action, Action::Idle));
    assert!(matches!(t.execution.status, Status::Running));
    assert!(t.records.is_empty());
    let t = step(&definition, t.execution, finished(0, BranchOutcome::Succeeded(Value::Null)));
    assert!(matches!(t.action, Action::Idle));
    assert!(matches!(t.execution.status, Status::Running));
    let t = step(&definition, t.execution, finished(2, BranchOutcome::Aborted));
    assert!(matches!(t.action, Action::Finished));
    assert_eq!(t.execution.current, "fan");
    match t.execution.status {
        Status::Failed { code, cause } => {
            assert_eq!(code, "Boom");
            assert_eq!(cause, "branch broke");
        }
        other => panic!("unexpected status: {:?}", other),
    }
}

#[test]
fn abort_during_wait_does_not_advance() {
    let definition = workflow(
        vec![
            (
                "pause",
                StateDefinition::Wait {
                    until: WaitFor::Duration(string("${input.amount}")),
                    next: Some("done".to_string()),
                },
            ),
            ("done", StateDefinition::Succeed),
        ],
        "pause",
    );
    let t = step(&definition, begin(&definition), Signal::Proceed);
    assert!(matches!(t.action, Action::Sleep { seconds: 5 }));
    assert_eq!(t.execution.phase, Phase::Waiting);
    let t = step(&definition, t.execution, Signal::Abort);
    assert!(matches!(t.action, Action::Finished));
    assert!(matches!(t.execution.status, Status::Aborted));
    assert_eq!(t.execution.current, "pause");
    assert_eq!(kinds(&t.records), vec![EventKind::ExecutionEnded]);
    let t = step(&definition, t.execution, Signal::TimerElapsed);
    assert!(matches!(t.execution.status, Status::Aborted));
    assert_eq!(t.execution.current, "pause");
    assert!(t.records.is_empty());
}

#[test]
fn wait_goes_on_when_the_delay_is_over() {
    let definition = workflow(
        vec![
            (
                "pause",
                StateDefinition::Wait {
                    until: WaitFor::Timestamp(Value::Number(Number::PosInt(1700000000))),
                    next: Some("done".to_string()),
                },
            ),
            ("done", StateDefinition::Succeed),
        ],
        "pause",
    );
    let t = step(&definition, begin(&definition), Signal::Proceed);
    assert!(matches!(t.action, Action::SleepUntil { timestamp: 1700000000 }));
    let t = step(&definition, t.execution, Signal::TaskSucceeded(Value::Null));
    assert!(matches!(t.action, Action::Idle));
    assert_eq!(t.execution.current, "pause");
    let t = step(&definition, t.execution, Signal::TimerElapsed);
    assert!(matches!(t.action, Action::Continue));
    assert_eq!(t.execution.current, "done");
}

#[test]
fn wait_on_something_that_is_no_number_fails() {
    let definition = workflow(
        vec![(
            "pause",
            StateDefinition::Wait { until: WaitFor::Duration(string("soon")), next: None },
        )],
        "pause",
    );
    let t = step(&definition, begin(&definition), Signal::Proceed);
    match t.execution.status {
        Status::Failed { code, .. } => assert_eq!(code, "Template.InvalidArgument"),
        other => panic!("unexpected status: {:?}", other),
    }
}

#[test]
fn fail_state_resolves_its_cause() {
    let definition = workflow(
        vec![(
            "stop",
            StateDefinition::Fail {
                error: "OutOfStock".to_string(),
                cause: string("cannot charge ${input.amount}"),
            },
        )],
        "stop",
    );
    let t = step(&definition, begin(&definition), Signal::Proceed);
    assert!(matches!(t.action, Action::Finished));
    match t.execution.status {
        Status::Failed { code, cause } => {
            assert_eq!(code, "OutOfStock");
            assert_eq!(cause, "cannot charge 5");
        }
        other => panic!("unexpected status: {:?}", other),
    }
}

#[test]
fn store_numbers_the_events_of_each_execution() {
    let mut store = ExecutionStore::new();
    let record = |kind: EventKind| Record { kind, payload: Value::Null };
    assert_eq!(store.append("a", record(EventKind::StateEntered), 10), 0);
    assert_eq!(store.append("b", record(EventKind::StateEntered), 11), 0);
    assert_eq!(store.append("a", record(EventKind::TaskInvoked), 12), 1);
    assert_eq!(store.append("a", record(EventKind::TaskSucceeded), 13), 2);
    assert_eq!(store.append("b", record(EventKind::ExecutionEnded), 14), 1);
    assert_eq!(store.count("a"), 3);
    assert_eq!(store.count("c"), 0);
    let events = store.events_for("a");
    assert_eq!(
        events.iter().map(|e| (e.sequence, e.timestamp, e.kind)).collect::<Vec<_>>(),
        vec![
            (0, 10, EventKind::StateEntered),
            (1, 12, EventKind::TaskInvoked),
            (2, 13, EventKind::TaskSucceeded),
        ]
    );
    assert!(events.iter().all(|e| e.execution_id == "a"));
    assert!(store.events_for("c").is_empty());
}
