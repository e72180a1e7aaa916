use crate::function_registry::Version;
use crate::text::chars_of;
use crate::text::same_text;
use crate::value::lemma_array_view;
use crate::value::lemma_object_view;
use crate::value::Number;
use crate::value::SpecNumber;
use crate::value::SpecValue;
use crate::value::Value;
use vstd::prelude::*;

verus! {

/// How long to wait before each retry: the first delay, the factor by which it grows from one
/// retry to the next, and the delay that is never exceeded, in seconds.
#[derive(Clone, Copy, Debug, PartialEq, Eq, Structural)]
pub struct Backoff {
    pub initial_interval: u64,
    pub multiplier: u64,
    pub max_interval: u64,
}

/// Which failures of a task are tried again, how often and after what delay.
#[derive(Debug)]
pub struct RetryPolicy {
    /// The error codes that the policy accepts; `*` accepts every code.
    pub matchers: Vec<String>,
    /// The most attempts that are made in all, the first one included.
    pub max_attempts: u64,
    pub backoff: Backoff,
}

/// One entry of a catch policy: the error codes it accepts and the state that takes over.
#[derive(Debug)]
pub struct CatchRule {
    /// The error codes that the rule accepts; `*` accepts every code.
    pub matchers: Vec<String>,
    pub target: String,
}

/// One entry of a choice: a condition and the state that follows where it holds.
#[derive(Debug)]
pub struct ChoiceRule {
    /// A template whose value decides.
    pub condition: Value,
    pub target: String,
}

/// What a wait state waits for.
#[derive(Debug)]
pub enum WaitFor {
    /// A template that yields a number of seconds.
    Duration(Value),
    /// A template that yields a point in time, in seconds since the epoch.
    Timestamp(Value),
}

/// One state of a workflow.
#[derive(Debug)]
pub enum StateDefinition {
    Task {
        /// The name under which the handler is known to whoever runs it.
        handler: String,
        input: Value,
        output: Value,
        retry: Option<RetryPolicy>,
        catch: Vec<CatchRule>,
        /// The most seconds an attempt may take; none for no limit.
        timeout: Option<u64>,
        /// The state that follows; none where the workflow ends here.
        next: Option<String>,
    },
    Choice { rules: Vec<ChoiceRule>, default: Option<String> },
    Parallel { branches: Vec<WorkflowDefinition>, next: Option<String> },
    Wait { until: WaitFor, next: Option<String> },
    Succeed,
    Fail { error: String, cause: Value },
}

/// A workflow: its states by name, the name of the state it starts in, the version of the
/// template functions that its expressions are written for, and the constants that every
/// run of it finds in its context.
#[derive(Debug)]
pub struct WorkflowDefinition {
    pub states: Vec<(String, StateDefinition)>,
    pub start_at: String,
    pub functions: Version,
    pub constants: Vec<(String, Value)>,
}

/// The status of an execution as a mathematical value.
pub enum SpecStatus {
    Running,
    Succeeded,
    Failed { code: Seq<char>, cause: Seq<char> },
    Aborted,
}

/// Where an execution stands. `Running` is the only status that is left again.
#[derive(Debug)]
pub enum Status {
    Running,
    Succeeded,
    Failed { code: String, cause: String },
    Aborted,
}

impl View for Status {
    type V = SpecStatus;

    open spec fn view(&self) -> SpecStatus {
        match self {
            Status::Running => SpecStatus::Running,
            Status::Succeeded => SpecStatus::Succeeded,
            Status::Failed { code, cause } => SpecStatus::Failed { code: code@, cause: cause@ },
            Status::Aborted => SpecStatus::Aborted,
        }
    }
}

/// What a running execution is about to do or is waiting for.
#[derive(Clone, Copy, Debug, PartialEq, Eq, Structural)]
pub enum Phase {
    /// It is about to enter its current state.
    Entering,
    /// An attempt of the current task is under way.
    AwaitingTask,
    /// The delay before the next attempt of the current task runs.
    AwaitingRetry,
    /// The delay of the current wait state runs.
    Waiting,
    /// The branches of the current parallel state run.
    AwaitingBranches,
}

/// How a branch of a parallel state ended, as a mathematical value.
pub enum SpecBranchOutcome {
    Succeeded(SpecValue),
    Failed { code: Seq<char>, cause: Seq<char> },
    Aborted,
}

/// How a branch of a parallel state ended.
#[derive(Debug)]
pub enum BranchOutcome {
    /// It succeeded, with this output.
    Succeeded(Value),
    Failed { code: String, cause: String },
    Aborted,
}

impl View for BranchOutcome {
    type V = SpecBranchOutcome;

    open spec fn view(&self) -> SpecBranchOutcome {
        match self {
            BranchOutcome::Succeeded(v) => SpecBranchOutcome::Succeeded(v@),
            BranchOutcome::Failed { code, cause } => SpecBranchOutcome::Failed {
                code: code@,
                cause: cause@,
            },
            BranchOutcome::Aborted => SpecBranchOutcome::Aborted,
        }
    }
}

/// The view of a branch slot: none while the branch runs.
pub open spec fn slot_view(slot: Option<BranchOutcome>) -> Option<SpecBranchOutcome> {
    match slot {
        Some(outcome) => Some(outcome@),
        None => None,
    }
}

/// The views of the branch slots, in order.
pub open spec fn slot_views(slots: Seq<Option<BranchOutcome>>) -> Seq<Option<SpecBranchOutcome>> {
    Seq::new(slots.len(), |i: int| slot_view(slots[i]))
}

/// An execution as a mathematical value.
pub struct SpecExecution {
    pub id: Seq<char>,
    pub current: Seq<char>,
    pub context: SpecValue,
    pub status: SpecStatus,
    pub phase: Phase,
    pub attempts: u64,
    pub branches: Seq<Option<SpecBranchOutcome>>,
}

/// One run of a workflow.
#[derive(Debug)]
pub struct Execution {
    pub id: String,
    /// The name of the state that the execution is in.
    pub current: String,
    /// The values that expressions see: the input of the run under `input`, the result of the
    /// last state under `result`, the last caught failure under `errors`.
    pub context: Value,
    pub status: Status,
    pub phase: Phase,
    /// The attempts made on the current state since it was entered.
    pub attempts: u64,
    /// While the branches of a parallel state run: how each that has ended did end.
    pub branches: Vec<Option<BranchOutcome>>,
}

impl View for Execution {
    type V = SpecExecution;

    open spec fn view(&self) -> SpecExecution {
        SpecExecution {
            id: self.id@,
            current: self.current@,
            context: self.context@,
            status: self.status@,
            phase: self.phase,
            attempts: self.attempts,
            branches: slot_views(self.branches@),
        }
    }
}

/// What happened outside, as a mathematical value.
pub enum SpecSignal {
    Proceed,
    TaskSucceeded(SpecValue),
    TaskFailed { code: Seq<char>, message: Seq<char> },
    TimerElapsed,
    BranchFinished { index: nat, outcome: SpecBranchOutcome },
    Abort,
}

/// What happened outside since the last step.
#[derive(Debug)]
pub enum Signal {
    /// Nothing: the execution is to go on by itself.
    Proceed,
    /// The handler returned this value.
    TaskSucceeded(Value),
    /// The handler failed, or did not end in time.
    TaskFailed { code: String, message: String },
    /// The delay that the last step asked for is over.
    TimerElapsed,
    /// The branch with this index has ended.
    BranchFinished { index: usize, outcome: BranchOutcome },
    /// The execution is to be given up.
    Abort,
}

impl View for Signal {
    type V = SpecSignal;

    open spec fn view(&self) -> SpecSignal {
        match self {
            Signal::Proceed => SpecSignal::Proceed,
            Signal::TaskSucceeded(v) => SpecSignal::TaskSucceeded(v@),
            Signal::TaskFailed { code, message } => SpecSignal::TaskFailed {
                code: code@,
                message: message@,
            },
            Signal::TimerElapsed => SpecSignal::TimerElapsed,
            Signal::BranchFinished { index, outcome } => SpecSignal::BranchFinished {
                index: *index as nat,
                outcome: outcome@,
            },
            Signal::Abort => SpecSignal::Abort,
        }
    }
}

/// What is to be done outside, as a mathematical value.
pub enum SpecAction {
    Continue,
    InvokeTask { handler: Seq<char>, input: SpecValue, timeout: Option<u64> },
    Sleep { seconds: u64 },
    SleepUntil { timestamp: u64 },
    StartBranches { count: nat, input: SpecValue },
    Idle,
    Finished,
}

/// What is to be done outside before the next step.
#[derive(Debug)]
pub enum Action {
    /// Nothing: step again with `Signal::Proceed`.
    Continue,
    /// Call the handler, and report how it ended.
    InvokeTask { handler: String, input: Value, timeout: Option<u64> },
    /// Report `Signal::TimerElapsed` after this many seconds.
    Sleep { seconds: u64 },
    /// Report `Signal::TimerElapsed` at this point in time.
    SleepUntil { timestamp: u64 },
    /// Run every branch of the current parallel state on a copy of this input, and report
    /// each as it ends.
    StartBranches { count: usize, input: Value },
    /// Nothing: go on waiting for what is outstanding.
    Idle,
    /// Nothing: the execution has ended.
    Finished,
}

impl View for Action {
    type V = SpecAction;

    open spec fn view(&self) -> SpecAction {
        match self {
            Action::Continue => SpecAction::Continue,
            Action::InvokeTask { handler, input, timeout } => SpecAction::InvokeTask {
                handler: handler@,
                input: input@,
                timeout: *timeout,
            },
            Action::Sleep { seconds } => SpecAction::Sleep { seconds: *seconds },
            Action::SleepUntil { timestamp } => SpecAction::SleepUntil { timestamp: *timestamp },
            Action::StartBranches { count, input } => SpecAction::StartBranches {
                count: *count as nat,
                input: input@,
            },
            Action::Idle => SpecAction::Idle,
            Action::Finished => SpecAction::Finished,
        }
    }
}

/// Whether one matcher accepts an error code: it is the code, or it is `*`.
pub open spec fn matcher_accepts(matcher: Seq<char>, code: Seq<char>) -> bool {
    matcher == code || matcher == "*"@
}

/// Whether one of the matchers accepts the error code.
pub open spec fn accepts(matchers: Seq<String>, code: Seq<char>) -> bool {
    exists|i: int| 0 <= i < matchers.len() && matcher_accepts(#[trigger] matchers[i]@, code)
}

/// Whether one of the matchers accepts the error code.
pub fn matches_code(matchers: &Vec<String>, code: &str) -> (found: bool)
    ensures
        found == accepts(matchers@, code@),
{
    let mut i: usize = 0;
    while i < matchers.len()
        invariant
            i <= matchers.len(),
            forall|k: int| 0 <= k < i ==> !matcher_accepts(#[trigger] matchers[k]@, code@),
        decreases matchers.len() - i,
    {
        if same_text(matchers[i].as_str(), code) || same_text(matchers[i].as_str(), "*") {
            assert(matcher_accepts(matchers[i as int]@, code@));
            return true;
        }
        i = i + 1;
    }
    false
}

/// The target of the first of the rules from index `i` on that accepts the error code.
pub open spec fn catch_from(rules: Seq<CatchRule>, code: Seq<char>, i: int) -> Option<Seq<char>>
    decreases rules.len() - i,
{
    if i < 0 || i >= rules.len() {
        None
    } else if accepts(rules[i].matchers@, code) {
        Some(rules[i].target@)
    } else {
        catch_from(rules, code, i + 1)
    }
}

/// The state that takes over after a failure with the error code: the target of the first
/// rule that accepts it.
pub open spec fn catch_target(rules: Seq<CatchRule>, code: Seq<char>) -> Option<Seq<char>> {
    catch_from(rules, code, 0)
}

/// Finds the state that takes over after a failure with the error code.
pub fn find_catch(rules: &Vec<CatchRule>, code: &str) -> (out: Option<String>)
    ensures
        match out {
            Some(target) => catch_target(rules@, code@) == Some(target@),
            None => catch_target(rules@, code@) is None,
        },
{
    let mut i: usize = 0;
    while i < rules.len()
        invariant
            i <= rules.len(),
            catch_target(rules@, code@) == catch_from(rules@, code@, i as int),
        decreases rules.len() - i,
    {
        if matches_code(&rules[i].matchers, code) {
            return Some(rules[i].target.clone());
        }
        i = i + 1;
    }
    None
}

/// `base` to the power of `exp`.
pub open spec fn power(base: nat, exp: nat) -> nat
    decreases exp,
{
    if exp == 0 {
        1
    } else {
        base * power(base, (exp - 1) as nat)
    }
}

/// `x`, but no more than `cap`.
pub open spec fn capped(x: nat, cap: nat) -> nat {
    if x <= cap {
        x
    } else {
        cap
    }
}

/// The number of retries before the retry with the given number, counted from one; a retry
/// numbered zero counts as the first.
pub open spec fn earlier_retries(retry: nat) -> nat {
    if retry == 0 {
        0
    } else {
        (retry - 1) as nat
    }
}

/// The delay before the retry with the given number, counted from one: the first delay,
/// multiplied by the factor once for each earlier retry, and no more than the longest delay.
pub open spec fn backoff_delay(backoff: Backoff, retry: nat) -> nat {
    capped(
        backoff.initial_interval as nat * power(backoff.multiplier as nat, earlier_retries(retry)),
        backoff.max_interval as nat,
    )
}

proof fn lemma_capped_product(x: nat, factor: nat, cap: nat)
    ensures
        capped(capped(x, cap) * factor, cap) == capped(x * factor, cap),
{
    if x > cap {
        if factor == 0 {
            assert(x * factor == 0) by (nonlinear_arith)
                requires
                    factor == 0,
            ;
            assert(cap * factor == 0) by (nonlinear_arith)
                requires
                    factor == 0,
            ;
        } else {
            assert(cap * factor >= cap) by (nonlinear_arith)
                requires
                    factor >= 1,
            ;
            assert(x * factor >= x) by (nonlinear_arith)
                requires
                    factor >= 1,
            ;
        }
    }
}

/// Computes the delay before the retry with the given number, counted from one.
pub fn delay_before_retry(backoff: Backoff, retry: u64) -> (delay: u64)
    ensures
        delay == backoff_delay(backoff, retry as nat),
{
    let cap = backoff.max_interval;
    let mut delay: u64 = if backoff.initial_interval <= cap {
        backoff.initial_interval
    } else {
        cap
    };
    let mut k: u64 = 1;
    assert(backoff.initial_interval as nat * power(backoff.multiplier as nat, 0)
        == backoff.initial_interval as nat) by (nonlinear_arith)
        requires
            power(backoff.multiplier as nat, 0) == 1,
    ;
    while k < retry
        invariant
            1 <= k,
            k <= retry || (retry == 0 && k == 1),
            cap == backoff.max_interval,
            delay == backoff_delay(backoff, k as nat),
        decreases retry - k,
    {
        proof {
            let x = backoff.initial_interval as nat * power(
                backoff.multiplier as nat,
                (k - 1) as nat,
            );
            lemma_capped_product(x, backoff.multiplier as nat, cap as nat);
            assert(x * backoff.multiplier as nat == backoff.initial_interval as nat * power(
                backoff.multiplier as nat,
                k as nat,
            )) by (nonlinear_arith)
                requires
                    x == backoff.initial_interval as nat * power(
                        backoff.multiplier as nat,
                        (k - 1) as nat,
                    ),
                    power(backoff.multiplier as nat, k as nat) == backoff.multiplier as nat * power(
                        backoff.multiplier as nat,
                        (k - 1) as nat,
                    ),
            ;
        }
        delay = match delay.checked_mul(backoff.multiplier) {
            Some(product) => if product <= cap {
                product
            } else {
                cap
            },
            None => cap,
        };
        k = k + 1;
    }
    delay
}

/// Whether a number that is held by its text is other than zero: whether a digit from 1 to 9
/// stands in it.
pub open spec fn has_nonzero_digit(text: Seq<char>) -> bool {
    exists|i: int| 0 <= i < text.len() && '1' <= #[trigger] text[i] <= '9'
}

/// Whether a value counts as true in a choice: `true`, a number other than zero, and a
/// string, an array or an object that is not empty.
pub open spec fn truthy(v: SpecValue) -> bool {
    match v {
        SpecValue::Null => false,
        SpecValue::Bool(b) => b,
        SpecValue::Number(SpecNumber::Int(n)) => n != 0,
        SpecValue::Number(SpecNumber::Float(text)) => has_nonzero_digit(text),
        SpecValue::String(s) => s.len() > 0,
        SpecValue::Array(items) => items.len() > 0,
        SpecValue::Object(members) => members.len() > 0,
    }
}

/// Whether a value counts as true in a choice.
pub fn is_truthy(v: &Value) -> (b: bool)
    ensures
        b == truthy(v@),
{
    match v {
        Value::Null => false,
        Value::Bool(b) => *b,
        Value::Number(Number::PosInt(u)) => *u != 0,
        Value::Number(Number::NegInt(i)) => *i != 0,
        Value::Number(Number::Float(text)) => {
            let chars = chars_of(text.as_str());
            let mut i: usize = 0;
            while i < chars.len()
                invariant
                    i <= chars.len(),
                    chars@ == text@,
                    v@ == SpecValue::Number(SpecNumber::Float(text@)),
                    forall|k: int| 0 <= k < i ==> !('1' <= #[trigger] chars[k] <= '9'),
                decreases chars.len() - i,
            {
                if '1' <= chars[i] && chars[i] <= '9' {
                    assert('1' <= text@[i as int] <= '9');
                    return true;
                }
                i = i + 1;
            }
            false
        },
        Value::String(s) => !s.as_str().is_empty(),
        Value::Array(items) => {
            proof {
                lemma_array_view(*items);
            }
            items.len() > 0
        },
        Value::Object(members) => {
            proof {
                lemma_object_view(*members);
            }
            members.len() > 0
        },
    }
}

/// The number of seconds that a value stands for: an integer from zero up to `u64::MAX`.
pub open spec fn seconds_of(v: SpecValue) -> Option<u64> {
    match v {
        SpecValue::Number(SpecNumber::Int(n)) => if 0 <= n <= u64::MAX {
            Some(n as u64)
        } else {
            None
        },
        _ => None,
    }
}

/// Reads a value as a number of seconds.
pub fn read_seconds(v: &Value) -> (out: Option<u64>)
    ensures
        out == seconds_of(v@),
{
    match v {
        Value::Number(Number::PosInt(u)) => Some(*u),
        Value::Number(Number::NegInt(i)) => if *i >= 0 {
            Some(*i as u64)
        } else {
            None
        },
        _ => None,
    }
}

/// The first state named `name` among the states from index `i` on.
pub open spec fn state_from(states: Seq<(String, StateDefinition)>, name: Seq<char>, i: int)
    -> Option<StateDefinition>
    decreases states.len() - i,
{
    if i < 0 || i >= states.len() {
        None
    } else if states[i].0@ == name {
        Some(states[i].1)
    } else {
        state_from(states, name, i + 1)
    }
}

/// The state that a workflow holds under `name`.
pub open spec fn state_named(definition: &WorkflowDefinition, name: Seq<char>) -> Option<
    StateDefinition,
> {
    state_from(definition.states@, name, 0)
}

/// Finds the state that a workflow holds under `name`.
pub fn find_state<'a>(definition: &'a WorkflowDefinition, name: &str) -> (out: Option<
    &'a StateDefinition,
>)
    ensures
        match out {
            Some(state) => state_named(definition, name@) == Some(*state),
            None => state_named(definition, name@) is None,
        },
{
    let mut i: usize = 0;
    while i < definition.states.len()
        invariant
            i <= definition.states.len(),
            state_named(definition, name@) == state_from(definition.states@, name@, i as int),
        decreases definition.states.len() - i,
    {
        if same_text(definition.states[i].0.as_str(), name) {
            return Some(&definition.states[i].1);
        }
        i = i + 1;
    }
    None
}

} // verus!
