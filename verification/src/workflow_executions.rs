use crate::text::same_text;
use crate::value::SpecValue;
use crate::value::Value;
use vstd::prelude::*;
use vstd::string::StringExecFns;

verus! {

/// The kind of a sub-step in the history of an execution.
#[derive(Clone, Copy, Debug, PartialEq, Eq, Structural)]
pub enum EventKind {
    StateEntered,
    InputResolved,
    TaskInvoked,
    TaskSucceeded,
    TaskFailed,
    RetryScheduled,
    StateExited,
    ExecutionEnded,
}

/// A record as a mathematical value.
pub struct SpecRecord {
    pub kind: EventKind,
    pub payload: SpecValue,
}

/// What the executor hands to the store for one sub-step: the event without the identity,
/// the sequence number and the time, which the store adds.
#[derive(Debug)]
pub struct Record {
    pub kind: EventKind,
    pub payload: Value,
}

impl View for Record {
    type V = SpecRecord;

    open spec fn view(&self) -> SpecRecord {
        SpecRecord { kind: self.kind, payload: self.payload@ }
    }
}

/// The views of a sequence of records, in order.
pub open spec fn record_views(records: Seq<Record>) -> Seq<SpecRecord> {
    Seq::new(records.len(), |i: int| records[i]@)
}

/// An event as a mathematical value.
pub struct SpecEvent {
    pub execution_id: Seq<char>,
    pub sequence: nat,
    pub timestamp: nat,
    pub kind: EventKind,
    pub payload: SpecValue,
}

/// One entry of the history of an execution.
#[derive(Debug)]
pub struct ExecutionEvent {
    pub execution_id: String,
    /// The place of the event among those of its execution, counted from zero.
    pub sequence: u64,
    pub timestamp: u64,
    pub kind: EventKind,
    pub payload: Value,
}

impl View for ExecutionEvent {
    type V = SpecEvent;

    open spec fn view(&self) -> SpecEvent {
        SpecEvent {
            execution_id: self.execution_id@,
            sequence: self.sequence as nat,
            timestamp: self.timestamp as nat,
            kind: self.kind,
            payload: self.payload@,
        }
    }
}

/// The views of a sequence of events, in order.
pub open spec fn event_views(events: Seq<ExecutionEvent>) -> Seq<SpecEvent> {
    Seq::new(events.len(), |i: int| events[i]@)
}

/// The events of one execution among `all`, in the order in which they were appended.
pub open spec fn events_of(all: Seq<SpecEvent>, id: Seq<char>) -> Seq<SpecEvent>
    decreases all.len(),
{
    if all.len() == 0 {
        Seq::empty()
    } else if all.last().execution_id == id {
        events_of(all.drop_last(), id).push(all.last())
    } else {
        events_of(all.drop_last(), id)
    }
}

/// Whether each event carries, as its sequence number, the number of events that its
/// execution had before it.
pub open spec fn numbered(all: Seq<SpecEvent>) -> bool {
    forall|i: int|
        0 <= i < all.len() ==> (#[trigger] all[i]).sequence == events_of(
            all.take(i),
            all[i].execution_id,
        ).len()
}

/// The event that the store makes of a record.
pub open spec fn event_of(all: Seq<SpecEvent>, id: Seq<char>, record: SpecRecord, timestamp: u64)
    -> SpecEvent {
    SpecEvent {
        execution_id: id,
        sequence: events_of(all, id).len(),
        timestamp: timestamp as nat,
        kind: record.kind,
        payload: record.payload,
    }
}

/// The history of all executions: events are appended to it, and never changed or removed.
#[derive(Debug)]
pub struct ExecutionStore {
    events: Vec<ExecutionEvent>,
}

impl View for ExecutionStore {
    type V = Seq<SpecEvent>;

    closed spec fn view(&self) -> Seq<SpecEvent> {
        event_views(self.events@)
    }
}

impl ExecutionStore {
    /// Whether the store is consistent: the events of each execution are numbered from zero
    /// in the order in which they were appended.
    pub open spec fn wf(&self) -> bool {
        numbered(self@)
    }

    /// A store without events.
    pub fn new() -> (store: ExecutionStore)
        ensures
            store.wf(),
            store@ == Seq::<SpecEvent>::empty(),
    {
        let store = ExecutionStore { events: Vec::new() };
        assert(store@ =~= Seq::<SpecEvent>::empty());
        store
    }

    /// The number of events that the store holds of one execution.
    pub fn count(&self, execution_id: &str) -> (n: u64)
        ensures
            n == events_of(self@, execution_id@).len(),
    {
        let mut n: u64 = 0;
        let mut i: usize = 0;
        assert(self@.take(0) =~= Seq::empty());
        while i < self.events.len()
            invariant
                i <= self.events.len(),
                self@ == event_views(self.events@),
                n == events_of(self@.take(i as int), execution_id@).len(),
                n <= i,
            decreases self.events.len() - i,
        {
            assert(self@.take(i + 1).drop_last() =~= self@.take(i as int));
            assert(self@.take(i + 1).last() == self.events[i as int]@);
            if same_text(self.events[i].execution_id.as_str(), execution_id) {
                n = n + 1;
            }
            i = i + 1;
        }
        assert(self@.take(i as int) =~= self@);
        n
    }

    /// Appends one event to the history of an execution, and returns its sequence number:
    /// the number of events that the execution had before.
    pub fn append(&mut self, execution_id: &str, record: Record, timestamp: u64) -> (sequence: u64)
        requires
            old(self).wf(),
        ensures
            final(self).wf(),
            final(self)@ == old(self)@.push(
                event_of(old(self)@, execution_id@, record@, timestamp),
            ),
            sequence == events_of(old(self)@, execution_id@).len(),
    {
        let sequence = self.count(execution_id);
        let ghost before = self@;
        let event = ExecutionEvent {
            execution_id: String::from_str(execution_id),
            sequence,
            timestamp,
            kind: record.kind,
            payload: record.payload,
        };
        self.events.push(event);
        proof {
            let after = self@;
            assert(after =~= before.push(event_of(before, execution_id@, record@, timestamp)));
            assert forall|i: int| 0 <= i < after.len() implies (#[trigger] after[i]).sequence
                == events_of(after.take(i), after[i].execution_id).len() by {
                if i < before.len() {
                    assert(after.take(i) =~= before.take(i));
                    assert(after[i] == before[i]);
                } else {
                    assert(after.take(i) =~= before);
                }
            }
        }
        sequence
    }

    /// The events of one execution, in the order of their sequence numbers.
    pub fn events_for(&self, execution_id: &str) -> (found: Vec<ExecutionEvent>)
        ensures
            event_views(found@) == events_of(self@, execution_id@),
    {
        let mut found: Vec<ExecutionEvent> = Vec::new();
        let mut i: usize = 0;
        assert(self@.take(0) =~= Seq::empty());
        assert(event_views(found@) =~= Seq::empty());
        while i < self.events.len()
            invariant
                i <= self.events.len(),
                self@ == event_views(self.events@),
                event_views(found@) == events_of(self@.take(i as int), execution_id@),
            decreases self.events.len() - i,
        {
            assert(self@.take(i + 1).drop_last() =~= self@.take(i as int));
            assert(self@.take(i + 1).last() == self.events[i as int]@);
            let event = &self.events[i];
            if same_text(event.execution_id.as_str(), execution_id) {
                let ghost before = event_views(found@);
                found.push(
                    ExecutionEvent {
                        execution_id: event.execution_id.clone(),
                        sequence: event.sequence,
                        timestamp: event.timestamp,
                        kind: event.kind,
                        payload: event.payload.duplicate(),
                    },
                );
                assert(event_views(found@) =~= before.push(event@));
            }
            i = i + 1;
        }
        assert(self@.take(i as int) =~= self@);
        found
    }
}

/// The events of an execution all carry its identity, and are as many as the events of all
/// executions at most.
pub proof fn lemma_events_of(all: Seq<SpecEvent>, id: Seq<char>)
    ensures
        events_of(all, id).len() <= all.len(),
        forall|k: int|
            0 <= k < events_of(all, id).len() ==> (#[trigger] events_of(all, id)[k]).execution_id
                == id,
    decreases all.len(),
{
    if all.len() > 0 {
        lemma_events_of(all.drop_last(), id);
    }
}

/// In a consistent store the events of an execution are numbered without gaps, from zero, in
/// the order in which they stand: the event at place `k` has the sequence number `k`.
pub proof fn lemma_sequence_is_position(all: Seq<SpecEvent>, id: Seq<char>, k: int)
    requires
        numbered(all),
        0 <= k < events_of(all, id).len(),
    ensures
        events_of(all, id)[k].sequence == k,
    decreases all.len(),
{
    if all.len() > 0 {
        let front = all.drop_last();
        assert forall|i: int| 0 <= i < front.len() implies (#[trigger] front[i]).sequence
            == events_of(front.take(i), front[i].execution_id).len() by {
            assert(front.take(i) =~= all.take(i));
            assert(front[i] == all[i]);
        }
        if all.last().execution_id == id && k == events_of(front, id).len() {
            assert(all.take(all.len() - 1) =~= front);
            assert(all[all.len() - 1] == all.last());
        } else {
            lemma_sequence_is_position(front, id, k);
        }
    }
}

/// Appending an event for one execution leaves the events of every other execution as they
/// are, and adds the event at the end of those of its own.
pub proof fn lemma_append_is_local(all: Seq<SpecEvent>, event: SpecEvent, id: Seq<char>)
    ensures
        events_of(all.push(event), id) == (if event.execution_id == id {
            events_of(all, id).push(event)
        } else {
            events_of(all, id)
        }),
{
    assert(all.push(event).drop_last() =~= all);
}

} // verus!
