//! Bounded IPC audit: event conversion, the fixed ABI records and the ring
//! buffer that keeps the most recent events.
use vstd::prelude::*;

use super::api::{IpcError, IpcOperation, IpcRequest, IpcResult, IpcSubject};

verus! {

/// Number of events the kernel keeps.
pub const AUDIT_RING_CAPACITY: usize = 256;

/// Largest number of events one audit read returns.
pub const AUDIT_READ_MAX_RECORDS: usize = 32;

/// Version of the audit ABI.
pub const AUDIT_ABI_VERSION: u16 = 1;

/// Size in bytes of an encoded `AuditRecordV1`.
pub const AUDIT_RECORD_V1_SIZE: u16 = 80;

/// Size in bytes of an encoded `IpcStatsV1`.
pub const IPC_STATS_V1_SIZE: u16 = 80;

/// Record flag: events the reader had not yet read were overwritten before
/// the first record of this batch.
pub const AUDIT_RECORD_F_GAP_BEFORE: u16 = 1;

/// Object id used when there is no concrete resource.
pub const AUDIT_OBJECT_NONE: u64 = 0;

/// Owner UID used when the owner is unknown (never 0, which means root).
pub const AUDIT_UID_UNKNOWN: u32 = 0xFFFF_FFFF;

pub const AUDIT_OP_UNSPECIFIED: u16 = 0;
pub const AUDIT_OP_SIGNAL_SEND: u16 = 1;
pub const AUDIT_OP_PIPE_CREATE: u16 = 2;
pub const AUDIT_OP_PIPE_READ: u16 = 3;
pub const AUDIT_OP_PIPE_WRITE: u16 = 4;
pub const AUDIT_OP_AUDIT_READ: u16 = 5;
pub const AUDIT_OP_IPC_STAT: u16 = 6;

/// The stable record handed to user space; field order and types follow
/// ABI v1 (see `record_bytes` for the byte layout).
#[derive(Clone, Copy, Debug, Default, PartialEq, Eq, Structural)]
pub struct AuditRecordV1 {
    pub abi_version: u16,
    pub record_size: u16,
    pub operation: u16,
    pub flags: u16,
    pub errno: i32,
    pub subject_uid: u32,
    pub object_owner_uid: u32,
    pub reserved0: u32,
    pub sequence: u64,
    pub timestamp_ms: u64,
    pub subject_pid: u64,
    pub object_id: u64,
    pub requested_amount: u64,
    pub result_value: u64,
    pub reserved1: u64,
}

/// The statistics snapshot handed to user space.
#[derive(Clone, Copy, Debug, Default, PartialEq, Eq, Structural)]
pub struct IpcStatsV1 {
    pub abi_version: u16,
    pub struct_size: u16,
    pub flags: u32,
    pub capacity: u64,
    pub retained: u64,
    pub first_sequence: u64,
    pub next_sequence: u64,
    pub total_events: u64,
    pub successful_events: u64,
    pub failed_events: u64,
    pub overwritten_events: u64,
    pub reserved0: u64,
}

/// Stable audit number of an operation.
pub open spec fn audit_id(operation: IpcOperation) -> u16 {
    match operation {
        IpcOperation::SignalSend => AUDIT_OP_SIGNAL_SEND,
        IpcOperation::PipeCreate => AUDIT_OP_PIPE_CREATE,
        IpcOperation::PipeRead => AUDIT_OP_PIPE_READ,
        IpcOperation::PipeWrite => AUDIT_OP_PIPE_WRITE,
        IpcOperation::AuditRead => AUDIT_OP_AUDIT_READ,
    }
}

/// Positive errno of an error.
pub open spec fn errno_of(error: IpcError) -> i32 {
    match error {
        IpcError::PermissionDenied => 1,
        IpcError::ProcessNotFound => 3,
        IpcError::TryAgain => 11,
        IpcError::InvalidAddress => 14,
        IpcError::InvalidArgument => 22,
        IpcError::TooManyFiles => 24,
        IpcError::ResourceExhausted => 28,
    }
}

/// Map an operation to its stable audit number.
pub fn operation_to_audit_id(operation: IpcOperation) -> (r: u16)
    ensures
        r == audit_id(operation),
{
    match operation {
        IpcOperation::SignalSend => AUDIT_OP_SIGNAL_SEND,
        IpcOperation::PipeCreate => AUDIT_OP_PIPE_CREATE,
        IpcOperation::PipeRead => AUDIT_OP_PIPE_READ,
        IpcOperation::PipeWrite => AUDIT_OP_PIPE_WRITE,
        IpcOperation::AuditRead => AUDIT_OP_AUDIT_READ,
    }
}

/// Positive errno of an error; syscalls return its negation.
pub fn error_to_errno(error: IpcError) -> (r: i32)
    ensures
        r == errno_of(error),
        r > 0,
{
    match error {
        IpcError::PermissionDenied => 1,
        IpcError::ProcessNotFound => 3,
        IpcError::TryAgain => 11,
        IpcError::InvalidAddress => 14,
        IpcError::InvalidArgument => 22,
        IpcError::TooManyFiles => 24,
        IpcError::ResourceExhausted => 28,
    }
}

/// Control operations of the audit module itself.
#[derive(Clone, Copy, Debug, PartialEq, Eq, Structural)]
pub enum AuditControlOperation {
    AuditRead,
    IpcStat,
}

/// An event as kept by the kernel; never copied to user space as is.
///
/// Events waiting to be stored have sequence 0; the ring assigns the real
/// sequence number when it accepts the event.
#[derive(Clone, Copy, Debug, PartialEq, Eq, Structural)]
pub struct AuditEvent {
    pub sequence: u64,
    pub timestamp_ms: u64,
    pub operation: u16,
    pub errno: i32,
    pub subject_pid: u64,
    pub subject_uid: u32,
    pub object_id: u64,
    pub object_owner_uid: u32,
    pub requested_amount: u64,
    pub result_value: u64,
}

/// The all-zero event used to fill unused slots.
pub open spec fn empty_event() -> AuditEvent {
    AuditEvent {
        sequence: 0,
        timestamp_ms: 0,
        operation: AUDIT_OP_UNSPECIFIED,
        errno: 0,
        subject_pid: 0,
        subject_uid: 0,
        object_id: 0,
        object_owner_uid: 0,
        requested_amount: 0,
        result_value: 0,
    }
}

/// The event that records `outcome` of `request` at `timestamp_ms`.
///
/// A successful signal or pipe creation counts one completed operation; a
/// successful read or write keeps the byte count; an error keeps only its
/// errno and a zero result.
pub open spec fn request_event(
    request: IpcRequest,
    outcome: IpcResult<usize>,
    timestamp_ms: u64,
) -> AuditEvent {
    let (errno, result_value) = match outcome {
        Ok(value) => (
            0i32,
            if request.operation == IpcOperation::SignalSend || request.operation
                == IpcOperation::PipeCreate {
                1u64
            } else {
                value as u64
            },
        ),
        Err(error) => (errno_of(error), 0u64),
    };
    AuditEvent {
        sequence: 0,
        timestamp_ms,
        operation: audit_id(request.operation),
        errno,
        subject_pid: request.subject.pid as u64,
        subject_uid: request.subject.uid,
        object_id: request.object.id,
        object_owner_uid: request.object.owner_uid,
        requested_amount: request.amount as u64,
        result_value,
    }
}

/// The failure event of an audit control call: no object, unknown owner,
/// and a requested amount of 0 for statistics queries.
pub open spec fn control_failure_event(
    operation: AuditControlOperation,
    subject: IpcSubject,
    requested_amount: usize,
    error: IpcError,
    timestamp_ms: u64,
) -> AuditEvent {
    AuditEvent {
        sequence: 0,
        timestamp_ms,
        operation: match operation {
            AuditControlOperation::AuditRead => AUDIT_OP_AUDIT_READ,
            AuditControlOperation::IpcStat => AUDIT_OP_IPC_STAT,
        },
        errno: errno_of(error),
        subject_pid: subject.pid as u64,
        subject_uid: subject.uid,
        object_id: AUDIT_OBJECT_NONE,
        object_owner_uid: AUDIT_UID_UNKNOWN,
        requested_amount: match operation {
            AuditControlOperation::AuditRead => requested_amount as u64,
            AuditControlOperation::IpcStat => 0,
        },
        result_value: 0,
    }
}

/// The user-space copy of an event; the gap flag only affects the copy.
pub open spec fn event_record(event: AuditEvent, gap_before: bool) -> AuditRecordV1 {
    AuditRecordV1 {
        abi_version: AUDIT_ABI_VERSION,
        record_size: AUDIT_RECORD_V1_SIZE,
        operation: event.operation,
        flags: if gap_before { AUDIT_RECORD_F_GAP_BEFORE } else { 0 },
        errno: event.errno,
        subject_uid: event.subject_uid,
        object_owner_uid: event.object_owner_uid,
        reserved0: 0,
        sequence: event.sequence,
        timestamp_ms: event.timestamp_ms,
        subject_pid: event.subject_pid,
        object_id: event.object_id,
        requested_amount: event.requested_amount,
        result_value: event.result_value,
        reserved1: 0,
    }
}

/// The event with its sequence number replaced.
pub open spec fn with_sequence(event: AuditEvent, sequence: u64) -> AuditEvent {
    AuditEvent { sequence, ..event }
}

impl AuditEvent {
    /// The all-zero event used to fill unused slots; not a recorded event.
    pub fn empty() -> (r: Self)
        ensures
            r == empty_event(),
    {
        AuditEvent {
            sequence: 0,
            timestamp_ms: 0,
            operation: AUDIT_OP_UNSPECIFIED,
            errno: 0,
            subject_pid: 0,
            subject_uid: 0,
            object_id: 0,
            object_owner_uid: 0,
            requested_amount: 0,
            result_value: 0,
        }
    }

    /// Build the event of an IPC request and its outcome.
    pub fn from_request(request: &IpcRequest, outcome: &IpcResult<usize>, timestamp_ms: u64) -> (r:
        Self)
        ensures
            r == request_event(*request, *outcome, timestamp_ms),
    {
        let (errno, result_value) = match *outcome {
            Ok(value) => {
                let amount: u64 = match request.operation {
                    IpcOperation::SignalSend | IpcOperation::PipeCreate => 1,
                    _ => value as u64,
                };
                (0i32, amount)
            },
            Err(error) => (error_to_errno(error), 0u64),
        };
        AuditEvent {
            sequence: 0,
            timestamp_ms,
            operation: operation_to_audit_id(request.operation),
            errno,
            subject_pid: request.subject.pid as u64,
            subject_uid: request.subject.uid,
            object_id: request.object.id,
            object_owner_uid: request.object.owner_uid,
            requested_amount: request.amount as u64,
            result_value,
        }
    }

    /// Build the failure event of an audit control call.
    pub fn from_control_failure(
        operation: AuditControlOperation,
        subject: &IpcSubject,
        requested_amount: usize,
        error: IpcError,
        timestamp_ms: u64,
    ) -> (r: Self)
        ensures
            r == control_failure_event(operation, *subject, requested_amount, error, timestamp_ms),
    {
        let (operation, requested_amount): (u16, u64) = match operation {
            AuditControlOperation::AuditRead => (AUDIT_OP_AUDIT_READ, requested_amount as u64),
            AuditControlOperation::IpcStat => (AUDIT_OP_IPC_STAT, 0),
        };
        AuditEvent {
            sequence: 0,
            timestamp_ms,
            operation,
            errno: error_to_errno(error),
            subject_pid: subject.pid as u64,
            subject_uid: subject.uid,
            object_id: AUDIT_OBJECT_NONE,
            object_owner_uid: AUDIT_UID_UNKNOWN,
            requested_amount,
            result_value: 0,
        }
    }

    /// Convert to the user-space ABI copy.
    pub fn to_record(&self, gap_before: bool) -> (r: AuditRecordV1)
        ensures
            r == event_record(*self, gap_before),
    {
        AuditRecordV1 {
            abi_version: AUDIT_ABI_VERSION,
            record_size: AUDIT_RECORD_V1_SIZE,
            operation: self.operation,
            flags: if gap_before {
                AUDIT_RECORD_F_GAP_BEFORE
            } else {
                0
            },
            errno: self.errno,
            subject_uid: self.subject_uid,
            object_owner_uid: self.object_owner_uid,
            reserved0: 0,
            sequence: self.sequence,
            timestamp_ms: self.timestamp_ms,
            subject_pid: self.subject_pid,
            object_id: self.object_id,
            requested_amount: self.requested_amount,
            result_value: self.result_value,
            reserved1: 0,
        }
    }
}

/// A bounded snapshot of events, detached from the ring.
#[derive(Debug)]
pub struct AuditBatch {
    pub events: Vec<AuditEvent>,
    pub len: usize,
    pub gap_before: bool,
}

/// The record at `index` of a batch: only valid slots give a record, and only
/// the first one may carry the gap flag.
pub open spec fn batch_record(batch: AuditBatch, index: usize) -> Option<AuditRecordV1> {
    if index < batch.len && index < batch.events@.len() {
        Some(event_record(batch.events@[index as int], index == 0 && batch.gap_before))
    } else {
        None
    }
}

impl AuditBatch {
    /// A batch with no valid record; every slot holds the empty event.
    pub fn empty() -> (r: Self)
        ensures
            r.len == 0,
            !r.gap_before,
            r.events@.len() == AUDIT_READ_MAX_RECORDS,
            forall|i: int| 0 <= i < r.events@.len() ==> r.events@[i] == empty_event(),
    {
        let mut events: Vec<AuditEvent> = Vec::new();
        let mut i: usize = 0;
        while i < AUDIT_READ_MAX_RECORDS
            invariant
                i <= AUDIT_READ_MAX_RECORDS,
                events@.len() == i,
                forall|j: int| 0 <= j < i ==> events@[j] == empty_event(),
            decreases AUDIT_READ_MAX_RECORDS - i,
        {
            events.push(AuditEvent::empty());
            i = i + 1;
        }
        AuditBatch { events, len: 0, gap_before: false }
    }

    /// Convert the valid record at `index`; the gap flag is set at most on
    /// the first record of the batch.
    pub fn record_at(&self, index: usize) -> (r: Option<AuditRecordV1>)
        ensures
            r == batch_record(*self, index),
    {
        if index >= self.len {
            return None;
        }
        if index < self.events.len() {
            Some(self.events[index].to_record(index == 0 && self.gap_before))
        } else {
            None
        }
    }
}

/// Consistent statistics taken in one borrow of the ring.
#[derive(Clone, Copy, Debug, PartialEq, Eq, Structural)]
pub struct AuditStatsSnapshot {
    pub capacity: u64,
    pub retained: u64,
    pub first_sequence: u64,
    pub next_sequence: u64,
    pub total_events: u64,
    pub successful_events: u64,
    pub failed_events: u64,
    pub overwritten_events: u64,
}

/// The user-space copy of a statistics snapshot.
pub open spec fn stats_record(s: AuditStatsSnapshot) -> IpcStatsV1 {
    IpcStatsV1 {
        abi_version: AUDIT_ABI_VERSION,
        struct_size: IPC_STATS_V1_SIZE,
        flags: 0,
        capacity: s.capacity,
        retained: s.retained,
        first_sequence: s.first_sequence,
        next_sequence: s.next_sequence,
        total_events: s.total_events,
        successful_events: s.successful_events,
        failed_events: s.failed_events,
        overwritten_events: s.overwritten_events,
        reserved0: 0,
    }
}

impl AuditStatsSnapshot {
    /// Convert an existing snapshot without reading the ring again.
    pub fn to_record(&self) -> (r: IpcStatsV1)
        ensures
            r == stats_record(*self),
    {
        IpcStatsV1 {
            abi_version: AUDIT_ABI_VERSION,
            struct_size: IPC_STATS_V1_SIZE,
            flags: 0,
            capacity: self.capacity,
            retained: self.retained,
            first_sequence: self.first_sequence,
            next_sequence: self.next_sequence,
            total_events: self.total_events,
            successful_events: self.successful_events,
            failed_events: self.failed_events,
            overwritten_events: self.overwritten_events,
            reserved0: 0,
        }
    }
}

/// Physical slot of the `i`-th retained event when the oldest one is at
/// `head` (both below the capacity).
pub open spec fn ring_slot(head: int, i: int) -> int {
    if head + i < AUDIT_RING_CAPACITY {
        head + i
    } else {
        head + i - AUDIT_RING_CAPACITY
    }
}

/// Fixed-capacity ring buffer keeping the most recent events.
pub struct AuditRing {
    events: Vec<AuditEvent>,
    /// Slot of the oldest event.
    head: usize,
    /// Number of retained events.
    len: usize,
    /// Sequence number the next accepted event gets.
    next_sequence: u64,
    total_events: u64,
    successful_events: u64,
    failed_events: u64,
    overwritten_events: u64,
}

impl View for AuditRing {
    type V = Seq<AuditEvent>;

    /// The retained events, oldest first.
    closed spec fn view(&self) -> Seq<AuditEvent> {
        Seq::new(self.len as nat, |i: int| self.events@[ring_slot(self.head as int, i)])
    }
}

impl AuditRing {
    /// Sequence number the next accepted event gets.
    pub closed spec fn next_seq(&self) -> u64 {
        self.next_sequence
    }

    /// Number of accepted events since the ring was created.
    pub closed spec fn total(&self) -> u64 {
        self.total_events
    }

    /// Number of accepted events with errno 0.
    pub closed spec fn successful(&self) -> u64 {
        self.successful_events
    }

    /// Number of accepted events with a non-zero errno.
    pub closed spec fn failed(&self) -> u64 {
        self.failed_events
    }

    /// Number of events dropped to make room for newer ones.
    pub closed spec fn overwritten(&self) -> u64 {
        self.overwritten_events
    }

    /// Sequence number of the oldest retained event (the next one if empty).
    pub open spec fn first_seq(&self) -> int {
        self.next_seq() - self@.len()
    }

    /// The ring invariant: storage of full capacity, and the retained events
    /// carry consecutive sequence numbers ending just before `next_seq`.
    pub closed spec fn wf(&self) -> bool {
        &&& self.events@.len() == AUDIT_RING_CAPACITY
        &&& self.head < AUDIT_RING_CAPACITY
        &&& self.len <= AUDIT_RING_CAPACITY
        &&& self.total_events == self.next_sequence - 1
        &&& self.total_events == self.successful_events + self.failed_events
        &&& self.overwritten_events + self.len == self.total_events
        &&& forall|i: int|
            0 <= i < self.len ==> #[trigger] self.events@[ring_slot(self.head as int, i)].sequence
                == self.next_sequence - self.len + i
    }

    /// Two rings hold the same events and counters.
    pub open spec fn same_as(&self, other: AuditRing) -> bool {
        &&& self@ == other@
        &&& self.next_seq() == other.next_seq()
        &&& self.total() == other.total()
        &&& self.successful() == other.successful()
        &&& self.failed() == other.failed()
        &&& self.overwritten() == other.overwritten()
    }

    /// `self` is `old` after accepting `event`: the event gets the next
    /// sequence number and is appended, the oldest event is dropped when the
    /// ring is full, and the counters move accordingly. Once sequence numbers
    /// are exhausted no event is accepted.
    pub open spec fn appended(&self, old: AuditRing, event: AuditEvent) -> bool {
        if old.next_seq() == u64::MAX {
            self.same_as(old)
        } else {
            let stored = with_sequence(event, old.next_seq());
            &&& self@ == (if old@.len() < AUDIT_RING_CAPACITY {
                old@.push(stored)
            } else {
                old@.drop_first().push(stored)
            })
            &&& self.next_seq() == old.next_seq() + 1
            &&& self.total() == old.total() + 1
            &&& self.successful() == old.successful() + (if event.errno == 0 {
                1int
            } else {
                0int
            })
            &&& self.failed() == old.failed() + (if event.errno == 0 {
                0int
            } else {
                1int
            })
            &&& self.overwritten() == old.overwritten() + (if old@.len() < AUDIT_RING_CAPACITY {
                0int
            } else {
                1int
            })
        }
    }

    /// The retained events carry consecutive sequence numbers starting at
    /// `first_seq`, and the counters agree with each other.
    pub proof fn lemma_wf_facts(&self)
        requires
            self.wf(),
        ensures
            self@.len() <= AUDIT_RING_CAPACITY,
            self.first_seq() >= 1,
            self.total() == self.successful() + self.failed(),
            self.overwritten() + self@.len() == self.total(),
            self.total() == self.next_seq() - 1,
            forall|i: int| 0 <= i < self@.len() ==> #[trigger] self@[i].sequence == self.first_seq() + i,
    {
        assert forall|i: int| 0 <= i < self@.len() implies #[trigger] self@[i].sequence
            == self.first_seq() + i by {
            assert(self@[i] == self.events@[ring_slot(self.head as int, i)]);
        }
    }

    /// An empty ring whose first event gets sequence number 1.
    pub fn new() -> (r: Self)
        ensures
            r.wf(),
            r@ == Seq::<AuditEvent>::empty(),
            r.next_seq() == 1,
            r.total() == 0,
            r.successful() == 0,
            r.failed() == 0,
            r.overwritten() == 0,
    {
        let mut events: Vec<AuditEvent> = Vec::new();
        let mut i: usize = 0;
        while i < AUDIT_RING_CAPACITY
            invariant
                i <= AUDIT_RING_CAPACITY,
                events@.len() == i,
            decreases AUDIT_RING_CAPACITY - i,
        {
            events.push(AuditEvent::empty());
            i = i + 1;
        }
        let r = AuditRing {
            events,
            head: 0,
            len: 0,
            next_sequence: 1,
            total_events: 0,
            successful_events: 0,
            failed_events: 0,
            overwritten_events: 0,
        };
        assert(r@ =~= Seq::<AuditEvent>::empty());
        r
    }

    /// Store an event, overwriting the oldest one when the ring is full.
    ///
    /// When sequence numbers are exhausted the event is dropped, so that no
    /// number is ever reused. The caller's IPC result never depends on this.
    #[verifier::spinoff_prover]
    pub fn push(&mut self, event: AuditEvent)
        requires
            old(self).wf(),
        ensures
            final(self).wf(),
            final(self).appended(*old(self), event),
    {
        let next_sequence = match self.next_sequence.checked_add(1) {
            Some(n) => n,
            None => {
                return;
            },
        };
        let ghost old_view = self@;
        let ghost old_events = self.events@;
        let mut event = event;
        event.sequence = self.next_sequence;
        let ghost stored = event;
        self.next_sequence = next_sequence;
        if self.len < AUDIT_RING_CAPACITY {
            let index = (self.head + self.len) % AUDIT_RING_CAPACITY;
            assert(index == ring_slot(self.head as int, self.len as int));
            self.events.set(index, event);
            self.len = self.len + 1;
            assert forall|i: int| 0 <= i < self.len implies #[trigger] self.events@[ring_slot(
                self.head as int,
                i,
            )].sequence == self.next_sequence - self.len + i by {
                if i < self.len - 1 {
                    assert(ring_slot(self.head as int, i) != index);
                    assert(old_events[ring_slot(self.head as int, i)].sequence == next_sequence
                        - 1 - (self.len - 1) + i);
                }
            }
            assert(self@ =~= old_view.push(stored)) by {
                assert forall|i: int| 0 <= i < self@.len() implies self@[i] == old_view.push(
                    stored,
                )[i] by {
                    if i < old_view.len() {
                        assert(ring_slot(self.head as int, i) != index);
                    }
                }
            }
        } else {
            let old_head = self.head;
            self.events.set(self.head, event);
            self.head = (self.head + 1) % AUDIT_RING_CAPACITY;
            self.overwritten_events = self.overwritten_events + 1;
            assert forall|i: int| 0 <= i < self.len implies #[trigger] self.events@[ring_slot(
                self.head as int,
                i,
            )].sequence == self.next_sequence - self.len + i by {
                if i < AUDIT_RING_CAPACITY - 1 {
                    assert(ring_slot(self.head as int, i) == ring_slot(old_head as int, i + 1));
                    assert(ring_slot(old_head as int, i + 1) != old_head);
                    assert(old_events[ring_slot(old_head as int, i + 1)].sequence == next_sequence
                        - 1 - AUDIT_RING_CAPACITY + i + 1);
                } else {
                    assert(ring_slot(self.head as int, i) == old_head);
                }
            }
            assert(self@ =~= old_view.drop_first().push(stored)) by {
                assert forall|i: int| 0 <= i < self@.len() implies self@[i]
                    == old_view.drop_first().push(stored)[i] by {
                    if i < AUDIT_RING_CAPACITY - 1 {
                        assert(ring_slot(self.head as int, i) == ring_slot(old_head as int, i + 1));
                        assert(ring_slot(old_head as int, i + 1) != old_head);
                    } else {
                        assert(ring_slot(self.head as int, i) == old_head);
                    }
                }
            }
        }
        self.total_events = self.total_events + 1;
        if event.errno == 0 {
            self.successful_events = self.successful_events + 1;
        } else {
            self.failed_events = self.failed_events + 1;
        }
    }

    /// Oldest retained sequence number; the next one when the ring is empty.
    pub fn first_sequence(&self) -> (r: u64)
        requires
            self.wf(),
        ensures
            r == self.first_seq(),
    {
        if self.len == 0 {
            self.next_sequence
        } else {
            proof {
                assert(self@[0] == self.events@[ring_slot(self.head as int, 0)]);
            }
            self.events[self.head].sequence
        }
    }
}

/// Sequence number a read after `after` starts at: the one after the cursor,
/// or the oldest retained one when the cursor fell behind.
pub open spec fn snapshot_start(ring: AuditRing, after: u64) -> int {
    vstd::math::max(after + 1, ring.first_seq())
}

/// Number of events a read after `after` with room for `capacity` records
/// returns: at most `AUDIT_READ_MAX_RECORDS`, and none when there is no room,
/// no event, an exhausted cursor or nothing newer than the cursor.
pub open spec fn snapshot_count(ring: AuditRing, after: u64, capacity: usize) -> int {
    let limit = vstd::math::min(capacity as int, AUDIT_READ_MAX_RECORDS as int);
    let start = snapshot_start(ring, after);
    if limit == 0 || ring@.len() == 0 || after == u64::MAX || start >= ring.next_seq() {
        0
    } else {
        vstd::math::min(ring.next_seq() - start, limit)
    }
}

/// The events a read returns, oldest first.
pub open spec fn snapshot_events(ring: AuditRing, after: u64, capacity: usize) -> Seq<AuditEvent> {
    let offset = snapshot_start(ring, after) - ring.first_seq();
    if snapshot_count(ring, after, capacity) == 0 {
        Seq::empty()
    } else {
        ring@.subrange(offset, offset + snapshot_count(ring, after, capacity))
    }
}

/// Whether events newer than the cursor were overwritten before the batch.
pub open spec fn snapshot_gap(ring: AuditRing, after: u64, capacity: usize) -> bool {
    snapshot_count(ring, after, capacity) > 0 && after + 1 < ring.first_seq()
}

impl AuditRing {
    /// Non-destructive cursor read: the retained events with a sequence
    /// number above `after`, oldest first, at most `requested_capacity` and
    /// at most `AUDIT_READ_MAX_RECORDS` of them. The gap flag tells whether
    /// unread events were overwritten.
    #[verifier::spinoff_prover]
    pub fn snapshot(&self, after_sequence: u64, requested_capacity: usize) -> (b: AuditBatch)
        requires
            self.wf(),
        ensures
            b.events@.len() == AUDIT_READ_MAX_RECORDS,
            b.len == snapshot_count(*self, after_sequence, requested_capacity),
            b.events@.subrange(0, b.len as int) == snapshot_events(
                *self,
                after_sequence,
                requested_capacity,
            ),
            b.gap_before == snapshot_gap(*self, after_sequence, requested_capacity),
    {
        let limit = if requested_capacity < AUDIT_READ_MAX_RECORDS {
            requested_capacity
        } else {
            AUDIT_READ_MAX_RECORDS
        };
        if limit == 0 || self.len == 0 || after_sequence == u64::MAX {
            let b = AuditBatch::empty();
            assert(b.events@.subrange(0, 0) =~= snapshot_events(
                *self,
                after_sequence,
                requested_capacity,
            ));
            return b;
        }
        let wanted_sequence = after_sequence + 1;
        let first_sequence = self.first_sequence();
        let start_sequence = if wanted_sequence < first_sequence {
            first_sequence
        } else {
            wanted_sequence
        };
        if start_sequence >= self.next_sequence {
            let b = AuditBatch::empty();
            assert(b.events@.subrange(0, 0) =~= snapshot_events(
                *self,
                after_sequence,
                requested_capacity,
            ));
            return b;
        }
        let remaining = self.next_sequence - start_sequence;
        let count: usize = if remaining < limit as u64 {
            remaining as usize
        } else {
            limit
        };
        let offset = (start_sequence - first_sequence) as usize;
        let mut batch = AuditBatch::empty();
        let ghost expected = snapshot_events(*self, after_sequence, requested_capacity);
        assert(offset + count <= self.len);
        let mut batch_index: usize = 0;
        while batch_index < count
            invariant
                self.wf(),
                offset + count <= self.len,
                count <= AUDIT_READ_MAX_RECORDS,
                batch_index <= count,
                batch.events@.len() == AUDIT_READ_MAX_RECORDS,
                batch.len == 0,
                !batch.gap_before,
                expected == self@.subrange(offset as int, offset + count),
                forall|j: int| 0 <= j < batch_index ==> batch.events@[j] == expected[j],
            decreases count - batch_index,
        {
            let ring_index = (self.head + offset + batch_index) % AUDIT_RING_CAPACITY;
            assert(ring_index == ring_slot(self.head as int, offset + batch_index));
            assert(self@[offset + batch_index] == self.events@[ring_index as int]);
            batch.events.set(batch_index, self.events[ring_index]);
            batch_index = batch_index + 1;
        }
        batch.len = count;
        batch.gap_before = wanted_sequence < first_sequence;
        assert(batch.events@.subrange(0, batch.len as int) =~= expected);
        batch
    }

    /// All statistics from one borrow; the counters satisfy the ABI
    /// invariants.
    pub fn stats(&self) -> (r: AuditStatsSnapshot)
        requires
            self.wf(),
        ensures
            r == ring_stats(*self),
            r.capacity == AUDIT_RING_CAPACITY,
            r.retained == self@.len(),
            r.first_sequence == self.first_seq(),
            r.next_sequence == self.next_seq(),
            r.total_events == self.total(),
            r.successful_events == self.successful(),
            r.failed_events == self.failed(),
            r.overwritten_events == self.overwritten(),
            r.retained <= r.capacity,
            r.total_events == r.successful_events + r.failed_events,
            r.next_sequence - r.first_sequence == r.retained,
            r.first_sequence >= 1,
            r.overwritten_events + r.retained == r.total_events,
    {
        proof {
            self.lemma_wf_facts();
        }
        AuditStatsSnapshot {
            capacity: AUDIT_RING_CAPACITY as u64,
            retained: self.len as u64,
            first_sequence: self.first_sequence(),
            next_sequence: self.next_sequence,
            total_events: self.total_events,
            successful_events: self.successful_events,
            failed_events: self.failed_events,
            overwritten_events: self.overwritten_events,
        }
    }
}

/// The statistics of a ring, as `stats` takes them.
pub open spec fn ring_stats(ring: AuditRing) -> AuditStatsSnapshot {
    AuditStatsSnapshot {
        capacity: AUDIT_RING_CAPACITY as u64,
        retained: ring@.len() as u64,
        first_sequence: ring.first_seq() as u64,
        next_sequence: ring.next_seq(),
        total_events: ring.total(),
        successful_events: ring.successful(),
        failed_events: ring.failed(),
        overwritten_events: ring.overwritten(),
    }
}

/// The gap flag of a cursor read means exactly that events newer than the
/// cursor were overwritten: a batch is returned and the oldest retained
/// event is not the one right after the cursor. A read from just before
/// the oldest retained event, such as a read from 0 on a ring that has
/// lost nothing, has no gap.
pub proof fn lemma_gap_means_overwritten(ring: AuditRing, after: u64, capacity: usize)
    requires
        ring.wf(),
    ensures
        snapshot_gap(ring, after, capacity) <==> (snapshot_count(ring, after, capacity) > 0
            && ring@[0].sequence > after + 1),
        ring.overwritten() == 0 ==> !snapshot_gap(ring, after, capacity),
        after + 1 >= ring.first_seq() ==> !snapshot_gap(ring, after, capacity),
{
    ring.lemma_wf_facts();
    if snapshot_count(ring, after, capacity) > 0 {
        assert(ring@.len() > 0);
        assert(ring@[0].sequence == ring.first_seq());
    }
    if ring.overwritten() == 0 {
        assert(ring.first_seq() == 1);
    }
}

/// What a cursor read returns: at most the requested number of records and
/// at most `AUDIT_READ_MAX_RECORDS`; only retained events newer than the
/// cursor, oldest first with consecutive sequence numbers; none newer left
/// out unless the batch is full; the batch starts right after the cursor
/// unless the gap flag says that unread events were overwritten, in which
/// case it starts at the oldest retained event.
pub proof fn lemma_snapshot_semantics(ring: AuditRing, after: u64, capacity: usize)
    requires
        ring.wf(),
    ensures
        ({
            let n = snapshot_count(ring, after, capacity);
            let ev = snapshot_events(ring, after, capacity);
            let limit = vstd::math::min(capacity as int, AUDIT_READ_MAX_RECORDS as int);
            &&& ev.len() == n
            &&& 0 <= n <= limit
            &&& forall|i: int|
                0 <= i < n ==> #[trigger] ev[i].sequence == snapshot_start(ring, after) + i
                    && ev[i].sequence > after
            &&& forall|i: int|
                0 <= i < n ==> #[trigger] ev[i] == ring@[snapshot_start(ring, after)
                    - ring.first_seq() + i]
            &&& (0 < n < limit ==> ev[n - 1].sequence == ring.next_seq() - 1)
            &&& (n == 0 && limit > 0 && after < u64::MAX ==> forall|i: int|
                0 <= i < ring@.len() ==> #[trigger] ring@[i].sequence <= after)
            &&& (n > 0 && !snapshot_gap(ring, after, capacity) ==> ev[0].sequence == after + 1)
            &&& (snapshot_gap(ring, after, capacity) ==> ev[0] == ring@[0])
        }),
{
    ring.lemma_wf_facts();
    let n = snapshot_count(ring, after, capacity);
    let limit = vstd::math::min(capacity as int, AUDIT_READ_MAX_RECORDS as int);
    if n == 0 && limit > 0 && after < u64::MAX {
        assert forall|i: int| 0 <= i < ring@.len() implies #[trigger] ring@[i].sequence
            <= after by {
            assert(ring@[i].sequence == ring.first_seq() + i);
        }
    }
}

/// A read right after a write gives back exactly the written event, with
/// the sequence number it was given and no gap.
pub proof fn lemma_read_after_write(old: AuditRing, new: AuditRing, event: AuditEvent, capacity: usize)
    requires
        old.wf(),
        new.wf(),
        new.appended(old, event),
        old.next_seq() < u64::MAX,
        capacity >= 1,
    ensures
        snapshot_count(new, (old.next_seq() - 1) as u64, capacity) == 1,
        snapshot_events(new, (old.next_seq() - 1) as u64, capacity) == seq![
            with_sequence(event, old.next_seq()),
        ],
        !snapshot_gap(new, (old.next_seq() - 1) as u64, capacity),
{
    old.lemma_wf_facts();
    new.lemma_wf_facts();
    let after = (old.next_seq() - 1) as u64;
    let stored = with_sequence(event, old.next_seq());
    assert(new@.last() == stored);
    assert(snapshot_start(new, after) == old.next_seq());
    assert(snapshot_events(new, after, capacity) =~= seq![stored]);
}

/// Paging with the last returned sequence number as the next cursor neither
/// repeats nor skips events while the ring does not change: the next batch
/// has no gap and starts right after the last returned record.
pub proof fn lemma_cursor_continuation(ring: AuditRing, after: u64, capacity: usize)
    requires
        ring.wf(),
        snapshot_count(ring, after, capacity) > 0,
    ensures
        ({
            let ev = snapshot_events(ring, after, capacity);
            let last = ev[ev.len() - 1].sequence;
            &&& !snapshot_gap(ring, last, capacity)
            &&& snapshot_count(ring, last, capacity) > 0 ==> snapshot_events(ring, last, capacity)[0].sequence
                == last + 1
        }),
{
    lemma_snapshot_semantics(ring, after, capacity);
    let ev = snapshot_events(ring, after, capacity);
    let last = ev[ev.len() - 1].sequence;
    lemma_snapshot_semantics(ring, last, capacity);
}

/// Number of events in `events` with a non-zero errno.
pub open spec fn failure_count(events: Seq<AuditEvent>) -> nat
    decreases events.len(),
{
    if events.len() == 0 {
        0
    } else {
        failure_count(events.drop_last()) + if events.last().errno != 0 {
            1nat
        } else {
            0nat
        }
    }
}

/// `events` as the ring stores them when the first one gets sequence
/// number `first`.
pub open spec fn stored_events(events: Seq<AuditEvent>, first: int) -> Seq<AuditEvent> {
    Seq::new(events.len(), |i: int| with_sequence(events[i], (first + i) as u64))
}

/// `rings[i + 1]` is `rings[i]` after accepting `events[i]`, for every `i`.
pub open spec fn appended_each(rings: Seq<AuditRing>, events: Seq<AuditEvent>) -> bool {
    &&& rings.len() == events.len() + 1
    &&& forall|i: int|
        #![trigger events[i]]
        0 <= i < events.len() ==> rings[i + 1].appended(rings[i], events[i])
}

/// What `k` accepted events make of the ring `a`: the old retained events
/// followed by the new ones, minus the oldest beyond the capacity, and
/// counters advanced by what was appended or dropped.
pub open spec fn after_appending(a: AuditRing, b: AuditRing, events: Seq<AuditEvent>) -> bool {
    let n = events.len() as int;
    let dropped = vstd::math::max(0, a@.len() + n - AUDIT_RING_CAPACITY);
    &&& b@ == (a@ + stored_events(events, a.next_seq() as int)).skip(dropped)
    &&& b@.len() == vstd::math::min(a@.len() + n, AUDIT_RING_CAPACITY as int)
    &&& b.next_seq() == a.next_seq() + n
    &&& b.total() == a.total() + n
    &&& b.failed() == a.failed() + failure_count(events)
    &&& b.successful() == a.successful() + n - failure_count(events)
    &&& b.overwritten() == a.overwritten() + dropped
}

proof fn lemma_append_prefix(rings: Seq<AuditRing>, events: Seq<AuditEvent>, k: int)
    requires
        appended_each(rings, events),
        rings[0].wf(),
        rings[0].next_seq() + events.len() <= u64::MAX,
        0 <= k <= events.len(),
    ensures
        after_appending(rings[0], rings[k], events.take(k)),
    decreases k,
{
    let a = rings[0];
    a.lemma_wf_facts();
    if k == 0 {
        assert(events.take(0) =~= Seq::<AuditEvent>::empty());
        assert(stored_events(events.take(0), a.next_seq() as int) =~= Seq::<AuditEvent>::empty());
        assert((a@ + Seq::<AuditEvent>::empty()).skip(0) =~= a@);
    } else {
        lemma_append_prefix(rings, events, k - 1);
        let prev = rings[k - 1];
        let cur = rings[k];
        let e = events[k - 1];
        assert(cur.appended(prev, e));
        let first = a.next_seq() as int;
        let s = with_sequence(e, prev.next_seq());
        let before = events.take(k - 1);
        let now = events.take(k);
        assert(now.drop_last() =~= before);
        assert(now.last() == e);
        assert(stored_events(now, first) =~= stored_events(before, first).push(s));
        let whole_before = a@ + stored_events(before, first);
        let whole_now = a@ + stored_events(now, first);
        assert(whole_now =~= whole_before.push(s));
        let d_before = vstd::math::max(0, a@.len() + (k - 1) - AUDIT_RING_CAPACITY);
        if prev@.len() < AUDIT_RING_CAPACITY {
            assert(d_before == 0);
            assert(whole_before.skip(0) =~= whole_before);
            assert(whole_now.skip(0) =~= whole_now);
        } else {
            assert(whole_before.skip(d_before).drop_first().push(s) =~= whole_now.skip(
                d_before + 1,
            ));
        }
    }
}

/// The ring after a run of accepted events depends only on how many there
/// were and how full it was: it keeps the newest `capacity` of the old
/// retained events followed by the new ones (numbered on from `next_seq`),
/// `retained` grows to at most the capacity, `overwritten` grows by what
/// no longer fits, and `total`, `next_seq`, `failed` and `successful` grow
/// by the number of events of each kind. Sequence numbers must not run out
/// on the way.
pub proof fn lemma_append_many(rings: Seq<AuditRing>, events: Seq<AuditEvent>)
    requires
        appended_each(rings, events),
        rings[0].wf(),
        rings[0].next_seq() + events.len() <= u64::MAX,
    ensures
        after_appending(rings[0], rings.last(), events),
{
    lemma_append_prefix(rings, events, events.len() as int);
    assert(events.take(events.len() as int) =~= events);
}

/// A successful audit read is not recorded, so that a reader is never behind
/// events caused by its own reading.
pub open spec fn is_read_feedback(request: IpcRequest, outcome: IpcResult<usize>) -> bool {
    request.operation == IpcOperation::AuditRead && outcome is Ok
}

/// Record the outcome of an IPC request; the outcome itself is untouched.
pub fn record(
    ring: &mut AuditRing,
    request: &IpcRequest,
    outcome: &IpcResult<usize>,
    timestamp_ms: u64,
)
    requires
        old(ring).wf(),
    ensures
        final(ring).wf(),
        is_read_feedback(*request, *outcome) ==> final(ring).same_as(*old(ring)),
        !is_read_feedback(*request, *outcome) ==> final(ring).appended(
            *old(ring),
            request_event(*request, *outcome, timestamp_ms),
        ),
{
    if request.operation == IpcOperation::AuditRead && outcome.is_ok() {
        return;
    }
    let event = AuditEvent::from_request(request, outcome, timestamp_ms);
    ring.push(event);
}

/// Record the failure of an audit control call (a read or a statistics
/// query); successful control calls are never recorded.
pub fn record_control_failure(
    ring: &mut AuditRing,
    operation: AuditControlOperation,
    subject: &IpcSubject,
    requested_amount: usize,
    error: IpcError,
    timestamp_ms: u64,
)
    requires
        old(ring).wf(),
    ensures
        final(ring).wf(),
        final(ring).appended(
            *old(ring),
            control_failure_event(operation, *subject, requested_amount, error, timestamp_ms),
        ),
{
    let event = AuditEvent::from_control_failure(
        operation,
        subject,
        requested_amount,
        error,
        timestamp_ms,
    );
    ring.push(event);
}

/// Little-endian bytes of the low `n` bytes of `v`.
pub open spec fn le_bytes(v: nat, n: nat) -> Seq<u8>
    decreases n,
{
    if n == 0 {
        Seq::empty()
    } else {
        seq![(v % 256) as u8] + le_bytes(v / 256, (n - 1) as nat)
    }
}

/// The 80-byte ABI v1 encoding of a record: each field little-endian at its
/// fixed offset (0, 2, 4, 6, 8, 12, 16, 20, 24, 32, 40, 48, 56, 64, 72).
pub open spec fn record_bytes(r: AuditRecordV1) -> Seq<u8> {
    le_bytes(r.abi_version as nat, 2) + le_bytes(r.record_size as nat, 2) + le_bytes(
        r.operation as nat,
        2,
    ) + le_bytes(r.flags as nat, 2) + le_bytes((r.errno as u32) as nat, 4) + le_bytes(
        r.subject_uid as nat,
        4,
    ) + le_bytes(r.object_owner_uid as nat, 4) + le_bytes(r.reserved0 as nat, 4) + le_bytes(
        r.sequence as nat,
        8,
    ) + le_bytes(r.timestamp_ms as nat, 8) + le_bytes(r.subject_pid as nat, 8) + le_bytes(
        r.object_id as nat,
        8,
    ) + le_bytes(r.requested_amount as nat, 8) + le_bytes(r.result_value as nat, 8) + le_bytes(
        r.reserved1 as nat,
        8,
    )
}

/// The 80-byte ABI v1 encoding of a statistics snapshot (field offsets 0,
/// 2, 4, 8, 16, 24, 32, 40, 48, 56, 64, 72).
pub open spec fn stats_bytes(s: IpcStatsV1) -> Seq<u8> {
    le_bytes(s.abi_version as nat, 2) + le_bytes(s.struct_size as nat, 2) + le_bytes(
        s.flags as nat,
        4,
    ) + le_bytes(s.capacity as nat, 8) + le_bytes(s.retained as nat, 8) + le_bytes(
        s.first_sequence as nat,
        8,
    ) + le_bytes(s.next_sequence as nat, 8) + le_bytes(s.total_events as nat, 8) + le_bytes(
        s.successful_events as nat,
        8,
    ) + le_bytes(s.failed_events as nat, 8) + le_bytes(s.overwritten_events as nat, 8)
        + le_bytes(s.reserved0 as nat, 8)
}

pub(crate) proof fn lemma_le_bytes_len(v: nat, n: nat)
    ensures
        le_bytes(v, n).len() == n,
    decreases n,
{
    if n > 0 {
        lemma_le_bytes_len(v / 256, (n - 1) as nat);
    }
}

/// Value of little-endian bytes, least significant first.
pub open spec fn le_value(bytes: Seq<u8>) -> nat
    decreases bytes.len(),
{
    if bytes.len() == 0 {
        0
    } else {
        bytes[0] as nat + 256 * le_value(bytes.drop_first())
    }
}

/// 256 to the power `n`: the first value that does not fit in `n` bytes.
pub open spec fn byte_bound(n: nat) -> nat
    decreases n,
{
    if n == 0 {
        1
    } else {
        256 * byte_bound((n - 1) as nat)
    }
}

/// Reading back the low `n` bytes of a value that fits in them gives the
/// value.
pub proof fn lemma_le_roundtrip(v: nat, n: nat)
    requires
        v < byte_bound(n),
    ensures
        le_value(le_bytes(v, n)) == v,
        le_bytes(v, n).len() == n,
    decreases n,
{
    lemma_le_bytes_len(v, n);
    if n > 0 {
        lemma_le_roundtrip(v / 256, (n - 1) as nat);
        assert(le_bytes(v, n).drop_first() =~= le_bytes(v / 256, (n - 1) as nat));
    }
}

/// The ABI v1 record layout: a reader of the 80 encoded bytes finds every
/// field, little-endian, at its documented offset; the errno is stored as
/// its 32-bit two's complement.
pub proof fn lemma_record_layout(r: AuditRecordV1)
    ensures
        record_bytes(r).len() == 80,
        le_value(record_bytes(r).subrange(0, 2)) == r.abi_version,
        le_value(record_bytes(r).subrange(2, 4)) == r.record_size,
        le_value(record_bytes(r).subrange(4, 6)) == r.operation,
        le_value(record_bytes(r).subrange(6, 8)) == r.flags,
        le_value(record_bytes(r).subrange(8, 12)) == r.errno as u32,
        le_value(record_bytes(r).subrange(12, 16)) == r.subject_uid,
        le_value(record_bytes(r).subrange(16, 20)) == r.object_owner_uid,
        le_value(record_bytes(r).subrange(20, 24)) == r.reserved0,
        le_value(record_bytes(r).subrange(24, 32)) == r.sequence,
        le_value(record_bytes(r).subrange(32, 40)) == r.timestamp_ms,
        le_value(record_bytes(r).subrange(40, 48)) == r.subject_pid,
        le_value(record_bytes(r).subrange(48, 56)) == r.object_id,
        le_value(record_bytes(r).subrange(56, 64)) == r.requested_amount,
        le_value(record_bytes(r).subrange(64, 72)) == r.result_value,
        le_value(record_bytes(r).subrange(72, 80)) == r.reserved1,
{
    reveal_with_fuel(byte_bound, 9);
    let f0 = le_bytes(r.abi_version as nat, 2);
    let f1 = le_bytes(r.record_size as nat, 2);
    let f2 = le_bytes(r.operation as nat, 2);
    let f3 = le_bytes(r.flags as nat, 2);
    let f4 = le_bytes((r.errno as u32) as nat, 4);
    let f5 = le_bytes(r.subject_uid as nat, 4);
    let f6 = le_bytes(r.object_owner_uid as nat, 4);
    let f7 = le_bytes(r.reserved0 as nat, 4);
    let f8 = le_bytes(r.sequence as nat, 8);
    let f9 = le_bytes(r.timestamp_ms as nat, 8);
    let f10 = le_bytes(r.subject_pid as nat, 8);
    let f11 = le_bytes(r.object_id as nat, 8);
    let f12 = le_bytes(r.requested_amount as nat, 8);
    let f13 = le_bytes(r.result_value as nat, 8);
    let f14 = le_bytes(r.reserved1 as nat, 8);
    lemma_le_roundtrip(r.abi_version as nat, 2);
    lemma_le_roundtrip(r.record_size as nat, 2);
    lemma_le_roundtrip(r.operation as nat, 2);
    lemma_le_roundtrip(r.flags as nat, 2);
    lemma_le_roundtrip((r.errno as u32) as nat, 4);
    lemma_le_roundtrip(r.subject_uid as nat, 4);
    lemma_le_roundtrip(r.object_owner_uid as nat, 4);
    lemma_le_roundtrip(r.reserved0 as nat, 4);
    lemma_le_roundtrip(r.sequence as nat, 8);
    lemma_le_roundtrip(r.timestamp_ms as nat, 8);
    lemma_le_roundtrip(r.subject_pid as nat, 8);
    lemma_le_roundtrip(r.object_id as nat, 8);
    lemma_le_roundtrip(r.requested_amount as nat, 8);
    lemma_le_roundtrip(r.result_value as nat, 8);
    lemma_le_roundtrip(r.reserved1 as nat, 8);
    let b = record_bytes(r);
    assert(b =~= f0 + f1 + f2 + f3 + f4 + f5 + f6 + f7 + f8 + f9 + f10 + f11 + f12 + f13 + f14);
    assert(b.subrange(0, 2) =~= f0);
    assert(b.subrange(2, 4) =~= f1);
    assert(b.subrange(4, 6) =~= f2);
    assert(b.subrange(6, 8) =~= f3);
    assert(b.subrange(8, 12) =~= f4);
    assert(b.subrange(12, 16) =~= f5);
    assert(b.subrange(16, 20) =~= f6);
    assert(b.subrange(20, 24) =~= f7);
    assert(b.subrange(24, 32) =~= f8);
    assert(b.subrange(32, 40) =~= f9);
    assert(b.subrange(40, 48) =~= f10);
    assert(b.subrange(48, 56) =~= f11);
    assert(b.subrange(56, 64) =~= f12);
    assert(b.subrange(64, 72) =~= f13);
    assert(b.subrange(72, 80) =~= f14);
}

/// The ABI v1 statistics layout: a reader of the 80 encoded bytes finds
/// every field, little-endian, at its documented offset.
pub proof fn lemma_stats_layout(s: IpcStatsV1)
    ensures
        stats_bytes(s).len() == 80,
        le_value(stats_bytes(s).subrange(0, 2)) == s.abi_version,
        le_value(stats_bytes(s).subrange(2, 4)) == s.struct_size,
        le_value(stats_bytes(s).subrange(4, 8)) == s.flags,
        le_value(stats_bytes(s).subrange(8, 16)) == s.capacity,
        le_value(stats_bytes(s).subrange(16, 24)) == s.retained,
        le_value(stats_bytes(s).subrange(24, 32)) == s.first_sequence,
        le_value(stats_bytes(s).subrange(32, 40)) == s.next_sequence,
        le_value(stats_bytes(s).subrange(40, 48)) == s.total_events,
        le_value(stats_bytes(s).subrange(48, 56)) == s.successful_events,
        le_value(stats_bytes(s).subrange(56, 64)) == s.failed_events,
        le_value(stats_bytes(s).subrange(64, 72)) == s.overwritten_events,
        le_value(stats_bytes(s).subrange(72, 80)) == s.reserved0,
{
    reveal_with_fuel(byte_bound, 9);
    let f0 = le_bytes(s.abi_version as nat, 2);
    let f1 = le_bytes(s.struct_size as nat, 2);
    let f2 = le_bytes(s.flags as nat, 4);
    let f3 = le_bytes(s.capacity as nat, 8);
    let f4 = le_bytes(s.retained as nat, 8);
    let f5 = le_bytes(s.first_sequence as nat, 8);
    let f6 = le_bytes(s.next_sequence as nat, 8);
    let f7 = le_bytes(s.total_events as nat, 8);
    let f8 = le_bytes(s.successful_events as nat, 8);
    let f9 = le_bytes(s.failed_events as nat, 8);
    let f10 = le_bytes(s.overwritten_events as nat, 8);
    let f11 = le_bytes(s.reserved0 as nat, 8);
    lemma_le_roundtrip(s.abi_version as nat, 2);
    lemma_le_roundtrip(s.struct_size as nat, 2);
    lemma_le_roundtrip(s.flags as nat, 4);
    lemma_le_roundtrip(s.capacity as nat, 8);
    lemma_le_roundtrip(s.retained as nat, 8);
    lemma_le_roundtrip(s.first_sequence as nat, 8);
    lemma_le_roundtrip(s.next_sequence as nat, 8);
    lemma_le_roundtrip(s.total_events as nat, 8);
    lemma_le_roundtrip(s.successful_events as nat, 8);
    lemma_le_roundtrip(s.failed_events as nat, 8);
    lemma_le_roundtrip(s.overwritten_events as nat, 8);
    lemma_le_roundtrip(s.reserved0 as nat, 8);
    let b = stats_bytes(s);
    assert(b =~= f0 + f1 + f2 + f3 + f4 + f5 + f6 + f7 + f8 + f9 + f10 + f11);
    assert(b.subrange(0, 2) =~= f0);
    assert(b.subrange(2, 4) =~= f1);
    assert(b.subrange(4, 8) =~= f2);
    assert(b.subrange(8, 16) =~= f3);
    assert(b.subrange(16, 24) =~= f4);
    assert(b.subrange(24, 32) =~= f5);
    assert(b.subrange(32, 40) =~= f6);
    assert(b.subrange(40, 48) =~= f7);
    assert(b.subrange(48, 56) =~= f8);
    assert(b.subrange(56, 64) =~= f9);
    assert(b.subrange(64, 72) =~= f10);
    assert(b.subrange(72, 80) =~= f11);
}

/// Append the low `n` bytes of `v`, least significant first.
pub(crate) fn push_le(out: &mut Vec<u8>, v: u64, n: usize)
    ensures
        final(out)@ == old(out)@ + le_bytes(v as nat, n as nat),
{
    let mut x = v;
    let mut k: usize = 0;
    while k < n
        invariant
            k <= n,
            out@ + le_bytes(x as nat, (n - k) as nat) == old(out)@ + le_bytes(v as nat, n as nat),
        decreases n - k,
    {
        let ghost before = out@;
        assert(le_bytes(x as nat, (n - k) as nat) == seq![(x as nat % 256) as u8] + le_bytes(
            x as nat / 256,
            (n - k - 1) as nat,
        ));
        out.push((x % 256) as u8);
        assert(out@ == before + seq![(x as nat % 256) as u8]);
        assert(out@ + le_bytes((x / 256) as nat, (n - k - 1) as nat) =~= before + le_bytes(
            x as nat,
            (n - k) as nat,
        ));
        x = x / 256;
        k = k + 1;
    }
    assert(out@ =~= out@ + le_bytes(x as nat, 0));
}

impl AuditRecordV1 {
    /// The bytes copied to user space for this record (ABI v1 layout).
    pub fn encode(&self) -> (r: Vec<u8>)
        ensures
            r@ == record_bytes(*self),
            r@.len() == AUDIT_RECORD_V1_SIZE,
    {
        let mut out: Vec<u8> = Vec::new();
        push_le(&mut out, self.abi_version as u64, 2);
        push_le(&mut out, self.record_size as u64, 2);
        push_le(&mut out, self.operation as u64, 2);
        push_le(&mut out, self.flags as u64, 2);
        push_le(&mut out, (self.errno as u32) as u64, 4);
        push_le(&mut out, self.subject_uid as u64, 4);
        push_le(&mut out, self.object_owner_uid as u64, 4);
        push_le(&mut out, self.reserved0 as u64, 4);
        push_le(&mut out, self.sequence, 8);
        push_le(&mut out, self.timestamp_ms, 8);
        push_le(&mut out, self.subject_pid, 8);
        push_le(&mut out, self.object_id, 8);
        push_le(&mut out, self.requested_amount, 8);
        push_le(&mut out, self.result_value, 8);
        push_le(&mut out, self.reserved1, 8);
        proof {
            assert(out@ =~= record_bytes(*self));
            lemma_le_bytes_len(self.abi_version as nat, 2);
            lemma_le_bytes_len(self.record_size as nat, 2);
            lemma_le_bytes_len(self.operation as nat, 2);
            lemma_le_bytes_len(self.flags as nat, 2);
            lemma_le_bytes_len((self.errno as u32) as nat, 4);
            lemma_le_bytes_len(self.subject_uid as nat, 4);
            lemma_le_bytes_len(self.object_owner_uid as nat, 4);
            lemma_le_bytes_len(self.reserved0 as nat, 4);
            lemma_le_bytes_len(self.sequence as nat, 8);
            lemma_le_bytes_len(self.timestamp_ms as nat, 8);
            lemma_le_bytes_len(self.subject_pid as nat, 8);
            lemma_le_bytes_len(self.object_id as nat, 8);
            lemma_le_bytes_len(self.requested_amount as nat, 8);
            lemma_le_bytes_len(self.result_value as nat, 8);
            lemma_le_bytes_len(self.reserved1 as nat, 8);
        }
        out
    }

    /// Whether the audited operation succeeded.
    pub fn succeeded(&self) -> (r: bool)
        ensures
            r == (self.errno == 0),
    {
        self.errno == 0
    }

    /// Whether unread events were overwritten before this record.
    pub fn has_gap_before(&self) -> (r: bool)
        ensures
            r == (self.flags & AUDIT_RECORD_F_GAP_BEFORE != 0),
    {
        self.flags & AUDIT_RECORD_F_GAP_BEFORE != 0
    }
}

impl IpcStatsV1 {
    /// The bytes copied to user space for these statistics (ABI v1 layout).
    pub fn encode(&self) -> (r: Vec<u8>)
        ensures
            r@ == stats_bytes(*self),
            r@.len() == IPC_STATS_V1_SIZE,
    {
        let mut out: Vec<u8> = Vec::new();
        push_le(&mut out, self.abi_version as u64, 2);
        push_le(&mut out, self.struct_size as u64, 2);
        push_le(&mut out, self.flags as u64, 4);
        push_le(&mut out, self.capacity, 8);
        push_le(&mut out, self.retained, 8);
        push_le(&mut out, self.first_sequence, 8);
        push_le(&mut out, self.next_sequence, 8);
        push_le(&mut out, self.total_events, 8);
        push_le(&mut out, self.successful_events, 8);
        push_le(&mut out, self.failed_events, 8);
        push_le(&mut out, self.overwritten_events, 8);
        push_le(&mut out, self.reserved0, 8);
        proof {
            assert(out@ =~= stats_bytes(*self));
            lemma_le_bytes_len(self.abi_version as nat, 2);
            lemma_le_bytes_len(self.struct_size as nat, 2);
            lemma_le_bytes_len(self.flags as nat, 4);
            lemma_le_bytes_len(self.capacity as nat, 8);
            lemma_le_bytes_len(self.retained as nat, 8);
            lemma_le_bytes_len(self.first_sequence as nat, 8);
            lemma_le_bytes_len(self.next_sequence as nat, 8);
            lemma_le_bytes_len(self.total_events as nat, 8);
            lemma_le_bytes_len(self.successful_events as nat, 8);
            lemma_le_bytes_len(self.failed_events as nat, 8);
            lemma_le_bytes_len(self.overwritten_events as nat, 8);
            lemma_le_bytes_len(self.reserved0 as nat, 8);
        }
        out
    }
}

} // verus!
