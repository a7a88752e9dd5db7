//! The audit viewer `auditctl`: which statistics and batches it trusts, how
//! it parses its command line, pages through the log and words what it
//! shows. Its text is built in a byte buffer; the two audit syscalls reach
//! it as functions passed in, and printing the text is left to the caller.
use vstd::prelude::*;

use vstd::string::StringSliceAdditionalSpecFns;

use super::audit::{operation_label, operation_name};
use super::text::{decimal, push_decimal, push_signed, push_str, signed_decimal};
use crate::security::api::IpcOperation;
use crate::security::audit::{
    audit_id, ring_stats, stats_record, AuditRecordV1, AuditRing, IpcStatsV1, AUDIT_ABI_VERSION,
    AUDIT_OP_AUDIT_READ, AUDIT_OP_IPC_STAT, AUDIT_OP_PIPE_CREATE, AUDIT_OP_PIPE_READ,
    AUDIT_OP_PIPE_WRITE, AUDIT_OP_SIGNAL_SEND, AUDIT_OP_UNSPECIFIED, AUDIT_RECORD_F_GAP_BEFORE,
    AUDIT_RECORD_V1_SIZE, AUDIT_UID_UNKNOWN, IPC_STATS_V1_SIZE,
};

verus! {

/// The length and first letter of each known name, which tell the names
/// apart.
proof fn lemma_label_shape(a: u16)
    requires
        a <= AUDIT_OP_IPC_STAT,
    ensures
        operation_label(a) is Some,
        ({
            let name = operation_label(a)->0@;
            &&& name.len() > 0
            &&& a == AUDIT_OP_UNSPECIFIED ==> name.len() == 11 && name[0] == 'u'
            &&& a == AUDIT_OP_SIGNAL_SEND ==> name.len() == 11 && name[0] == 's'
            &&& a == AUDIT_OP_PIPE_CREATE ==> name.len() == 11 && name[0] == 'p'
            &&& a == AUDIT_OP_PIPE_READ ==> name.len() == 9 && name[0] == 'p'
            &&& a == AUDIT_OP_PIPE_WRITE ==> name.len() == 10 && name[0] == 'p'
            &&& a == AUDIT_OP_AUDIT_READ ==> name.len() == 10 && name[0] == 'a'
            &&& a == AUDIT_OP_IPC_STAT ==> name.len() == 8 && name[0] == 'i'
        }),
{
    reveal_strlit("unspecified");
    reveal_strlit("signal_send");
    reveal_strlit("pipe_create");
    reveal_strlit("pipe_read");
    reveal_strlit("pipe_write");
    reveal_strlit("audit_read");
    reveal_strlit("ipc_stat");
}

/// Different known operation numbers have different names, and exactly
/// the numbers 0 to 6 are known.
pub proof fn lemma_operation_labels_distinct(a: u16, b: u16)
    ensures
        operation_label(a) is Some <==> a <= AUDIT_OP_IPC_STAT,
        a <= AUDIT_OP_IPC_STAT && b <= AUDIT_OP_IPC_STAT && operation_label(a)->0@
            == operation_label(b)->0@ ==> a == b,
{
    if a <= AUDIT_OP_IPC_STAT && b <= AUDIT_OP_IPC_STAT {
        lemma_label_shape(a);
        lemma_label_shape(b);
    }
}

/// Whether `name` ends with `suffix`.
pub open spec fn ends_with(name: Seq<char>, suffix: Seq<char>) -> bool {
    name.len() >= suffix.len() && name.subrange(name.len() - suffix.len(), name.len() as int)
        == suffix
}

/// The name of each kernel operation's audit number says what it does: a
/// pipe write's name ends in `write` and no other's does; pipe reads and
/// audit reads, and only they, end in `read`.
pub proof fn lemma_operation_label_direction(operation: IpcOperation)
    ensures
        operation_label(audit_id(operation)) is Some,
        ends_with(operation_label(audit_id(operation))->0@, "write"@) <==> operation
            == IpcOperation::PipeWrite,
        ends_with(operation_label(audit_id(operation))->0@, "read"@) <==> (operation
            == IpcOperation::PipeRead || operation == IpcOperation::AuditRead),
{
    reveal_strlit("signal_send");
    reveal_strlit("pipe_create");
    reveal_strlit("pipe_read");
    reveal_strlit("pipe_write");
    reveal_strlit("audit_read");
    reveal_strlit("write");
    reveal_strlit("read");
    let name = operation_label(audit_id(operation))->0@;
    let w = "write"@;
    let r = "read"@;
    match operation {
        IpcOperation::SignalSend => {
            assert(name.subrange(6, 11)[0] != w[0]);
            assert(name.subrange(7, 11)[0] != r[0]);
        },
        IpcOperation::PipeCreate => {
            assert(name.subrange(6, 11)[0] != w[0]);
            assert(name.subrange(7, 11)[0] != r[0]);
        },
        IpcOperation::PipeRead => {
            assert(name.subrange(4, 9)[0] != w[0]);
            assert(name.subrange(5, 9) =~= r);
        },
        IpcOperation::PipeWrite => {
            assert(name.subrange(5, 10) =~= w);
            assert(name.subrange(6, 10)[1] != r[1]);
        },
        IpcOperation::AuditRead => {
            assert(name.subrange(5, 10)[0] != w[0]);
            assert(name.subrange(6, 10) =~= r);
        },
    }
}

/// Name of a known errno value, `UNKNOWN` otherwise.
pub open spec fn errno_label(errno: u64) -> &'static str {
    if errno == 1 {
        "EPERM"
    } else if errno == 3 {
        "ESRCH"
    } else if errno == 11 {
        "EAGAIN"
    } else if errno == 14 {
        "EFAULT"
    } else if errno == 22 {
        "EINVAL"
    } else if errno == 24 {
        "EMFILE"
    } else if errno == 28 {
        "ENOSPC"
    } else {
        "UNKNOWN"
    }
}

/// Name of an errno value (see `errno_label`).
pub fn errno_name(errno: u64) -> (r: &'static str)
    ensures
        r == errno_label(errno),
{
    if errno == 1 {
        "EPERM"
    } else if errno == 3 {
        "ESRCH"
    } else if errno == 11 {
        "EAGAIN"
    } else if errno == 14 {
        "EFAULT"
    } else if errno == 22 {
        "EINVAL"
    } else if errno == 24 {
        "EMFILE"
    } else if errno == 28 {
        "ENOSPC"
    } else {
        "UNKNOWN"
    }
}

/// Why a statistics query cannot be used.
#[derive(Clone, Copy, Debug, PartialEq, Eq, Structural)]
pub enum StatsProblem {
    /// The syscall failed with this (negative) return value.
    Syscall(isize),
    /// The syscall returned a positive value, which v1 never does.
    InvalidReturn(isize),
    /// The structure is not ABI v1.
    IncompatibleAbi,
    /// The counters contradict the ABI invariants.
    Inconsistent,
}

/// The counters of a snapshot satisfy the ABI invariants.
pub open spec fn stats_consistent(s: IpcStatsV1) -> bool {
    &&& s.retained <= s.capacity
    &&& s.successful_events + s.failed_events == s.total_events
    &&& s.first_sequence != 0
    &&& s.first_sequence <= s.next_sequence
    &&& s.next_sequence - s.first_sequence == s.retained
}

/// What the viewer makes of a statistics answer: the syscall failed, it
/// returned something other than 0, the layout is not v1, the counters are
/// inconsistent, or the snapshot is usable.
pub open spec fn stats_check(result: isize, stats: IpcStatsV1) -> Result<(), StatsProblem> {
    if result < 0 {
        Err(StatsProblem::Syscall(result))
    } else if result > 0 {
        Err(StatsProblem::InvalidReturn(result))
    } else if stats.abi_version != AUDIT_ABI_VERSION || stats.struct_size != IPC_STATS_V1_SIZE {
        Err(StatsProblem::IncompatibleAbi)
    } else if !stats_consistent(stats) {
        Err(StatsProblem::Inconsistent)
    } else {
        Ok(())
    }
}

/// Every ring's statistics pass the viewer's checks: what the kernel
/// reports for a well-formed ring, including a full one whose retained
/// count equals its capacity, is consistent, so `auditctl stat` and
/// `auditctl read` accept it.
pub proof fn lemma_ring_stats_accepted(ring: AuditRing)
    requires
        ring.wf(),
    ensures
        stats_consistent(stats_record(ring_stats(ring))),
        stats_check(0, stats_record(ring_stats(ring))) == Ok::<(), StatsProblem>(()),
{
    ring.lemma_wf_facts();
}

/// Decide whether the answer of a statistics query can be shown: the call
/// must have returned 0, the layout must be v1 (checked before the
/// counters), and the counters must be consistent.
pub fn check_stats(result: isize, stats: &IpcStatsV1) -> (r: Result<(), StatsProblem>)
    ensures
        r == stats_check(result, *stats),
        result < 0 ==> r == Err::<(), StatsProblem>(StatsProblem::Syscall(result)),
        result > 0 ==> r == Err::<(), StatsProblem>(StatsProblem::InvalidReturn(result)),
        result == 0 && (stats.abi_version != AUDIT_ABI_VERSION || stats.struct_size
            != IPC_STATS_V1_SIZE) ==> r == Err::<(), StatsProblem>(StatsProblem::IncompatibleAbi),
        result == 0 && stats.abi_version == AUDIT_ABI_VERSION && stats.struct_size
            == IPC_STATS_V1_SIZE ==> (r is Ok <==> stats_consistent(*stats)),
        result == 0 && stats.abi_version == AUDIT_ABI_VERSION && stats.struct_size
            == IPC_STATS_V1_SIZE && !stats_consistent(*stats) ==> r == Err::<(), StatsProblem>(
            StatsProblem::Inconsistent,
        ),
{
    if result < 0 {
        return Err(StatsProblem::Syscall(result));
    }
    if result != 0 {
        return Err(StatsProblem::InvalidReturn(result));
    }
    if stats.abi_version != AUDIT_ABI_VERSION || stats.struct_size != IPC_STATS_V1_SIZE {
        return Err(StatsProblem::IncompatibleAbi);
    }
    let sum_ok = match stats.successful_events.checked_add(stats.failed_events) {
        Some(sum) => sum == stats.total_events,
        None => false,
    };
    let span_ok = match stats.next_sequence.checked_sub(stats.first_sequence) {
        Some(span) => span == stats.retained,
        None => false,
    };
    if stats.retained > stats.capacity || !sum_ok || stats.first_sequence == 0 || !span_ok {
        return Err(StatsProblem::Inconsistent);
    }
    Ok(())
}

/// Record `index` of a batch read after `cursor` is acceptable: ABI v1,
/// increasing sequence numbers above the cursor, a non-negative errno, and
/// a gap flag only on the first record.
pub open spec fn batch_valid_upto(records: Seq<AuditRecordV1>, cursor: u64, n: int) -> bool {
    forall|i: int|
        0 <= i < n ==> {
            let rec = #[trigger] records[i];
            let previous = if i == 0 {
                cursor
            } else {
                records[i - 1].sequence
            };
            &&& rec.abi_version == AUDIT_ABI_VERSION
            &&& rec.record_size == AUDIT_RECORD_V1_SIZE
            &&& rec.sequence > previous
            &&& rec.errno >= 0
            &&& (i != 0 ==> rec.flags & AUDIT_RECORD_F_GAP_BEFORE == 0)
        }
}

/// Validate a whole batch before showing any of it; an error gives the
/// index of the first bad record. Repeated or decreasing sequence numbers
/// are refused, so the cursor always advances.
pub fn check_batch(records: &[AuditRecordV1], count: usize, cursor: u64) -> (r: Result<(), usize>)
    requires
        count <= records@.len(),
    ensures
        r is Ok <==> batch_valid_upto(records@, cursor, count as int),
        r is Err ==> r->Err_0 < count && batch_valid_upto(records@, cursor, r->Err_0 as int)
            && !batch_valid_upto(records@, cursor, r->Err_0 + 1),
{
    let mut previous = cursor;
    let mut index: usize = 0;
    while index < count
        invariant
            count <= records@.len(),
            index <= count,
            batch_valid_upto(records@, cursor, index as int),
            previous == (if index == 0 {
                cursor
            } else {
                records@[index - 1].sequence
            }),
        decreases count - index,
    {
        let record = &records[index];
        if record.abi_version != AUDIT_ABI_VERSION || record.record_size != AUDIT_RECORD_V1_SIZE
            || record.sequence <= previous || record.errno < 0 || (index != 0
            && record.has_gap_before()) {
            assert(!batch_valid_upto(records@, cursor, index + 1)) by {
                let rec = records@[index as int];
                assert(rec == *record);
            }
            return Err(index);
        }
        assert(batch_valid_upto(records@, cursor, index + 1)) by {
            assert forall|i: int| 0 <= i < index + 1 implies {
                let rec = #[trigger] records@[i];
                let previous = if i == 0 {
                    cursor
                } else {
                    records@[i - 1].sequence
                };
                &&& rec.abi_version == AUDIT_ABI_VERSION
                &&& rec.record_size == AUDIT_RECORD_V1_SIZE
                &&& rec.sequence > previous
                &&& rec.errno >= 0
                &&& (i != 0 ==> rec.flags & AUDIT_RECORD_F_GAP_BEFORE == 0)
            } by {
                if i == index {
                    assert(records@[i] == *record);
                }
            }
        }
        previous = record.sequence;
        index = index + 1;
    }
    Ok(())
}

/// Decimal value of a digit string.
pub open spec fn decimal_value(digits: Seq<u8>) -> nat
    decreases digits.len(),
{
    if digits.len() == 0 {
        0
    } else {
        decimal_value(digits.drop_last()) * 10 + (digits.last() - 48) as nat
    }
}

/// Every byte is an ASCII digit.
pub open spec fn all_digits(digits: Seq<u8>) -> bool {
    forall|i: int| 0 <= i < digits.len() ==> 48 <= #[trigger] digits[i] <= 57
}

/// Parse a cursor argument: a non-empty string of decimal digits whose
/// value fits in `u64`; signs, other characters and overflow are refused.
pub fn parse_cursor(text: &[u8]) -> (r: Option<u64>)
    ensures
        r is Some <==> (text@.len() > 0 && all_digits(text@) && decimal_value(text@) <= u64::MAX),
        r is Some ==> r->0 == decimal_value(text@),
{
    if text.len() == 0 {
        return None;
    }
    let mut value: u64 = 0;
    let mut i: usize = 0;
    let mut overflow = false;
    while i < text.len()
        invariant
            i <= text@.len(),
            all_digits(text@.take(i as int)),
            !overflow ==> value == decimal_value(text@.take(i as int)),
            overflow ==> decimal_value(text@.take(i as int)) > u64::MAX,
        decreases text@.len() - i,
    {
        let byte = text[i];
        assert(text@.take(i + 1).drop_last() =~= text@.take(i as int));
        if byte < 48 || byte > 57 {
            assert(!all_digits(text@)) by {
                assert(text@[i as int] == byte);
            }
            return None;
        }
        let digit = (byte - 48) as u64;
        proof {
            assert(decimal_value(text@.take(i + 1)) == decimal_value(text@.take(i as int)) * 10
                + digit);
        }
        if !overflow {
            match value.checked_mul(10) {
                Some(tens) => match tens.checked_add(digit) {
                    Some(next) => {
                        value = next;
                    },
                    None => {
                        overflow = true;
                    },
                },
                None => {
                    overflow = true;
                },
            }
        } else {
            proof {
                assert(decimal_value(text@.take(i + 1)) >= decimal_value(text@.take(i as int)) * 10);
            }
        }
        i = i + 1;
        assert(all_digits(text@.take(i as int)));
    }
    assert(text@.take(i as int) =~= text@);
    if overflow {
        None
    } else {
        Some(value)
    }
}

/// Exit status of a failed command.
pub const EXIT_ERROR: i32 = 1;

/// Exit status of a command line that could not be understood.
pub const EXIT_USAGE: i32 = 2;

/// Records requested per read; independent of the kernel's capacity.
pub const BATCH_SIZE: usize = 32;

/// The help text.
pub open spec fn usage_text() -> Seq<u8> {
    "Usage: auditctl stat | read [after_sequence] | help\n  stat: show audit buffer statistics\n  read: read through the initial log tail (default cursor: 0)\n  after_sequence: last processed sequence, unsigned decimal u64\n  Requires UID 0 or AUDIT_READ capability; time_ms is kernel time.\n".spec_bytes()
}

/// Print the help text.
pub fn usage(out: &mut Vec<u8>)
    ensures
        final(out)@ == old(out)@ + usage_text(),
{
    push_str(
        out,
        "Usage: auditctl stat | read [after_sequence] | help\n  stat: show audit buffer statistics\n  read: read through the initial log tail (default cursor: 0)\n  after_sequence: last processed sequence, unsigned decimal u64\n  Requires UID 0 or AUDIT_READ capability; time_ms is kernel time.\n",
    );
}

/// Magnitude of a syscall return value.
pub open spec fn magnitude(result: isize) -> nat {
    if result < 0 {
        (-result) as nat
    } else {
        result as nat
    }
}

/// `text` followed by the report of a failed syscall: its errno name and
/// number and the raw return value.
#[verifier::opaque]
pub open spec fn with_syscall_error(text: Seq<u8>, call: &str, result: isize) -> Seq<u8> {
    text + "auditctl: ".spec_bytes() + call.spec_bytes() + " failed: ".spec_bytes() + errno_label(
        magnitude(result) as u64,
    ).spec_bytes() + " (errno=".spec_bytes() + decimal(magnitude(result)) + ", return=".spec_bytes()
        + signed_decimal(result as int) + ")\n".spec_bytes()
}

/// Report a failed syscall; the command then fails.
pub fn syscall_error(out: &mut Vec<u8>, call: &str, result: isize) -> (r: i32)
    ensures
        r == EXIT_ERROR,
        final(out)@ == with_syscall_error(old(out)@, call, result),
{
    reveal(with_syscall_error);
    let errno: u64 = if result < 0 {
        (0i128 - result as i128) as u64
    } else {
        result as u64
    };
    push_str(out, "auditctl: ");
    push_str(out, call);
    push_str(out, " failed: ");
    push_str(out, errno_name(errno));
    push_str(out, " (errno=");
    push_decimal(out, errno);
    push_str(out, ", return=");
    push_signed(out, result as i64);
    push_str(out, ")\n");
    EXIT_ERROR
}

/// `text` followed by the reason a statistics answer is not used.
pub open spec fn with_stats_problem(text: Seq<u8>, problem: StatsProblem, stats: IpcStatsV1) -> Seq<
    u8,
> {
    match problem {
        StatsProblem::Syscall(result) => with_syscall_error(text, "ipc_stat", result),
        StatsProblem::InvalidReturn(result) => text
            + "auditctl: invalid ipc_stat return value: ".spec_bytes() + signed_decimal(result as int)
            + "\n".spec_bytes(),
        StatsProblem::IncompatibleAbi => text
            + "auditctl: incompatible stats ABI: version=".spec_bytes() + decimal(
            stats.abi_version as nat,
        ) + ", size=".spec_bytes() + decimal(stats.struct_size as nat) + "\n".spec_bytes(),
        StatsProblem::Inconsistent => text + "auditctl: inconsistent audit statistics\n".spec_bytes(),
    }
}

/// Explain why a statistics answer is not used.
pub fn report_stats_problem(out: &mut Vec<u8>, problem: StatsProblem, stats: &IpcStatsV1)
    ensures
        final(out)@ == with_stats_problem(old(out)@, problem, *stats),
{
    reveal(with_syscall_error);
    match problem {
        StatsProblem::Syscall(result) => {
            syscall_error(out, "ipc_stat", result);
        },
        StatsProblem::InvalidReturn(result) => {
            push_str(out, "auditctl: invalid ipc_stat return value: ");
            push_signed(out, result as i64);
            push_str(out, "\n");
        },
        StatsProblem::IncompatibleAbi => {
            push_str(out, "auditctl: incompatible stats ABI: version=");
            push_decimal(out, stats.abi_version as u64);
            push_str(out, ", size=");
            push_decimal(out, stats.struct_size as u64);
            push_str(out, "\n");
        },
        StatsProblem::Inconsistent => {
            push_str(out, "auditctl: inconsistent audit statistics\n");
        },
    }
}

/// `text` followed by the three lines of `auditctl stat`.
#[verifier::opaque]
pub open spec fn with_stats(text: Seq<u8>, s: IpcStatsV1) -> Seq<u8> {
    text + "capacity=".spec_bytes() + decimal(s.capacity as nat) + " retained=".spec_bytes()
        + decimal(s.retained as nat) + "\n".spec_bytes() + "total_events=".spec_bytes() + decimal(
        s.total_events as nat,
    ) + " successful_events=".spec_bytes() + decimal(s.successful_events as nat)
        + " failed_events=".spec_bytes() + decimal(s.failed_events as nat)
        + " overwritten_events=".spec_bytes() + decimal(s.overwritten_events as nat)
        + "\n".spec_bytes() + "first_sequence=".spec_bytes() + decimal(s.first_sequence as nat)
        + " next_sequence=".spec_bytes() + decimal(s.next_sequence as nat) + "\n".spec_bytes()
}

/// Print the counters and sequence bounds of a snapshot.
pub fn print_stats(out: &mut Vec<u8>, s: &IpcStatsV1)
    ensures
        final(out)@ == with_stats(old(out)@, *s),
{
    reveal(with_stats);
    push_str(out, "capacity=");
    push_decimal(out, s.capacity);
    push_str(out, " retained=");
    push_decimal(out, s.retained);
    push_str(out, "\n");
    push_str(out, "total_events=");
    push_decimal(out, s.total_events);
    push_str(out, " successful_events=");
    push_decimal(out, s.successful_events);
    push_str(out, " failed_events=");
    push_decimal(out, s.failed_events);
    push_str(out, " overwritten_events=");
    push_decimal(out, s.overwritten_events);
    push_str(out, "\n");
    push_str(out, "first_sequence=");
    push_decimal(out, s.first_sequence);
    push_str(out, " next_sequence=");
    push_decimal(out, s.next_sequence);
    push_str(out, "\n");
}

/// Name shown for an operation number.
pub open spec fn operation_text(operation: u16) -> Seq<u8> {
    match operation_label(operation) {
        Some(name) => name.spec_bytes(),
        None => "unknown".spec_bytes(),
    }
}

/// Name shown for a record's errno; negative values are unknown.
pub open spec fn record_errno_text(errno: i32) -> Seq<u8> {
    if errno < 0 {
        "UNKNOWN".spec_bytes()
    } else {
        errno_label(errno as u64).spec_bytes()
    }
}

/// `text` followed by the owner of a record's object.
pub open spec fn with_owner(text: Seq<u8>, owner_uid: u32) -> Seq<u8> {
    if owner_uid == AUDIT_UID_UNKNOWN {
        text + "unknown".spec_bytes()
    } else {
        text + decimal(owner_uid as nat)
    }
}

/// `text` followed by the status of a record: its result when it
/// succeeded, its errno otherwise.
pub open spec fn with_status(text: Seq<u8>, r: AuditRecordV1) -> Seq<u8> {
    if r.errno == 0 {
        text + " result=".spec_bytes() + decimal(r.result_value as nat) + " status=OK\n".spec_bytes()
    } else {
        text + " status=ERROR errno=".spec_bytes() + signed_decimal(r.errno as int)
            + "(".spec_bytes() + record_errno_text(r.errno) + ")\n".spec_bytes()
    }
}

/// `text` followed by the line shown for one record.
#[verifier::opaque]
pub open spec fn with_record(text: Seq<u8>, r: AuditRecordV1) -> Seq<u8> {
    with_status(
        with_owner(
            text + "seq=".spec_bytes() + decimal(r.sequence as nat) + " time_ms=".spec_bytes()
                + decimal(r.timestamp_ms as nat) + " pid=".spec_bytes() + decimal(
                r.subject_pid as nat,
            ) + " uid=".spec_bytes() + decimal(r.subject_uid as nat) + " op=".spec_bytes()
                + operation_text(r.operation) + "(".spec_bytes() + decimal(r.operation as nat)
                + ") object_id=".spec_bytes() + decimal(r.object_id as nat)
                + " owner_uid=".spec_bytes(),
            r.object_owner_uid,
        ) + " requested=".spec_bytes() + decimal(r.requested_amount as nat),
        r,
    )
}

/// Print one record on a line of its own.
pub fn print_record(out: &mut Vec<u8>, r: &AuditRecordV1)
    ensures
        final(out)@ == with_record(old(out)@, *r),
{
    reveal(with_record);
    push_str(out, "seq=");
    push_decimal(out, r.sequence);
    push_str(out, " time_ms=");
    push_decimal(out, r.timestamp_ms);
    push_str(out, " pid=");
    push_decimal(out, r.subject_pid);
    push_str(out, " uid=");
    push_decimal(out, r.subject_uid as u64);
    push_str(out, " op=");
    match operation_name(r.operation) {
        Some(name) => push_str(out, name),
        None => push_str(out, "unknown"),
    }
    push_str(out, "(");
    push_decimal(out, r.operation as u64);
    push_str(out, ") object_id=");
    push_decimal(out, r.object_id);
    push_str(out, " owner_uid=");
    if r.object_owner_uid == AUDIT_UID_UNKNOWN {
        push_str(out, "unknown");
    } else {
        push_decimal(out, r.object_owner_uid as u64);
    }
    push_str(out, " requested=");
    push_decimal(out, r.requested_amount);
    if r.succeeded() {
        push_str(out, " result=");
        push_decimal(out, r.result_value);
        push_str(out, " status=OK\n");
    } else {
        push_str(out, " status=ERROR errno=");
        push_signed(out, r.errno as i64);
        push_str(out, "(");
        if r.errno < 0 {
            push_str(out, "UNKNOWN");
        } else {
            push_str(out, errno_name(r.errno as u64));
        }
        push_str(out, ")\n");
    }
}

/// The statistics structure with every field zero.
pub open spec fn zero_stats() -> IpcStatsV1 {
    IpcStatsV1 {
        abi_version: 0,
        struct_size: 0,
        flags: 0,
        capacity: 0,
        retained: 0,
        first_sequence: 0,
        next_sequence: 0,
        total_events: 0,
        successful_events: 0,
        failed_events: 0,
        overwritten_events: 0,
        reserved0: 0,
    }
}

/// The record with every field zero.
pub open spec fn zero_record() -> AuditRecordV1 {
    AuditRecordV1 {
        abi_version: 0,
        record_size: 0,
        operation: 0,
        flags: 0,
        errno: 0,
        subject_uid: 0,
        object_owner_uid: 0,
        reserved0: 0,
        sequence: 0,
        timestamp_ms: 0,
        subject_pid: 0,
        object_id: 0,
        requested_amount: 0,
        result_value: 0,
        reserved1: 0,
    }
}

/// A zeroed statistics structure to receive a snapshot.
pub fn blank_stats() -> (r: IpcStatsV1)
    ensures
        r == zero_stats(),
{
    IpcStatsV1 {
        abi_version: 0,
        struct_size: 0,
        flags: 0,
        capacity: 0,
        retained: 0,
        first_sequence: 0,
        next_sequence: 0,
        total_events: 0,
        successful_events: 0,
        failed_events: 0,
        overwritten_events: 0,
        reserved0: 0,
    }
}

/// A zeroed record to receive a batch.
pub fn blank_record() -> (r: AuditRecordV1)
    ensures
        r == zero_record(),
{
    AuditRecordV1 {
        abi_version: 0,
        record_size: 0,
        operation: 0,
        flags: 0,
        errno: 0,
        subject_uid: 0,
        object_owner_uid: 0,
        reserved0: 0,
        sequence: 0,
        timestamp_ms: 0,
        subject_pid: 0,
        object_id: 0,
        requested_amount: 0,
        result_value: 0,
        reserved1: 0,
    }
}

/// Query the statistics with `stat`, handing it a zeroed structure to fill;
/// it answers the raw syscall result and the structure. The snapshot is
/// kept only if the call succeeded, the layout is v1 and the counters are
/// consistent (`stats_check`), and then nothing is printed; otherwise the
/// reason is printed and the command fails.
pub fn load_stats<ST: Fn(IpcStatsV1) -> (isize, IpcStatsV1)>(stat: &ST, out: &mut Vec<u8>) -> (r:
    Result<IpcStatsV1, i32>)
    requires
        call_requires(*stat, (zero_stats(),)),
    ensures
        exists|reply: (isize, IpcStatsV1)|
            #[trigger] call_ensures(*stat, (zero_stats(),), reply) && match stats_check(
                reply.0,
                reply.1,
            ) {
                Ok(()) => r == Ok::<IpcStatsV1, i32>(reply.1) && final(out)@ == old(out)@,
                Err(problem) => r == Err::<IpcStatsV1, i32>(EXIT_ERROR) && final(out)@
                    == with_stats_problem(old(out)@, problem, reply.1),
            },
        r matches Ok(s) ==> s.abi_version == AUDIT_ABI_VERSION && s.struct_size
            == IPC_STATS_V1_SIZE && stats_consistent(s),
{
    let blank = blank_stats();
    let reply = stat(blank);
    let (result, stats) = reply;
    match check_stats(result, &stats) {
        Ok(()) => Ok(stats),
        Err(problem) => {
            report_stats_problem(out, problem, &stats);
            Err(EXIT_ERROR)
        },
    }
}

/// `auditctl stat`: print the counters of the snapshot `stat` answers if it
/// is usable (exit 0), or why it cannot be used (exit `EXIT_ERROR`).
pub fn show_stats<ST: Fn(IpcStatsV1) -> (isize, IpcStatsV1)>(stat: &ST, out: &mut Vec<u8>) -> (r:
    i32)
    requires
        call_requires(*stat, (zero_stats(),)),
    ensures
        exists|reply: (isize, IpcStatsV1)|
            #[trigger] call_ensures(*stat, (zero_stats(),), reply) && match stats_check(
                reply.0,
                reply.1,
            ) {
                Ok(()) => r == 0 && final(out)@ == with_stats(old(out)@, reply.1),
                Err(problem) => r == EXIT_ERROR && final(out)@ == with_stats_problem(
                    old(out)@,
                    problem,
                    reply.1,
                ),
            },
{
    match load_stats(stat, out) {
        Ok(stats) => {
            print_stats(out, &stats);
            0
        },
        Err(code) => code,
    }
}

/// `text` followed by the warning for a record that carries the gap flag.
pub open spec fn with_gap_warning(text: Seq<u8>, r: AuditRecordV1) -> Seq<u8> {
    if r.flags & AUDIT_RECORD_F_GAP_BEFORE != 0 {
        text + "auditctl: warning: GAP_BEFORE before sequence ".spec_bytes() + decimal(
            r.sequence as nat,
        ) + "; records were overwritten\n".spec_bytes()
    } else {
        text
    }
}

/// `text` followed by what showing `records[from..count]` prints: each
/// record after its gap warning, up to the first record beyond `through`,
/// of which only the gap warning is printed.
pub open spec fn with_batch(
    text: Seq<u8>,
    records: Seq<AuditRecordV1>,
    from: int,
    count: int,
    through: u64,
) -> Seq<u8>
    decreases count - from,
{
    if from < 0 || from >= count {
        text
    } else if records[from].sequence > through {
        with_gap_warning(text, records[from])
    } else {
        with_batch(
            with_record(with_gap_warning(text, records[from]), records[from]),
            records,
            from + 1,
            count,
            through,
        )
    }
}

/// Number of records of `records[from..count]` shown.
pub open spec fn batch_shown(records: Seq<AuditRecordV1>, from: int, count: int, through: u64) -> nat
    decreases count - from,
{
    if from < 0 || from >= count || records[from].sequence > through {
        0
    } else {
        1 + batch_shown(records, from + 1, count, through)
    }
}

/// Whether a record beyond `through` ends the command in `records[from..count]`.
pub open spec fn batch_stops(records: Seq<AuditRecordV1>, from: int, count: int, through: u64) -> bool
    decreases count - from,
{
    if from < 0 || from >= count {
        false
    } else if records[from].sequence > through {
        true
    } else {
        batch_stops(records, from + 1, count, through)
    }
}

/// The cursor after showing `records[from..count]`: the sequence number of
/// the last record shown, `cursor` if none is.
pub open spec fn batch_cursor(
    records: Seq<AuditRecordV1>,
    from: int,
    count: int,
    through: u64,
    cursor: u64,
) -> u64
    decreases count - from,
{
    if from < 0 || from >= count || records[from].sequence > through {
        cursor
    } else {
        batch_cursor(records, from + 1, count, through, records[from].sequence)
    }
}

/// Show a validated batch: for each record, its gap warning, then the
/// record unless it lies beyond `through` (the tail the command started
/// with), which ends the command. Returns the number of records shown, the
/// new cursor and whether the command ends. For a batch that passed
/// `check_batch`, the cursor moves past every record shown, so paging
/// always advances.
#[verifier::spinoff_prover]
pub fn show_batch(
    out: &mut Vec<u8>,
    records: &[AuditRecordV1],
    count: usize,
    through: u64,
    cursor: u64,
) -> (r: (u64, u64, bool))
    requires
        count <= records@.len(),
    ensures
        final(out)@ == with_batch(old(out)@, records@, 0, count as int, through),
        r.0 == batch_shown(records@, 0, count as int, through),
        r.1 == batch_cursor(records@, 0, count as int, through, cursor),
        r.2 == batch_stops(records@, 0, count as int, through),
        batch_valid_upto(records@, cursor, count as int) ==> r.0 <= r.1 - cursor,
        batch_valid_upto(records@, cursor, count as int) && count > 0 && !r.2 ==> r.1 > cursor,
        r.1 == cursor || r.1 <= through,
{
    let ghost whole = with_batch(old(out)@, records@, 0, count as int, through);
    let mut i: usize = 0;
    let mut shown: u64 = 0;
    let mut current = cursor;
    let mut stopped = false;
    while i < count
        invariant_except_break
            !stopped,
            with_batch(out@, records@, i as int, count as int, through) == whole,
        invariant
            count <= records@.len(),
            i <= count,
            shown + batch_shown(records@, i as int, count as int, through) == batch_shown(
                records@,
                0,
                count as int,
                through,
            ),
            batch_cursor(records@, i as int, count as int, through, current) == batch_cursor(
                records@,
                0,
                count as int,
                through,
                cursor,
            ),
            batch_stops(records@, i as int, count as int, through) == batch_stops(
                records@,
                0,
                count as int,
                through,
            ),
            shown <= i,
            i == 0 ==> current == cursor,
            i > 0 ==> current == records@[i - 1].sequence,
            batch_valid_upto(records@, cursor, count as int) ==> shown <= current - cursor,
            batch_valid_upto(records@, cursor, count as int) && i > 0 ==> current > cursor,
            current == cursor || current <= through,
        ensures
            out@ == whole,
            shown == batch_shown(records@, 0, count as int, through),
            current == batch_cursor(records@, 0, count as int, through, cursor),
            stopped == batch_stops(records@, 0, count as int, through),
            batch_valid_upto(records@, cursor, count as int) ==> shown <= current - cursor,
            batch_valid_upto(records@, cursor, count as int) && count > 0 && !stopped ==> current
                > cursor,
            current == cursor || current <= through,
        decreases count - i,
    {
        let record = records[i];
        if record.has_gap_before() {
            push_str(out, "auditctl: warning: GAP_BEFORE before sequence ");
            push_decimal(out, record.sequence);
            push_str(out, "; records were overwritten\n");
        }
        if record.sequence > through {
            stopped = true;
            break;
        }
        print_record(out, &record);
        proof {
            if batch_valid_upto(records@, cursor, count as int) {
                assert(records@[i as int].sequence > current);
            }
        }
        current = record.sequence;
        shown = shown + 1;
        i = i + 1;
    }
    (shown, current, stopped)
}

/// `text` followed by the closing line of `auditctl read`.
pub open spec fn with_summary(text: Seq<u8>, displayed: u64, cursor: u64, through: u64) -> Seq<u8> {
    text + "auditctl: records=".spec_bytes() + decimal(displayed as nat) + " cursor=".spec_bytes()
        + decimal(cursor as nat) + " through=".spec_bytes() + decimal(through as nat)
        + "\n".spec_bytes()
}

/// `text` followed by how to resume after a failed read.
pub open spec fn with_retry(text: Seq<u8>, cursor: u64) -> Seq<u8> {
    text + "auditctl: retry with: auditctl read ".spec_bytes() + decimal(cursor as nat)
        + "\n".spec_bytes()
}

/// `text` followed by the report of a read count larger than the batch.
pub open spec fn with_bad_count(text: Seq<u8>, count: usize) -> Seq<u8> {
    text + "auditctl: invalid audit_read count: ".spec_bytes() + decimal(count as nat)
        + "\n".spec_bytes()
}

/// `text` followed by the report of an invalid record in a batch.
pub open spec fn with_bad_record(text: Seq<u8>, index: usize, cursor: u64) -> Seq<u8> {
    text + "auditctl: invalid audit record at batch index ".spec_bytes() + decimal(index as nat)
        + "; cursor=".spec_bytes() + decimal(cursor as nat) + "\n".spec_bytes()
}

/// How `auditctl read` goes on, and how it ends, from a state in which
/// the text so far is `text`, the buffer holds `records`, `displayed`
/// records have been shown and the last one shown (or the starting cursor)
/// is `position`; `through` is the tail the log had when the command
/// started. `after` is the final text and `code` the exit status. Once
/// `position` reaches `through` the summary closes the command. Otherwise
/// `read` is handed `position` and the buffer and answers a result and the
/// buffer as it left it: a failure prints the error and how to resume from
/// `position`; 0 (an empty batch) closes the command; a count larger than
/// the buffer, or a batch with an invalid record, is reported and shows
/// nothing of the batch; otherwise the batch is shown up to the first
/// record past `through`, which closes the command, and a batch shown
/// whole, short or not, goes on from its last record.
pub open spec fn read_run<RD: Fn(u64, Vec<AuditRecordV1>) -> (isize, Vec<AuditRecordV1>)>(
    read: RD,
    text: Seq<u8>,
    records: Vec<AuditRecordV1>,
    position: u64,
    displayed: u64,
    through: u64,
    after: Seq<u8>,
    code: i32,
) -> bool
    decreases through - position,
{
    if position >= through {
        code == 0 && after == with_summary(text, displayed, position, through)
    } else {
        exists|reply: (isize, Vec<AuditRecordV1>)|
            #[trigger] call_ensures(read, (position, records), reply) && {
                let result = reply.0;
                let batch = reply.1;
                let count = result as int;
                if result < 0 {
                    code == EXIT_ERROR && after == with_retry(
                        with_syscall_error(text, "audit_read", result),
                        position,
                    )
                } else if result == 0 {
                    code == 0 && after == with_summary(text, displayed, position, through)
                } else if count > batch@.len() {
                    code == EXIT_ERROR && after == with_bad_count(text, result as usize)
                } else if !batch_valid_upto(batch@, position, count) {
                    code == EXIT_ERROR && exists|index: usize|
                        index < count && batch_valid_upto(batch@, position, index as int)
                            && !batch_valid_upto(batch@, position, index + 1) && after
                            == #[trigger] with_bad_record(text, index, position)
                } else {
                    let shown_text = with_batch(text, batch@, 0, count, through);
                    let total = displayed + batch_shown(batch@, 0, count, through);
                    let next = batch_cursor(batch@, 0, count, through, position);
                    if batch_stops(batch@, 0, count, through) {
                        code == 0 && total <= u64::MAX && after == with_summary(
                            shown_text,
                            total as u64,
                            next,
                            through,
                        )
                    } else if position < next && next <= through && total <= u64::MAX {
                        read_run(read, shown_text, batch, next, total as u64, through, after, code)
                    } else {
                        false
                    }
                }
            }
    }
}

/// The buffer `auditctl read` starts with: `BATCH_SIZE` zeroed records.
pub open spec fn blank_batch(records: Vec<AuditRecordV1>) -> bool {
    records@ == Seq::new(BATCH_SIZE as nat, |i: int| zero_record())
}

/// How `auditctl read` from `cursor` ends, `before` being the text before
/// it and `after` the text after it: the statistics `stat` answers for a
/// zeroed structure are refused as `show_stats` reports it, or they are
/// usable and the records are read as `read_run` says, from a buffer of
/// zeroed records, through the tail the snapshot gives.
pub open spec fn read_outcome<
    ST: Fn(IpcStatsV1) -> (isize, IpcStatsV1),
    RD: Fn(u64, Vec<AuditRecordV1>) -> (isize, Vec<AuditRecordV1>),
>(stat: ST, read: RD, before: Seq<u8>, cursor: u64, after: Seq<u8>, code: i32) -> bool {
    exists|reply: (isize, IpcStatsV1)|
        #[trigger] call_ensures(stat, (zero_stats(),), reply) && match stats_check(
            reply.0,
            reply.1,
        ) {
            Ok(()) => exists|buffer: Vec<AuditRecordV1>|
                #[trigger] blank_batch(buffer) && read_run(
                    read,
                    before,
                    buffer,
                    cursor,
                    0,
                    (reply.1.next_sequence - 1) as u64,
                    after,
                    code,
                ),
            Err(problem) => code == EXIT_ERROR && after == with_stats_problem(
                before,
                problem,
                reply.1,
            ),
        }
}

/// A usable snapshot and a read run from it give a `read_outcome`.
proof fn lemma_read_outcome<
    ST: Fn(IpcStatsV1) -> (isize, IpcStatsV1),
    RD: Fn(u64, Vec<AuditRecordV1>) -> (isize, Vec<AuditRecordV1>),
>(
    stat: ST,
    read: RD,
    reply: (isize, IpcStatsV1),
    buffer: Vec<AuditRecordV1>,
    before: Seq<u8>,
    cursor: u64,
    after: Seq<u8>,
    code: i32,
)
    requires
        call_ensures(stat, (zero_stats(),), reply),
        stats_check(reply.0, reply.1) is Ok,
        blank_batch(buffer),
        read_run(read, before, buffer, cursor, 0, (reply.1.next_sequence - 1) as u64, after, code),
    ensures
        read_outcome(stat, read, before, cursor, after, code),
{
}

/// `auditctl read` from `cursor` (see `read_run`): the statistics are
/// queried first with `stat`, and a refused answer is reported as
/// `show_stats` reports it; otherwise the records after `cursor` are read
/// with `read`, through the tail the snapshot gives, into a buffer of
/// `BATCH_SIZE` zeroed records. The answers come from the kernel; what is
/// stated holds of every answer.
#[verifier::spinoff_prover]
pub fn read_records<
    ST: Fn(IpcStatsV1) -> (isize, IpcStatsV1),
    RD: Fn(u64, Vec<AuditRecordV1>) -> (isize, Vec<AuditRecordV1>),
>(stat: &ST, read: &RD, cursor: u64, out: &mut Vec<u8>) -> (r: i32)
    requires
        call_requires(*stat, (zero_stats(),)),
        forall|after: u64, records: Vec<AuditRecordV1>| call_requires(*read, (after, records)),
        forall|after: u64, records: Vec<AuditRecordV1>, reply: (isize, Vec<AuditRecordV1>)|
            call_ensures(*read, (after, records), reply) ==> reply.1@.len() == records@.len(),
    ensures
        read_outcome(*stat, *read, old(out)@, cursor, final(out)@, r),
{
    let ghost start = out@;
    let stats = match load_stats(stat, out) {
        Ok(stats) => stats,
        Err(code) => return code,
    };
    let ghost stat_reply = choose|reply: (isize, IpcStatsV1)|
        #[trigger] call_ensures(*stat, (zero_stats(),), reply) && stats_check(reply.0, reply.1)
            is Ok && reply.1 == stats && out@ == start;
    let through = stats.next_sequence - 1;
    let mut records: Vec<AuditRecordV1> = Vec::new();
    while records.len() < BATCH_SIZE
        invariant
            records@.len() <= BATCH_SIZE,
            forall|i: int| 0 <= i < records@.len() ==> records@[i] == zero_record(),
        decreases BATCH_SIZE - records@.len(),
    {
        records.push(blank_record());
    }
    let ghost buffer = records;
    assert(buffer@ =~= Seq::new(BATCH_SIZE as nat, |i: int| zero_record()));
    assert(blank_batch(buffer));
    let mut position = cursor;
    let mut displayed: u64 = 0;
    while position < through
        invariant
            forall|after: u64, records: Vec<AuditRecordV1>| call_requires(*read, (after, records)),
            forall|after: u64, records: Vec<AuditRecordV1>, reply: (isize, Vec<AuditRecordV1>)|
                call_ensures(*read, (after, records), reply) ==> reply.1@.len()
                    == records@.len(),
            displayed <= position,
            start == old(out)@,
            records@.len() == BATCH_SIZE,
            call_ensures(*stat, (zero_stats(),), stat_reply),
            stats_check(stat_reply.0, stat_reply.1) is Ok,
            through == (stat_reply.1.next_sequence - 1) as u64,
            blank_batch(buffer),
            forall|after: Seq<u8>, code: i32|
                #[trigger] read_run(*read, out@, records, position, displayed, through, after, code)
                    ==> read_run(*read, start, buffer, cursor, 0, through, after, code),
        decreases through - position,
    {
        let ghost text = out@;
        let ghost handed = records;
        let ghost at = position;
        let ghost shown_before = displayed;
        if let Some(code) = read_step(read, out, &mut records, &mut position, &mut displayed, through) {
            assert(read_run(*read, text, handed, at, shown_before, through, out@, code));
            proof {
                lemma_read_outcome(*stat, *read, stat_reply, buffer, start, cursor, out@, code);
            }
            return code;
        }
    }
    let ghost text = out@;
    close_read(out, displayed, position, through);
    assert(read_run(*read, text, records, position, displayed, through, out@, 0));
    proof {
        lemma_read_outcome(*stat, *read, stat_reply, buffer, start, cursor, out@, 0);
    }
    0
}

/// One read of `auditctl read` from `position` (see `read_run`): the batch
/// that `read` answers is checked and shown, and the command either ends,
/// with the exit status as the result, or goes on (`None`) from the last
/// record shown, with the buffer as `read` left it and the count of
/// records shown so far; what follows from the new state is then what
/// follows from the old one.
#[verifier::spinoff_prover]
#[verifier::rlimit(40)]
pub fn read_step<RD: Fn(u64, Vec<AuditRecordV1>) -> (isize, Vec<AuditRecordV1>)>(
    read: &RD,
    out: &mut Vec<u8>,
    records: &mut Vec<AuditRecordV1>,
    position: &mut u64,
    displayed: &mut u64,
    through: u64,
) -> (r: Option<i32>)
    requires
        *old(position) < through,
        *old(displayed) <= *old(position),
        forall|after: u64, records: Vec<AuditRecordV1>| call_requires(*read, (after, records)),
        forall|after: u64, records: Vec<AuditRecordV1>, reply: (isize, Vec<AuditRecordV1>)|
            call_ensures(*read, (after, records), reply) ==> reply.1@.len() == records@.len(),
    ensures
        final(records)@.len() == old(records)@.len(),
        r matches Some(code) ==> read_run(
            *read,
            old(out)@,
            *old(records),
            *old(position),
            *old(displayed),
            through,
            final(out)@,
            code,
        ),
        r is None ==> {
            &&& *old(position) < *final(position) <= through
            &&& *final(displayed) <= *final(position)
            &&& forall|after: Seq<u8>, code: i32|
                #[trigger] read_run(
                    *read,
                    final(out)@,
                    *final(records),
                    *final(position),
                    *final(displayed),
                    through,
                    after,
                    code,
                ) ==> read_run(
                    *read,
                    old(out)@,
                    *old(records),
                    *old(position),
                    *old(displayed),
                    through,
                    after,
                    code,
                )
        },
{
    let ghost text = out@;
    let ghost handed = *records;
    let cursor = *position;
    let shown_before = *displayed;
    let mut buffer: Vec<AuditRecordV1> = Vec::new();
    std::mem::swap(&mut buffer, records);
    let reply = read(cursor, buffer);
    let (result, batch) = reply;
    *records = batch;
    if result < 0 {
        syscall_error(out, "audit_read", result);
        push_str(out, "auditctl: retry with: auditctl read ");
        push_decimal(out, cursor);
        push_str(out, "\n");
        proof {
            reveal(with_syscall_error);
            assert(out@ == with_retry(with_syscall_error(text, "audit_read", result), cursor));
        }
        return Some(EXIT_ERROR);
    }
    if result == 0 {
        close_read(out, shown_before, cursor, through);
        return Some(0);
    }
    let count = result as usize;
    if count > records.len() {
        push_str(out, "auditctl: invalid audit_read count: ");
        push_decimal(out, count as u64);
        push_str(out, "\n");
        assert(out@ == with_bad_count(text, count));
        return Some(EXIT_ERROR);
    }
    if let Err(index) = check_batch(records.as_slice(), count, cursor) {
        push_str(out, "auditctl: invalid audit record at batch index ");
        push_decimal(out, index as u64);
        push_str(out, "; cursor=");
        push_decimal(out, cursor);
        push_str(out, "\n");
        assert(out@ == with_bad_record(text, index, cursor));
        return Some(EXIT_ERROR);
    }
    let (shown, next_position, stop) = show_batch(out, records.as_slice(), count, through, cursor);
    *displayed = shown_before + shown;
    *position = next_position;
    if stop {
        close_read(out, *displayed, next_position, through);
        return Some(0);
    }
    None
}

/// Print the closing line of `auditctl read`.
fn close_read(out: &mut Vec<u8>, displayed: u64, position: u64, through: u64)
    ensures
        final(out)@ == with_summary(old(out)@, displayed, position, through),
{
    push_str(out, "auditctl: records=");
    push_decimal(out, displayed);
    push_str(out, " cursor=");
    push_decimal(out, position);
    push_str(out, " through=");
    push_decimal(out, through);
    push_str(out, "\n");
}

/// What a command line asks for.
#[derive(Clone, Copy, Debug, PartialEq, Eq, Structural)]
pub enum Command {
    /// `help`, `--help` or `-h`.
    Help,
    /// `stat`.
    Stat,
    /// `read`, from the given cursor (0 when none is given).
    Read(u64),
    /// `read` with a cursor that is not an unsigned decimal `u64`.
    BadCursor,
    /// Anything else.
    Usage,
}

/// The command a command line (program name first) asks for.
pub open spec fn command_of(args: Seq<&[u8]>) -> Command {
    if args.len() == 2 && (args[1]@ == "help".spec_bytes() || args[1]@ == "--help".spec_bytes()
        || args[1]@ == "-h".spec_bytes()) {
        Command::Help
    } else if args.len() == 2 && args[1]@ == "stat".spec_bytes() {
        Command::Stat
    } else if args.len() == 2 && args[1]@ == "read".spec_bytes() {
        Command::Read(0)
    } else if args.len() == 3 && args[1]@ == "read".spec_bytes() {
        if args[2]@.len() > 0 && all_digits(args[2]@) && decimal_value(args[2]@) <= u64::MAX {
            Command::Read(decimal_value(args[2]@) as u64)
        } else {
            Command::BadCursor
        }
    } else {
        Command::Usage
    }
}

/// Whether two byte strings are equal.
pub fn same_bytes(a: &[u8], b: &[u8]) -> (r: bool)
    ensures
        r == (a@ == b@),
{
    if a.len() != b.len() {
        return false;
    }
    let mut i: usize = 0;
    while i < a.len()
        invariant
            a@.len() == b@.len(),
            i <= a@.len(),
            forall|j: int| 0 <= j < i ==> a@[j] == b@[j],
        decreases a@.len() - i,
    {
        if a[i] != b[i] {
            return false;
        }
        i = i + 1;
    }
    assert(a@ =~= b@);
    true
}

/// Interpret a command line; the program name comes first.
pub fn parse_command(args: &[&[u8]]) -> (c: Command)
    ensures
        c == command_of(args@),
{
    if args.len() == 2 {
        let word = args[1];
        if same_bytes(word, "help".as_bytes()) || same_bytes(word, "--help".as_bytes())
            || same_bytes(word, "-h".as_bytes()) {
            return Command::Help;
        }
        if same_bytes(word, "stat".as_bytes()) {
            return Command::Stat;
        }
        if same_bytes(word, "read".as_bytes()) {
            return Command::Read(0);
        }
        return Command::Usage;
    }
    if args.len() == 3 && same_bytes(args[1], "read".as_bytes()) {
        return match parse_cursor(args[2]) {
            Some(cursor) => Command::Read(cursor),
            None => Command::BadCursor,
        };
    }
    Command::Usage
}

/// The viewer: `stat` prints the statistics, `read [after_sequence]`
/// prints the records after the cursor through the tail the log had when
/// the command started, `help` prints the usage. Help and command-line
/// errors never call the kernel; a bad cursor or command line exits with
/// `EXIT_USAGE`, a failed query with `EXIT_ERROR`.
pub fn run<
    ST: Fn(IpcStatsV1) -> (isize, IpcStatsV1),
    RD: Fn(u64, Vec<AuditRecordV1>) -> (isize, Vec<AuditRecordV1>),
>(args: &[&[u8]], stat: &ST, read: &RD, out: &mut Vec<u8>) -> (r: i32)
    requires
        call_requires(*stat, (zero_stats(),)),
        forall|after: u64, records: Vec<AuditRecordV1>| call_requires(*read, (after, records)),
        forall|after: u64, records: Vec<AuditRecordV1>, reply: (isize, Vec<AuditRecordV1>)|
            call_ensures(*read, (after, records), reply) ==> reply.1@.len() == records@.len(),
    ensures
        match command_of(args@) {
            Command::Help => r == 0 && final(out)@ == old(out)@ + usage_text(),
            Command::Usage => r == EXIT_USAGE && final(out)@ == old(out)@ + usage_text(),
            Command::BadCursor => r == EXIT_USAGE && final(out)@ == old(out)@
                + "auditctl: invalid after_sequence\n".spec_bytes() + usage_text(),
            Command::Stat => exists|reply: (isize, IpcStatsV1)|
                #[trigger] call_ensures(*stat, (zero_stats(),), reply) && match stats_check(
                    reply.0,
                    reply.1,
                ) {
                    Ok(()) => r == 0 && final(out)@ == with_stats(old(out)@, reply.1),
                    Err(problem) => r == EXIT_ERROR && final(out)@ == with_stats_problem(
                        old(out)@,
                        problem,
                        reply.1,
                    ),
                },
            Command::Read(cursor) => read_outcome(*stat, *read, old(out)@, cursor, final(out)@, r),
        },
{
    match parse_command(args) {
        Command::Help => {
            usage(out);
            0
        },
        Command::Stat => show_stats(stat, out),
        Command::Read(cursor) => read_records(stat, read, cursor, out),
        Command::BadCursor => {
            push_str(out, "auditctl: invalid after_sequence\n");
            usage(out);
            EXIT_USAGE
        },
        Command::Usage => {
            usage(out);
            EXIT_USAGE
        },
    }
}

} // verus!
