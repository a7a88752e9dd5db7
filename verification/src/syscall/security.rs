//! Bodies of the audit control syscalls: 602 reads events, 603 queries the
//! statistics. Both check the caller first, then the parameters, then take a
//! value snapshot of the log; the copy to user memory happens afterwards, on
//! the returned `UserCopy` list, and its outcome is finished by
//! `finish_control_call`.
use vstd::prelude::*;

use crate::security::api::{CapabilitySet, IpcError, IpcResult, IpcSubject, CAP_AUDIT_READ_BIT};
use crate::security::audit::{
    control_failure_event, errno_of, event_record, record_bytes, snapshot_count,
    snapshot_events, snapshot_gap, stats_bytes, stats_record, AuditControlOperation,
    AuditRing, AuditStatsSnapshot, AUDIT_RECORD_V1_SIZE, IPC_STATS_V1_SIZE,
};

verus! {

/// Bytes to write at a user address.
#[derive(Debug)]
pub struct UserCopy {
    pub address: usize,
    pub bytes: Vec<u8>,
}

/// Callers allowed to read the audit log: root and holders of `AUDIT_READ`.
pub open spec fn may_read_audit(subject: IpcSubject) -> bool {
    subject.uid == 0 || subject.capabilities.has(CapabilitySet(CAP_AUDIT_READ_BIT))
}

/// Both control calls use the same permission rule.
pub fn check_permission(subject: &IpcSubject) -> (r: IpcResult<()>)
    ensures
        r == (if may_read_audit(*subject) {
            Ok::<(), IpcError>(())
        } else {
            Err(IpcError::PermissionDenied)
        }),
{
    if subject.uid == 0 || subject.capabilities.contains(CapabilitySet::audit_read()) {
        Ok(())
    } else {
        Err(IpcError::PermissionDenied)
    }
}

/// An output range is acceptable when its size and end do not overflow and
/// a non-empty range does not start at address 0.
pub open spec fn output_range_ok(start: usize, count: usize, item_size: usize) -> bool {
    &&& count * item_size <= usize::MAX
    &&& (count * item_size != 0 ==> start != 0)
    &&& start + count * item_size <= usize::MAX
}

/// Check only null and integer overflow of the output range; page mappings
/// are checked by the copy itself.
pub fn check_output_range(start: usize, count: usize, item_size: usize) -> (r: IpcResult<()>)
    ensures
        r == (if output_range_ok(start, count, item_size) {
            Ok::<(), IpcError>(())
        } else {
            Err(IpcError::InvalidAddress)
        }),
{
    let bytes = match count.checked_mul(item_size) {
        Some(b) => b,
        None => return Err(IpcError::InvalidAddress),
    };
    if bytes != 0 && start == 0 {
        return Err(IpcError::InvalidAddress);
    }
    match start.checked_add(bytes) {
        Some(_) => Ok(()),
        None => Err(IpcError::InvalidAddress),
    }
}

/// Common exit of the control calls: a success returns its value and is not
/// recorded; a failure is recorded once and returns the negative errno.
pub fn finish_control_call(
    audit: &mut AuditRing,
    operation: AuditControlOperation,
    subject: &IpcSubject,
    requested_amount: usize,
    outcome: IpcResult<usize>,
    timestamp_ms: u64,
) -> (r: isize)
    requires
        old(audit).wf(),
    ensures
        final(audit).wf(),
        match outcome {
            Ok(value) => r == value as isize && final(audit).same_as(*old(audit)),
            Err(error) => r == -errno_of(error) && final(audit).appended(
                *old(audit),
                control_failure_event(operation, *subject, requested_amount, error, timestamp_ms),
            ),
        },
{
    match outcome {
        Ok(value) => value as isize,
        Err(error) => {
            crate::security::audit::record_control_failure(
                audit,
                operation,
                subject,
                requested_amount,
                error,
                timestamp_ms,
            );
            let errno = crate::security::audit::error_to_errno(error);
            -(errno as isize)
        },
    }
}

/// The copies a successful audit read performs: record `i` of the batch,
/// encoded, at `records + i * 80`.
pub open spec fn audit_read_copies(
    ring: AuditRing,
    records: usize,
    capacity: usize,
    after_sequence: u64,
    copies: Seq<UserCopy>,
) -> bool {
    let events = snapshot_events(ring, after_sequence, capacity);
    let gap = snapshot_gap(ring, after_sequence, capacity);
    &&& copies.len() == events.len()
    &&& forall|i: int|
        0 <= i < copies.len() ==> (#[trigger] copies[i]).address == records + i
            * AUDIT_RECORD_V1_SIZE && copies[i].bytes@ == record_bytes(
            event_record(events[i], i == 0 && gap),
        )
}

/// Plan syscall 602: the records with sequence above `after_sequence`, at
/// most 32. Permission is checked before anything else; zero capacity and
/// an empty tail succeed without touching the output; only the range that is
/// really written is checked. The log is not changed.
pub fn read_records(
    ring: &AuditRing,
    subject: &IpcSubject,
    records: usize,
    capacity: usize,
    after_sequence: u64,
) -> (r: IpcResult<Vec<UserCopy>>)
    requires
        ring.wf(),
    ensures
        !may_read_audit(*subject) ==> r == Err::<Vec<UserCopy>, IpcError>(
            IpcError::PermissionDenied,
        ),
        may_read_audit(*subject) && (capacity == 0 || snapshot_count(*ring, after_sequence, capacity)
            == 0) ==> r is Ok && r->Ok_0@.len() == 0,
        may_read_audit(*subject) && capacity != 0 && snapshot_count(*ring, after_sequence, capacity)
            != 0 ==> {
            let n = snapshot_count(*ring, after_sequence, capacity) as usize;
            if output_range_ok(records, n, AUDIT_RECORD_V1_SIZE as usize) {
                &&& r is Ok
                &&& audit_read_copies(*ring, records, capacity, after_sequence, r->Ok_0@)
            } else {
                r == Err::<Vec<UserCopy>, IpcError>(IpcError::InvalidAddress)
            }
        },
{
    if let Err(error) = check_permission(subject) {
        return Err(error);
    }
    if capacity == 0 {
        return Ok(Vec::new());
    }
    let batch = ring.snapshot(after_sequence, capacity);
    if batch.len == 0 {
        return Ok(Vec::new());
    }
    let record_size = AUDIT_RECORD_V1_SIZE as usize;
    if let Err(error) = check_output_range(records, batch.len, record_size) {
        return Err(error);
    }
    let ghost events = snapshot_events(*ring, after_sequence, capacity);
    let mut copies: Vec<UserCopy> = Vec::new();
    let mut index: usize = 0;
    while index < batch.len
        invariant
            batch.len == snapshot_count(*ring, after_sequence, capacity),
            batch.events@.len() == 32,
            batch.len <= 32,
            batch.events@.subrange(0, batch.len as int) == events,
            batch.gap_before == snapshot_gap(*ring, after_sequence, capacity),
            output_range_ok(records, batch.len, 80),
            record_size == 80,
            index <= batch.len,
            copies@.len() == index,
            forall|i: int|
                0 <= i < index ==> (#[trigger] copies@[i]).address == records + i * 80
                    && copies@[i].bytes@ == record_bytes(
                    event_record(events[i], i == 0 && batch.gap_before),
                ),
        decreases batch.len - index,
    {
        assert(batch.events@[index as int] == events[index as int]);
        let record = batch.events[index].to_record(index == 0 && batch.gap_before);
        proof {
            assert(index * 80 <= batch.len * 80) by (nonlinear_arith)
                requires
                    index <= batch.len,
            ;
        }
        let address = records + index * record_size;
        copies.push(UserCopy { address, bytes: record.encode() });
        index = index + 1;
    }
    Ok(copies)
}

/// Statistics of a ring as one consistent snapshot.
pub open spec fn ring_stats(ring: AuditRing) -> AuditStatsSnapshot {
    AuditStatsSnapshot {
        capacity: 256,
        retained: ring@.len() as u64,
        first_sequence: ring.first_seq() as u64,
        next_sequence: ring.next_seq(),
        total_events: ring.total(),
        successful_events: ring.successful(),
        failed_events: ring.failed(),
        overwritten_events: ring.overwritten(),
    }
}

/// Plan syscall 603: one 80-byte statistics record at `stats`. Only
/// `flags == 0` and `out_size >= 80` are accepted; bytes beyond the first
/// 80 are never written. Permission is checked first, then the parameters,
/// then the address. The log is not changed.
pub fn read_stats(ring: &AuditRing, subject: &IpcSubject, stats: usize, out_size: usize, flags: usize) -> (r:
    IpcResult<UserCopy>)
    requires
        ring.wf(),
    ensures
        ({
            if !may_read_audit(*subject) {
                r == Err::<UserCopy, IpcError>(IpcError::PermissionDenied)
            } else if flags != 0 || out_size < IPC_STATS_V1_SIZE {
                r == Err::<UserCopy, IpcError>(IpcError::InvalidArgument)
            } else if !output_range_ok(stats, 1, IPC_STATS_V1_SIZE as usize) {
                r == Err::<UserCopy, IpcError>(IpcError::InvalidAddress)
            } else {
                &&& r is Ok
                &&& r->Ok_0.address == stats
                &&& r->Ok_0.bytes@ == stats_bytes(stats_record(ring_stats(*ring)))
            }
        }),
{
    if let Err(error) = check_permission(subject) {
        return Err(error);
    }
    let struct_size = IPC_STATS_V1_SIZE as usize;
    if flags != 0 || out_size < struct_size {
        return Err(IpcError::InvalidArgument);
    }
    if let Err(error) = check_output_range(stats, 1, struct_size) {
        return Err(error);
    }
    let snapshot = ring.stats();
    let record = snapshot.to_record();
    Ok(UserCopy { address: stats, bytes: record.encode() })
}

} // verus!
