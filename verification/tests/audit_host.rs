//! Host tests of audit events, the ABI records and the ring buffer.

use secure_ipc::security::audit::{
    error_to_errno, record, record_control_failure, AuditBatch, AuditControlOperation,
    AuditEvent, AuditRecordV1, AuditRing, AuditStatsSnapshot, IpcStatsV1, AUDIT_READ_MAX_RECORDS,
    AUDIT_RING_CAPACITY, AUDIT_UID_UNKNOWN,
};
use secure_ipc::security::{
    CapabilitySet, IpcError, IpcObject, IpcOperation, IpcRequest, IpcSubject,
};

/// The kernel clock is replaced by a fixed value.
const NOW_MS: u64 = 1234;

fn request(operation: IpcOperation) -> IpcRequest {
    IpcRequest {
        subject: IpcSubject {
            pid: 12,
            uid: 1000,
            capabilities: CapabilitySet::empty(),
        },
        object: IpcObject {
            id: 7,
            owner_uid: 42,
        },
        operation,
        amount: 100,
    }
}

fn le(bytes: &[u8], offset: usize, width: usize) -> u64 {
    let mut value = 0u64;
    for k in (0..width).rev() {
        value = (value << 8) | bytes[offset + k] as u64;
    }
    value
}

#[test]
fn abi_layout_matches_v1() {
    // Every field gets a distinct value, so its bytes can only be found at
    // its own offset of the encoded record.
    let record = AuditRecordV1 {
        abi_version: 0x0101,
        record_size: 0x0202,
        operation: 0x0303,
        flags: 0x0404,
        errno: 0x0505_0505,
        subject_uid: 0x0606_0606,
        object_owner_uid: 0x0707_0707,
        reserved0: 0x0808_0808,
        sequence: 0x0909_0909_0909_0909,
        timestamp_ms: 0x0a0a_0a0a_0a0a_0a0a,
        subject_pid: 0x0b0b_0b0b_0b0b_0b0b,
        object_id: 0x0c0c_0c0c_0c0c_0c0c,
        requested_amount: 0x0d0d_0d0d_0d0d_0d0d,
        result_value: 0x0e0e_0e0e_0e0e_0e0e,
        reserved1: 0x0f0f_0f0f_0f0f_0f0f,
    };
    let stats = IpcStatsV1 {
        abi_version: 0x0101,
        struct_size: 0x0202,
        flags: 0x0303_0303,
        capacity: 0x0404_0404_0404_0404,
        retained: 0x0505_0505_0505_0505,
        first_sequence: 0x0606_0606_0606_0606,
        next_sequence: 0x0707_0707_0707_0707,
        total_events: 0x0808_0808_0808_0808,
        successful_events: 0x0909_0909_0909_0909,
        failed_events: 0x0a0a_0a0a_0a0a_0a0a,
        overwritten_events: 0x0b0b_0b0b_0b0b_0b0b,
        reserved0: 0x0c0c_0c0c_0c0c_0c0c,
    };
    let record_bytes = record.encode();
    let stats_bytes = stats.encode();
    assert_eq!(record_bytes.len(), 80);
    assert_eq!(stats_bytes.len(), 80);

    let record_offsets = [0, 2, 4, 6, 8, 12, 16, 20, 24, 32, 40, 48, 56, 64, 72];
    let record_widths = [2, 2, 2, 2, 4, 4, 4, 4, 8, 8, 8, 8, 8, 8, 8];
    for (field, (offset, width)) in record_offsets.iter().zip(record_widths.iter()).enumerate() {
        let byte = (field + 1) as u64;
        let expected = (0..*width).fold(0u64, |v, _| (v << 8) | byte);
        assert_eq!(le(&record_bytes, *offset, *width), expected);
        // 8-byte fields stay 8-byte aligned.
        if *width == 8 {
            assert_eq!(offset % 8, 0);
        }
    }
    let stats_offsets = [0, 2, 4, 8, 16, 24, 32, 40, 48, 56, 64, 72];
    let stats_widths = [2, 2, 4, 8, 8, 8, 8, 8, 8, 8, 8, 8];
    for (field, (offset, width)) in stats_offsets.iter().zip(stats_widths.iter()).enumerate() {
        let byte = (field + 1) as u64;
        let expected = (0..*width).fold(0u64, |v, _| (v << 8) | byte);
        assert_eq!(le(&stats_bytes, *offset, *width), expected);
        if *width == 8 {
            assert_eq!(offset % 8, 0);
        }
    }
}

#[test]
fn operations_use_stable_ids_and_correct_success_amounts() {
    for (operation, id, result) in [
        (IpcOperation::SignalSend, 1, 1),
        (IpcOperation::PipeCreate, 2, 1),
        (IpcOperation::PipeRead, 3, 60),
        (IpcOperation::PipeWrite, 4, 60),
        (IpcOperation::AuditRead, 5, 60),
    ] {
        let mut req = request(operation);
        if matches!(
            operation,
            IpcOperation::SignalSend | IpcOperation::PipeCreate
        ) {
            req.amount = 1;
        }
        let event = AuditEvent::from_request(&req, &Ok(60), 1234);
        assert_eq!(event.operation, id);
        assert_eq!(event.errno, 0);
        assert_eq!(event.result_value, result);
        assert_eq!(event.requested_amount, req.amount as u64);
    }

    for operation in [IpcOperation::PipeRead, IpcOperation::PipeWrite] {
        let event = AuditEvent::from_request(&request(operation), &Ok(0), 1234);
        assert_eq!(event.errno, 0);
        assert_eq!(event.result_value, 0);
    }
}

#[test]
fn errors_use_positive_errno_and_zero_result() {
    for (error, errno) in [
        (IpcError::PermissionDenied, 1),
        (IpcError::ProcessNotFound, 3),
        (IpcError::TryAgain, 11),
        (IpcError::InvalidAddress, 14),
        (IpcError::InvalidArgument, 22),
        (IpcError::TooManyFiles, 24),
        (IpcError::ResourceExhausted, 28),
    ] {
        assert_eq!(error_to_errno(error), errno);
        for operation in [
            IpcOperation::SignalSend,
            IpcOperation::PipeCreate,
            IpcOperation::PipeRead,
            IpcOperation::PipeWrite,
            IpcOperation::AuditRead,
        ] {
            let outcome = Err(error);
            let event = AuditEvent::from_request(&request(operation), &outcome, 1234);
            assert_eq!(event.errno, errno);
            assert_eq!(event.result_value, 0);
            assert_eq!(outcome, Err(error));
        }
    }
}

#[test]
fn conversion_preserves_metadata_and_initializes_abi_fields() {
    let event = AuditEvent::from_request(&request(IpcOperation::PipeWrite), &Ok(60), 9876);
    assert_eq!(event.sequence, 0); // Events get their sequence number only in the ring.
    let stored = AuditEvent {
        sequence: 9,
        ..event
    };
    assert_eq!(
        stored.to_record(false),
        AuditRecordV1 {
            abi_version: 1,
            record_size: 80,
            operation: 4,
            flags: 0,
            errno: 0,
            subject_uid: 1000,
            object_owner_uid: 42,
            reserved0: 0,
            sequence: 9,
            timestamp_ms: 9876,
            subject_pid: 12,
            object_id: 7,
            requested_amount: 100,
            result_value: 60,
            reserved1: 0,
        }
    );
    assert_eq!(stored.to_record(true).flags, 1);
    assert_eq!(stored.to_record(false).flags, 0);
    assert_eq!(stored.sequence, 9);

    // UID 0 is a valid owner; the unknown UID and large ids are kept as is.
    for owner_uid in [0, AUDIT_UID_UNKNOWN] {
        let mut req = request(IpcOperation::PipeRead);
        req.object.owner_uid = owner_uid;
        req.object.id = u64::MAX;
        req.amount = usize::MAX;
        let record = AuditEvent::from_request(&req, &Ok(0), 1).to_record(false);
        assert_eq!(record.object_owner_uid, owner_uid);
        assert_eq!(record.object_id, u64::MAX);
        assert_eq!(record.requested_amount, usize::MAX as u64);
    }
}

#[test]
fn batch_conversion_marks_only_first_valid_record() {
    let mut events = vec![AuditEvent::empty(); AUDIT_READ_MAX_RECORDS];
    events[0] = AuditEvent {
        sequence: 10,
        operation: 60000,
        ..AuditEvent::empty()
    };
    events[1] = AuditEvent {
        sequence: 11,
        ..AuditEvent::empty()
    };
    let first = events[0];
    let batch = AuditBatch {
        events,
        len: 2,
        gap_before: true,
    };
    assert_eq!(batch.record_at(0).unwrap().flags, 1);
    assert_eq!(batch.record_at(1).unwrap().flags, 0);
    assert_eq!(batch.record_at(0).unwrap().operation, 60000); // Unknown ids do not panic.
    assert_eq!(batch.record_at(2), None); // Empty slots are not valid records.
    assert_eq!(batch.record_at(usize::MAX), None);
    assert_eq!(batch.events[0], first);
    assert_eq!(AuditBatch { len: 0, ..batch }.record_at(0), None);
}

#[test]
fn stats_conversion_preserves_one_consistent_snapshot() {
    let snapshot = AuditStatsSnapshot {
        capacity: 256,
        retained: 256,
        first_sequence: 5,
        next_sequence: 261,
        total_events: 260,
        successful_events: 160,
        failed_events: 100,
        overwritten_events: 4,
    };
    assert_eq!(
        snapshot.to_record(),
        IpcStatsV1 {
            abi_version: 1,
            struct_size: 80,
            flags: 0,
            capacity: 256,
            retained: 256,
            first_sequence: 5,
            next_sequence: 261,
            total_events: 260,
            successful_events: 160,
            failed_events: 100,
            overwritten_events: 4,
            reserved0: 0,
        }
    );
}

#[test]
fn recording_filters_feedback_and_keeps_ring_counters_consistent() {
    let mut ring = AuditRing::new();
    let before = ring.stats().to_record();
    let req = request(IpcOperation::PipeWrite);
    let outcome = Ok(60);
    record(&mut ring, &req, &outcome, NOW_MS);
    assert_eq!(outcome, Ok(60));
    let first = ring
        .snapshot(before.next_sequence - 1, 32)
        .record_at(0)
        .unwrap();
    assert_eq!(first.sequence, before.next_sequence);
    assert_eq!(first.timestamp_ms, 1234);
    assert_eq!(first.result_value, 60);

    let after_success = ring.stats().to_record();
    record(&mut ring, &request(IpcOperation::AuditRead), &Ok(1), NOW_MS);
    record(&mut ring, &request(IpcOperation::AuditRead), &Ok(0), NOW_MS);
    assert_eq!(ring.snapshot(after_success.next_sequence - 1, 32).len, 0);
    assert_eq!(ring.stats().to_record(), after_success);

    record(
        &mut ring,
        &request(IpcOperation::AuditRead),
        &Err(IpcError::PermissionDenied),
        NOW_MS,
    );
    record_control_failure(
        &mut ring,
        AuditControlOperation::AuditRead,
        &req.subject,
        33,
        IpcError::InvalidAddress,
        NOW_MS,
    );
    record_control_failure(
        &mut ring,
        AuditControlOperation::IpcStat,
        &req.subject,
        999,
        IpcError::InvalidArgument,
        NOW_MS,
    );
    let failures = ring.snapshot(after_success.next_sequence - 1, 32);
    assert_eq!(failures.len, 3);
    for (index, operation, errno, amount) in [(0, 5, 1, 100), (1, 5, 14, 33), (2, 6, 22, 0)] {
        let record = failures.record_at(index).unwrap();
        assert_eq!(record.operation, operation);
        assert_eq!(record.errno, errno);
        assert_eq!(record.result_value, 0);
        assert_eq!(record.requested_amount, amount);
        assert_eq!(record.subject_pid, 12);
        assert_eq!(record.subject_uid, 1000);
        assert_eq!(record.timestamp_ms, 1234);
        if index != 0 {
            assert_eq!(record.object_id, 0);
            assert_eq!(record.object_owner_uid, u32::MAX);
        }
    }
    let after_failures = ring.stats().to_record();
    assert_eq!(after_failures.total_events - before.total_events, 4);
    assert_eq!(
        after_failures.successful_events - before.successful_events,
        1
    );
    assert_eq!(after_failures.failed_events - before.failed_events, 3);

    // Overflow the ring through the real recording entry, then check that
    // reading does not write the gap flag back into the ring.
    for _ in 0..=AUDIT_RING_CAPACITY {
        record_control_failure(
            &mut ring,
            AuditControlOperation::IpcStat,
            &req.subject,
            0,
            IpcError::InvalidArgument,
            NOW_MS,
        );
    }
    let after_overflow = ring.stats().to_record();
    assert_eq!(after_overflow.retained, after_overflow.capacity);
    assert_eq!(
        after_overflow.total_events,
        after_overflow.successful_events + after_overflow.failed_events
    );
    assert!(after_overflow.overwritten_events > after_failures.overwritten_events);
    let batch = ring.snapshot(before.next_sequence - 1, usize::MAX);
    assert_eq!(batch.len, 32);
    assert_eq!(batch.record_at(0).unwrap().flags, 1);
    for index in 1..batch.len {
        let record = batch.record_at(index).unwrap();
        assert_eq!(record.flags, 0);
        assert_eq!(record.sequence, batch.events[0].sequence + index as u64);
    }
    let caught_up = ring.snapshot(after_overflow.first_sequence - 1, 32);
    assert_eq!(caught_up.record_at(0).unwrap().flags, 0);
    assert_eq!(ring.snapshot(u64::MAX, 32).len, 0);
    assert_eq!(ring.snapshot(0, 0).len, 0);
    assert_eq!(ring.stats().to_record(), after_overflow);
}
