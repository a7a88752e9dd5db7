//! Credentials, signal policy, quotas and the security facade.

use secure_ipc::security::audit::{AuditRing, AUDIT_OP_PIPE_CREATE, AUDIT_OP_SIGNAL_SEND};
use secure_ipc::security::credentials::{Credentials, ROOT_UID};
use secure_ipc::security::policy::{authorize, authorize_signal};
use secure_ipc::security::quota::{reserve, finish, QuotaState, MAX_OPEN_FILES, MAX_OPEN_PIPE_FDS};
use secure_ipc::security::{
    complete, preflight, record_failure, register_pipe_fd, release_fd, reserve_dup_fd,
    reserve_file_fd, unregister_pipe_fd, CapabilitySet, IpcError, IpcObject, IpcOperation,
    IpcRequest, IpcSubject, ProcessSecurityState,
};

fn signal(pid: usize, uid: u32, caps: CapabilitySet, target: u64, owner: u32) -> IpcRequest {
    IpcRequest {
        subject: IpcSubject { pid, uid, capabilities: caps },
        object: IpcObject { id: target, owner_uid: owner },
        operation: IpcOperation::SignalSend,
        amount: 1,
    }
}

fn pipe_request(uid: u32) -> IpcRequest {
    IpcRequest {
        subject: IpcSubject { pid: 5, uid, capabilities: CapabilitySet::empty() },
        object: IpcObject { id: 0, owner_uid: uid },
        operation: IpcOperation::PipeCreate,
        amount: 1,
    }
}

#[test]
fn capability_sets_contain_their_bits() {
    let all = CapabilitySet::all();
    assert!(all.contains(CapabilitySet::kill()));
    assert!(all.contains(CapabilitySet::ipc_admin()));
    assert!(all.contains(CapabilitySet::audit_read()));
    assert!(!CapabilitySet::empty().contains(CapabilitySet::kill()));
    assert!(CapabilitySet::empty().contains(CapabilitySet::empty()));
    assert!(!CapabilitySet::kill().contains(CapabilitySet::audit_read()));
    assert_eq!(all.0, 7);
}

#[test]
fn root_credentials_and_fork_inheritance() {
    let root = Credentials::root();
    assert_eq!(root.uid, ROOT_UID);
    assert_eq!(root.capabilities, CapabilitySet::all());
    assert!(root.is_root());
    assert_eq!(Credentials::initial(), root);
    let user = Credentials { uid: 7, capabilities: CapabilitySet::kill() };
    assert!(!user.is_root());
    assert_eq!(Credentials::fork_from(&user), user);
}

#[test]
fn signal_policy_table() {
    let none = CapabilitySet::empty();
    // Self-signal, same owner, root sender and KILL holder are allowed.
    assert_eq!(authorize(&signal(9, 1, none, 9, 2)), Ok(()));
    assert_eq!(authorize(&signal(9, 2, none, 4, 2)), Ok(()));
    assert_eq!(authorize(&signal(9, 0, none, 4, 2)), Ok(()));
    assert_eq!(authorize(&signal(9, 1, CapabilitySet::kill(), 4, 2)), Ok(()));
    // Everybody else is refused; other capabilities do not help.
    assert_eq!(authorize(&signal(9, 1, none, 4, 2)), Err(IpcError::PermissionDenied));
    assert_eq!(
        authorize_signal(&signal(9, 1, CapabilitySet::audit_read(), 4, 2)),
        Err(IpcError::PermissionDenied)
    );
    // Other operations are not restricted by the policy.
    let mut other = signal(9, 1, none, 4, 2);
    other.operation = IpcOperation::PipeRead;
    assert_eq!(authorize(&other), Ok(()));
}

#[test]
fn file_quota_limits_and_recovers() {
    let mut quota = QuotaState::initial();
    assert_eq!(quota.open_files, 3);
    for _ in 3..MAX_OPEN_FILES {
        assert_eq!(quota.reserve_files(1), Ok(()));
    }
    assert_eq!(quota.reserve_files(1), Err(IpcError::TooManyFiles));
    assert_eq!(quota.open_files, MAX_OPEN_FILES);
    assert_eq!(quota.reserve_files(usize::MAX), Err(IpcError::TooManyFiles));
    quota.release_files(1);
    assert_eq!(quota.reserve_files(1), Ok(()));
}

#[test]
fn pipe_quota_limits_and_recovers() {
    let mut quota = QuotaState::initial();
    for _ in 0..MAX_OPEN_PIPE_FDS / 2 {
        assert_eq!(quota.reserve_pipe_fds(2), Ok(()));
    }
    assert_eq!(quota.reserve_pipe_fds(2), Err(IpcError::ResourceExhausted));
    assert_eq!(quota.open_pipes, MAX_OPEN_PIPE_FDS);
    quota.release_pipe_fds(2);
    assert_eq!(quota.reserve_pipe_fds(2), Ok(()));
    assert_eq!(quota.reserve_pipe_fds(usize::MAX), Err(IpcError::ResourceExhausted));
}

#[test]
fn dup_of_pipe_endpoint_charges_pipe_quota() {
    let mut quota = QuotaState::initial();
    assert_eq!(quota.reserve_pipe_fds(2), Ok(()));
    quota.register_pipe_fd(3);
    quota.register_pipe_fd(4);
    assert!(quota.pipe_fd_registered(3));
    assert_eq!(quota.reserve_dup_fd(1), Ok(false));
    assert_eq!(quota.open_pipes, 2);
    assert_eq!(quota.reserve_dup_fd(3), Ok(true));
    assert_eq!(quota.open_pipes, 3);
    // Fill the pipe quota, then a pipe dup is refused without side effects.
    assert_eq!(quota.reserve_pipe_fds(MAX_OPEN_PIPE_FDS - 3), Ok(()));
    let files = quota.open_files;
    assert_eq!(quota.reserve_dup_fd(4), Err(IpcError::ResourceExhausted));
    assert_eq!(quota.open_files, files);
    // Closing a pipe endpoint releases both kinds of quota.
    quota.release_fd(4);
    assert!(!quota.pipe_fd_registered(4));
    assert_eq!(quota.open_files, files - 1);
    assert_eq!(quota.open_pipes, MAX_OPEN_PIPE_FDS - 1);
    quota.unregister_pipe_fd(3);
    assert!(!quota.pipe_fd_registered(3));
    assert_eq!(quota.open_pipes, MAX_OPEN_PIPE_FDS - 1);
}

#[test]
fn fork_copies_quota_independently() {
    let mut parent = QuotaState::initial();
    assert_eq!(parent.reserve_pipe_fds(2), Ok(()));
    parent.register_pipe_fd(5);
    let mut child = QuotaState::fork_from(&parent);
    assert_eq!(child.open_pipes, 2);
    assert!(child.pipe_fd_registered(5));
    child.release_fd(5);
    assert_eq!(child.open_pipes, 1);
    assert_eq!(parent.open_pipes, 2);
    assert!(parent.pipe_fd_registered(5));
}

#[test]
fn pipe_reservation_prefers_emfile_and_rolls_back() {
    let mut quota = QuotaState::initial();
    assert_eq!(quota.reserve_files(MAX_OPEN_FILES - 4), Ok(()));
    assert_eq!(reserve(&mut quota, &pipe_request(1)).unwrap_err(), IpcError::TooManyFiles);
    assert_eq!(quota.open_files, MAX_OPEN_FILES - 1);
    quota.release_files(1);
    let reservation = reserve(&mut quota, &pipe_request(1)).unwrap();
    assert_eq!((reservation.files, reservation.pipe_fds), (2, 2));
    assert_eq!(quota.open_files, MAX_OPEN_FILES);
    finish(&mut quota, reservation, false);
    assert_eq!(quota.open_files, MAX_OPEN_FILES - 2);
    assert_eq!(quota.open_pipes, 0);
}

#[test]
fn preflight_records_refusals_and_complete_records_outcomes() {
    let mut state = ProcessSecurityState::initial();
    let mut ring = AuditRing::new();
    state.credentials = Credentials { uid: 1, capabilities: CapabilitySet::empty() };

    // A refused signal is recorded once and returns the error.
    let denied = signal(3, 1, CapabilitySet::empty(), 4, 2);
    assert_eq!(preflight(&mut state, &mut ring, denied, 10).unwrap_err(), IpcError::PermissionDenied);
    let events = ring.snapshot(0, 32);
    assert_eq!(events.len, 1);
    let first = events.record_at(0).unwrap();
    assert_eq!((first.operation, first.errno, first.timestamp_ms), (AUDIT_OP_SIGNAL_SEND, 1, 10));

    // An admitted pipe holds its reservation until completion.
    let permit = preflight(&mut state, &mut ring, pipe_request(1), 11).unwrap();
    assert_eq!(ring.stats().total_events, 1);
    assert_eq!((state.quota.open_files, state.quota.open_pipes), (5, 2));
    assert_eq!(complete(&mut state, &mut ring, permit, Err(IpcError::InvalidAddress), 12), Err(IpcError::InvalidAddress));
    assert_eq!((state.quota.open_files, state.quota.open_pipes), (3, 0));
    let second = ring.snapshot(1, 32).record_at(0).unwrap();
    assert_eq!((second.operation, second.errno, second.result_value), (AUDIT_OP_PIPE_CREATE, 14, 0));

    let permit = preflight(&mut state, &mut ring, pipe_request(1), 13).unwrap();
    assert_eq!(complete(&mut state, &mut ring, permit, Ok(0), 14), Ok(0));
    assert_eq!((state.quota.open_files, state.quota.open_pipes), (5, 2));
    let third = ring.snapshot(2, 32).record_at(0).unwrap();
    assert_eq!((third.errno, third.result_value, third.object_owner_uid), (0, 1, 1));

    // Quota refusals are recorded as well.
    for _ in 0..7 {
        let permit = preflight(&mut state, &mut ring, pipe_request(1), 15).unwrap();
        assert_eq!(complete(&mut state, &mut ring, permit, Ok(0), 15), Ok(0));
    }
    let before = ring.stats().total_events;
    assert_eq!(preflight(&mut state, &mut ring, pipe_request(1), 16).unwrap_err(), IpcError::ResourceExhausted);
    let refused = ring.snapshot(before, 32).record_at(0).unwrap();
    assert_eq!(refused.errno, 28);

    record_failure(&mut ring, &pipe_request(1), IpcError::InvalidArgument, 17);
    assert_eq!(ring.stats().failed_events, 4);
}

#[test]
fn facade_descriptor_hooks_follow_quota_rules() {
    let mut state = ProcessSecurityState::initial();
    assert_eq!(reserve_file_fd(&mut state), Ok(()));
    assert_eq!(state.quota.open_files, 4);
    assert_eq!(state.quota.reserve_pipe_fds(1), Ok(()));
    register_pipe_fd(&mut state, 3);
    assert_eq!(reserve_dup_fd(&mut state, 3), Ok(true));
    register_pipe_fd(&mut state, 4);
    release_fd(&mut state, 4);
    assert_eq!((state.quota.open_files, state.quota.open_pipes), (4, 1));
    unregister_pipe_fd(&mut state, 3);
    assert!(!state.quota.pipe_fd_registered(3));
    let child = ProcessSecurityState::fork_from(&state);
    assert_eq!(child.credentials, state.credentials);
    assert_eq!(child.quota.open_files, 4);
}
