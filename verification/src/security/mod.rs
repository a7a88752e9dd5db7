//! Facade of the IPC security modules: every IPC request passes policy and
//! quota checks in `preflight`, and reports its outcome through `complete`.
use vstd::prelude::*;

pub mod api;
pub mod audit;
pub mod credentials;
pub mod policy;
pub mod quota;

pub use api::{
    CapabilitySet, IpcError, IpcObject, IpcOperation, IpcRequest, IpcResult, IpcSubject,
    ResourceId, Uid,
};

use audit::{request_event, AuditRing};
use credentials::Credentials;
use policy::authorization;
use quota::{QuotaReservation, QuotaState, MAX_OPEN_FILES, MAX_OPEN_PIPE_FDS};

verus! {

/// Security state embedded once in each process.
#[derive(Debug)]
pub struct ProcessSecurityState {
    pub credentials: Credentials,
    pub quota: QuotaState,
}

impl ProcessSecurityState {
    /// State of the initial process: root credentials and the three
    /// standard descriptors.
    pub fn initial() -> (r: Self)
        ensures
            r.credentials == Credentials::spec_root(),
            r.quota.open_files == quota::INITIAL_OPEN_FILES,
            r.quota.open_pipes == 0,
            r.quota.pipe_fds@ == Seq::<usize>::empty(),
            r.quota.wf(),
    {
        let credentials = Credentials::initial();
        Self { credentials, quota: QuotaState::initial() }
    }

    /// State of a child: it inherits credentials and quota counters.
    pub fn fork_from(parent: &Self) -> (r: Self)
        ensures
            r.credentials == parent.credentials,
            r.quota.open_files == parent.quota.open_files,
            r.quota.open_pipes == parent.quota.open_pipes,
            r.quota.pipe_fds@ == parent.quota.pipe_fds@,
    {
        Self {
            credentials: Credentials::fork_from(&parent.credentials),
            quota: QuotaState::fork_from(&parent.quota),
        }
    }
}

/// Proof that policy and quota checks ran for a request; only `preflight`
/// creates one.
#[derive(Debug)]
pub struct IpcPermit {
    request: IpcRequest,
    reservation: QuotaReservation,
}

impl IpcPermit {
    /// The admitted request.
    pub closed spec fn request(&self) -> IpcRequest {
        self.request
    }

    /// Descriptor slots held by the permit.
    pub closed spec fn reserved_files(&self) -> usize {
        self.reservation.files
    }

    /// Pipe endpoint slots held by the permit.
    pub closed spec fn reserved_pipe_fds(&self) -> usize {
        self.reservation.pipe_fds
    }
}

/// Whether the quota admits an operation: a new pipe needs two descriptors
/// (else `TooManyFiles`) and two pipe endpoints (else `ResourceExhausted`).
pub open spec fn quota_admission(quota: QuotaState, operation: IpcOperation) -> IpcResult<()> {
    if operation != IpcOperation::PipeCreate {
        Ok(())
    } else if quota.open_files + 2 > MAX_OPEN_FILES {
        Err(IpcError::TooManyFiles)
    } else if quota.open_pipes + 2 > MAX_OPEN_PIPE_FDS {
        Err(IpcError::ResourceExhausted)
    } else {
        Ok(())
    }
}

/// The decision of `preflight`: policy first, then quota.
pub open spec fn admission(quota: QuotaState, request: IpcRequest) -> IpcResult<()> {
    match authorization(request) {
        Err(e) => Err(e),
        Ok(()) => quota_admission(quota, request.operation),
    }
}

/// Run authorization and quota checks. A refused request is recorded in the
/// audit log as a failure and changes no quota; an admitted one holds its
/// reservation in the returned permit and is recorded later by `complete`.
pub fn preflight(
    state: &mut ProcessSecurityState,
    audit: &mut AuditRing,
    request: IpcRequest,
    timestamp_ms: u64,
) -> (r: IpcResult<IpcPermit>)
    requires
        old(audit).wf(),
    ensures
        final(audit).wf(),
        final(state).credentials == old(state).credentials,
        final(state).quota.pipe_fds@ == old(state).quota.pipe_fds@,
        match admission(old(state).quota, request) {
            Err(e) => {
                &&& r == Err::<IpcPermit, IpcError>(e)
                &&& final(state).quota.open_files == old(state).quota.open_files
                &&& final(state).quota.open_pipes == old(state).quota.open_pipes
                &&& final(audit).appended(
                    *old(audit),
                    request_event(request, Err(e), timestamp_ms),
                )
            },
            Ok(()) => {
                &&& r is Ok
                &&& r->Ok_0.request() == request
                &&& r->Ok_0.reserved_files() == quota::reserved_files(request.operation)
                &&& r->Ok_0.reserved_pipe_fds() == quota::reserved_pipe_fds(request.operation)
                &&& final(state).quota.open_files == old(state).quota.open_files
                    + quota::reserved_files(request.operation)
                &&& final(state).quota.open_pipes == old(state).quota.open_pipes
                    + quota::reserved_pipe_fds(request.operation)
                &&& final(audit).same_as(*old(audit))
            },
        },
{
    if let Err(error) = policy::authorize(&request) {
        audit::record(audit, &request, &Err(error), timestamp_ms);
        return Err(error);
    }
    match quota::reserve(&mut state.quota, &request) {
        Ok(reservation) => Ok(IpcPermit { request, reservation }),
        Err(error) => {
            audit::record(audit, &request, &Err(error), timestamp_ms);
            Err(error)
        },
    }
}

/// Finish a request: commit the reservation on success or roll it back on
/// failure, record the outcome, and hand the outcome back unchanged.
pub fn complete(
    state: &mut ProcessSecurityState,
    audit: &mut AuditRing,
    permit: IpcPermit,
    outcome: IpcResult<usize>,
    timestamp_ms: u64,
) -> (r: IpcResult<usize>)
    requires
        old(audit).wf(),
        outcome is Err ==> old(state).quota.open_files >= permit.reserved_files(),
        outcome is Err ==> old(state).quota.open_pipes >= permit.reserved_pipe_fds(),
    ensures
        r == outcome,
        final(audit).wf(),
        final(state).credentials == old(state).credentials,
        final(state).quota.pipe_fds@ == old(state).quota.pipe_fds@,
        outcome is Ok ==> final(state).quota.open_files == old(state).quota.open_files,
        outcome is Ok ==> final(state).quota.open_pipes == old(state).quota.open_pipes,
        outcome is Err ==> final(state).quota.open_files == old(state).quota.open_files
            - permit.reserved_files(),
        outcome is Err ==> final(state).quota.open_pipes == old(state).quota.open_pipes
            - permit.reserved_pipe_fds(),
        audit::is_read_feedback(permit.request(), outcome) ==> final(audit).same_as(*old(audit)),
        !audit::is_read_feedback(permit.request(), outcome) ==> final(audit).appended(
            *old(audit),
            request_event(permit.request(), outcome, timestamp_ms),
        ),
{
    let IpcPermit { request, reservation } = permit;
    quota::finish(&mut state.quota, reservation, outcome.is_ok());
    audit::record(audit, &request, &outcome, timestamp_ms);
    outcome
}

/// A request that `preflight` admits and `complete` then fails leaves the
/// quota counters as they were before the request: whatever was reserved
/// is given back. (`admitted` is the quota after `preflight`, `after` the
/// quota after `complete` with an error.)
pub proof fn lemma_failed_request_restores_quota(
    before: QuotaState,
    admitted: QuotaState,
    after: QuotaState,
    request: IpcRequest,
)
    requires
        admission(before, request) is Ok,
        admitted.open_files == before.open_files + quota::reserved_files(request.operation),
        admitted.open_pipes == before.open_pipes + quota::reserved_pipe_fds(request.operation),
        after.open_files == admitted.open_files - quota::reserved_files(request.operation),
        after.open_pipes == admitted.open_pipes - quota::reserved_pipe_fds(request.operation),
    ensures
        after.open_files == before.open_files,
        after.open_pipes == before.open_pipes,
{
}

/// Admission never lets the counters pass the limits: if they were within
/// the limits before `preflight`, they still are after it admits a request
/// (and a successful `complete` keeps them).
pub proof fn lemma_admission_within_limits(
    before: QuotaState,
    admitted: QuotaState,
    request: IpcRequest,
)
    requires
        before.open_files <= MAX_OPEN_FILES,
        before.open_pipes <= MAX_OPEN_PIPE_FDS,
        admission(before, request) is Ok,
        admitted.open_files == before.open_files + quota::reserved_files(request.operation),
        admitted.open_pipes == before.open_pipes + quota::reserved_pipe_fds(request.operation),
    ensures
        admitted.open_files <= MAX_OPEN_FILES,
        admitted.open_pipes <= MAX_OPEN_PIPE_FDS,
{
}

/// Record a failed request that never reached `preflight` (for example an
/// invalid user buffer).
pub fn record_failure(audit: &mut AuditRing, request: &IpcRequest, error: IpcError, timestamp_ms: u64)
    requires
        old(audit).wf(),
    ensures
        final(audit).wf(),
        final(audit).appended(*old(audit), request_event(*request, Err(error), timestamp_ms)),
{
    audit::record(audit, request, &Err(error), timestamp_ms);
}

/// Reserve one ordinary descriptor slot (for `open`).
pub fn reserve_file_fd(state: &mut ProcessSecurityState) -> (r: IpcResult<()>)
    ensures
        final(state).credentials == old(state).credentials,
        final(state).quota.open_pipes == old(state).quota.open_pipes,
        final(state).quota.pipe_fds@ == old(state).quota.pipe_fds@,
        old(state).quota.open_files + 1 > MAX_OPEN_FILES ==> r == Err::<(), IpcError>(
            IpcError::TooManyFiles,
        ) && final(state).quota.open_files == old(state).quota.open_files,
        old(state).quota.open_files + 1 <= MAX_OPEN_FILES ==> r == Ok::<(), IpcError>(())
            && final(state).quota.open_files == old(state).quota.open_files + 1,
{
    state.quota.reserve_files(1)
}

/// Reserve quota for duplicating a descriptor; returns whether the source is
/// a pipe endpoint (see `QuotaState::reserve_dup_fd`).
pub fn reserve_dup_fd(state: &mut ProcessSecurityState, source_fd: usize) -> (r: IpcResult<bool>)
    ensures
        final(state).credentials == old(state).credentials,
        final(state).quota.pipe_fds@ == old(state).quota.pipe_fds@,
        ({
            let is_pipe = old(state).quota.is_pipe_fd(source_fd);
            if old(state).quota.open_files + 1 > MAX_OPEN_FILES {
                &&& r == Err::<bool, IpcError>(IpcError::TooManyFiles)
                &&& final(state).quota.open_files == old(state).quota.open_files
                &&& final(state).quota.open_pipes == old(state).quota.open_pipes
            } else if is_pipe && old(state).quota.open_pipes + 1 > MAX_OPEN_PIPE_FDS {
                &&& r == Err::<bool, IpcError>(IpcError::ResourceExhausted)
                &&& final(state).quota.open_files == old(state).quota.open_files
                &&& final(state).quota.open_pipes == old(state).quota.open_pipes
            } else {
                &&& r == Ok::<bool, IpcError>(is_pipe)
                &&& final(state).quota.open_files == old(state).quota.open_files + 1
                &&& final(state).quota.open_pipes == old(state).quota.open_pipes + (if is_pipe {
                    1int
                } else {
                    0int
                })
            }
        }),
{
    state.quota.reserve_dup_fd(source_fd)
}

/// Register an already reserved descriptor as a pipe endpoint.
pub fn register_pipe_fd(state: &mut ProcessSecurityState, fd: usize)
    requires
        old(state).quota.wf(),
        old(state).quota.is_pipe_fd(fd) || old(state).quota.pipe_fds@.len()
            < old(state).quota.open_pipes,
    ensures
        final(state).quota.wf(),
        final(state).credentials == old(state).credentials,
        final(state).quota.open_files == old(state).quota.open_files,
        final(state).quota.open_pipes == old(state).quota.open_pipes,
        forall|x: usize|
            final(state).quota.is_pipe_fd(x) <==> (old(state).quota.is_pipe_fd(x) || x == fd),
        final(state).quota.pipe_fds@.len() <= old(state).quota.pipe_fds@.len() + 1,
{
    state.quota.register_pipe_fd(fd);
}

/// Forget pipe metadata of `fd` without releasing any quota.
pub fn unregister_pipe_fd(state: &mut ProcessSecurityState, fd: usize)
    requires
        old(state).quota.wf(),
    ensures
        final(state).quota.wf(),
        final(state).credentials == old(state).credentials,
        final(state).quota.open_files == old(state).quota.open_files,
        final(state).quota.open_pipes == old(state).quota.open_pipes,
        forall|x: usize|
            final(state).quota.is_pipe_fd(x) <==> (old(state).quota.is_pipe_fd(x) && x != fd),
{
    state.quota.unregister_pipe_fd(fd);
}

/// Release one committed descriptor and its quota.
pub fn release_fd(state: &mut ProcessSecurityState, fd: usize)
    requires
        old(state).quota.wf(),
        old(state).quota.open_files >= 1,
    ensures
        final(state).quota.wf(),
        final(state).credentials == old(state).credentials,
        final(state).quota.open_files == old(state).quota.open_files - 1,
        final(state).quota.open_pipes == old(state).quota.open_pipes - (if old(state).quota.is_pipe_fd(fd) {
            1int
        } else {
            0int
        }),
        forall|x: usize|
            final(state).quota.is_pipe_fd(x) <==> (old(state).quota.is_pipe_fd(x) && x != fd),
{
    state.quota.release_fd(fd);
}

} // verus!
