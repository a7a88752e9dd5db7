//! Per-process descriptor quotas.
use vstd::prelude::*;

use super::api::{IpcError, IpcOperation, IpcRequest, IpcResult};

verus! {

/// Maximum number of open file descriptors per process.
pub const MAX_OPEN_FILES: usize = 32;

/// Maximum number of pipe endpoint descriptors per process.
pub const MAX_OPEN_PIPE_FDS: usize = 16;

/// Descriptors that the initial process owns: stdin, stdout and stderr.
pub const INITIAL_OPEN_FILES: usize = 3;

/// Per-process quota counters kept in the task control block.
#[derive(Debug)]
pub struct QuotaState {
    /// Number of currently open (or reserved) file descriptors.
    pub open_files: usize,
    /// Number of currently open (or reserved) pipe endpoint descriptors.
    /// A single pipe normally contributes two of them.
    pub open_pipes: usize,
    /// Descriptor numbers that are committed pipe endpoints.
    pub pipe_fds: Vec<usize>,
}

impl QuotaState {
    /// The accounting invariant: a descriptor is registered at most once and
    /// every registered pipe endpoint holds one unit of pipe quota.
    pub open spec fn wf(&self) -> bool {
        &&& self.pipe_fds@.no_duplicates()
        &&& self.pipe_fds@.len() <= self.open_pipes
    }

    /// Whether `fd` is a committed pipe endpoint.
    pub open spec fn is_pipe_fd(&self, fd: usize) -> bool {
        self.pipe_fds@.contains(fd)
    }

    /// Initial quota state: the three standard descriptors are in use.
    pub fn initial() -> (r: Self)
        ensures
            r.open_files == INITIAL_OPEN_FILES,
            r.open_pipes == 0,
            r.pipe_fds@ == Seq::<usize>::empty(),
            r.wf(),
    {
        Self { open_files: INITIAL_OPEN_FILES, open_pipes: 0, pipe_fds: Vec::new() }
    }

    /// A child inherits the parent's descriptor table and therefore starts
    /// with the same counters.
    pub fn fork_from(parent: &Self) -> (r: Self)
        ensures
            r.open_files == parent.open_files,
            r.open_pipes == parent.open_pipes,
            r.pipe_fds@ == parent.pipe_fds@,
    {
        let pipe_fds = parent.pipe_fds.clone();
        assert(pipe_fds@ =~= parent.pipe_fds@);
        Self { open_files: parent.open_files, open_pipes: parent.open_pipes, pipe_fds }
    }

    /// Reserve ordinary descriptor slots; fails with `TooManyFiles` when the
    /// total would exceed `MAX_OPEN_FILES`, leaving the counters untouched.
    pub fn reserve_files(&mut self, amount: usize) -> (r: IpcResult<()>)
        ensures
            final(self).open_pipes == old(self).open_pipes,
            final(self).pipe_fds@ == old(self).pipe_fds@,
            old(self).open_files + amount > MAX_OPEN_FILES ==> r == Err::<(), IpcError>(
                IpcError::TooManyFiles,
            ) && final(self).open_files == old(self).open_files,
            old(self).open_files + amount <= MAX_OPEN_FILES ==> r == Ok::<(), IpcError>(())
                && final(self).open_files == old(self).open_files + amount,
    {
        let next = match self.open_files.checked_add(amount) {
            Some(next) => next,
            None => return Err(IpcError::TooManyFiles),
        };
        if next > MAX_OPEN_FILES {
            return Err(IpcError::TooManyFiles);
        }
        self.open_files = next;
        Ok(())
    }

    /// Release ordinary descriptor slots.
    pub fn release_files(&mut self, amount: usize)
        requires
            old(self).open_files >= amount,
        ensures
            final(self).open_files == old(self).open_files - amount,
            final(self).open_pipes == old(self).open_pipes,
            final(self).pipe_fds@ == old(self).pipe_fds@,
    {
        self.open_files = self.open_files - amount;
    }

    /// Reserve pipe endpoint slots; fails with `ResourceExhausted` when the
    /// total would exceed `MAX_OPEN_PIPE_FDS`, leaving the counters untouched.
    pub fn reserve_pipe_fds(&mut self, amount: usize) -> (r: IpcResult<()>)
        ensures
            final(self).open_files == old(self).open_files,
            final(self).pipe_fds@ == old(self).pipe_fds@,
            old(self).open_pipes + amount > MAX_OPEN_PIPE_FDS ==> r == Err::<(), IpcError>(
                IpcError::ResourceExhausted,
            ) && final(self).open_pipes == old(self).open_pipes,
            old(self).open_pipes + amount <= MAX_OPEN_PIPE_FDS ==> r == Ok::<(), IpcError>(())
                && final(self).open_pipes == old(self).open_pipes + amount,
    {
        let next = match self.open_pipes.checked_add(amount) {
            Some(next) => next,
            None => return Err(IpcError::ResourceExhausted),
        };
        if next > MAX_OPEN_PIPE_FDS {
            return Err(IpcError::ResourceExhausted);
        }
        self.open_pipes = next;
        Ok(())
    }

    /// Release pipe endpoint slots.
    pub fn release_pipe_fds(&mut self, amount: usize)
        requires
            old(self).open_pipes >= amount,
        ensures
            final(self).open_pipes == old(self).open_pipes - amount,
            final(self).open_files == old(self).open_files,
            final(self).pipe_fds@ == old(self).pipe_fds@,
    {
        self.open_pipes = self.open_pipes - amount;
    }

    /// Whether `fd` is a committed pipe endpoint.
    pub fn pipe_fd_registered(&self, fd: usize) -> (r: bool)
        ensures
            r == self.is_pipe_fd(fd),
    {
        let mut i: usize = 0;
        while i < self.pipe_fds.len()
            invariant
                i <= self.pipe_fds.len(),
                forall|j: int| 0 <= j < i ==> self.pipe_fds@[j] != fd,
            decreases self.pipe_fds.len() - i,
        {
            if self.pipe_fds[i] == fd {
                return true;
            }
            i = i + 1;
        }
        false
    }

    /// Reserve quota for duplicating `source_fd`: one ordinary slot and, when
    /// the source is a pipe endpoint, one pipe slot as well. Returns whether
    /// the source is a pipe endpoint. A failure leaves the counters untouched;
    /// `TooManyFiles` takes precedence over `ResourceExhausted`.
    pub fn reserve_dup_fd(&mut self, source_fd: usize) -> (r: IpcResult<bool>)
        ensures
            final(self).pipe_fds@ == old(self).pipe_fds@,
            ({
                let is_pipe = old(self).is_pipe_fd(source_fd);
                if old(self).open_files + 1 > MAX_OPEN_FILES {
                    &&& r == Err::<bool, IpcError>(IpcError::TooManyFiles)
                    &&& final(self).open_files == old(self).open_files
                    &&& final(self).open_pipes == old(self).open_pipes
                } else if is_pipe && old(self).open_pipes + 1 > MAX_OPEN_PIPE_FDS {
                    &&& r == Err::<bool, IpcError>(IpcError::ResourceExhausted)
                    &&& final(self).open_files == old(self).open_files
                    &&& final(self).open_pipes == old(self).open_pipes
                } else {
                    &&& r == Ok::<bool, IpcError>(is_pipe)
                    &&& final(self).open_files == old(self).open_files + 1
                    &&& final(self).open_pipes == old(self).open_pipes + (if is_pipe {
                        1int
                    } else {
                        0int
                    })
                }
            }),
    {
        let is_pipe = self.pipe_fd_registered(source_fd);
        if let Err(error) = self.reserve_files(1) {
            return Err(error);
        }
        if is_pipe {
            if let Err(error) = self.reserve_pipe_fds(1) {
                self.release_files(1);
                return Err(error);
            }
        }
        Ok(is_pipe)
    }

    /// Register an already reserved descriptor as a pipe endpoint.
    pub fn register_pipe_fd(&mut self, fd: usize)
        requires
            old(self).wf(),
            old(self).is_pipe_fd(fd) || old(self).pipe_fds@.len() < old(self).open_pipes,
        ensures
            final(self).wf(),
            final(self).open_files == old(self).open_files,
            final(self).open_pipes == old(self).open_pipes,
            forall|x: usize| final(self).is_pipe_fd(x) <==> (old(self).is_pipe_fd(x) || x == fd),
            final(self).pipe_fds@.len() <= old(self).pipe_fds@.len() + 1,
    {
        if !self.pipe_fd_registered(fd) {
            self.pipe_fds.push(fd);
            assert forall|x: usize| self.is_pipe_fd(x) implies (old(self).is_pipe_fd(x) || x
                == fd) by {
                let j = choose|j: int| 0 <= j < self.pipe_fds@.len() && self.pipe_fds@[j] == x;
                if j < old(self).pipe_fds@.len() {
                    assert(old(self).pipe_fds@[j] == x);
                }
            }
            assert forall|x: usize| old(self).is_pipe_fd(x) implies self.is_pipe_fd(x) by {
                let j = choose|j: int|
                    0 <= j < old(self).pipe_fds@.len() && old(self).pipe_fds@[j] == x;
                assert(self.pipe_fds@[j] == x);
            }
            assert(self.pipe_fds@[old(self).pipe_fds@.len() as int] == fd);
        }
    }

    /// Forget that `fd` is a pipe endpoint without releasing any quota.
    pub fn unregister_pipe_fd(&mut self, fd: usize)
        requires
            old(self).wf(),
        ensures
            final(self).wf(),
            final(self).open_files == old(self).open_files,
            final(self).open_pipes == old(self).open_pipes,
            forall|x: usize| final(self).is_pipe_fd(x) <==> (old(self).is_pipe_fd(x) && x != fd),
            final(self).pipe_fds@.len() == old(self).pipe_fds@.len() - (if old(self).is_pipe_fd(
                fd,
            ) {
                1int
            } else {
                0int
            }),
    {
        let mut i: usize = 0;
        while i < self.pipe_fds.len()
            invariant
                self.pipe_fds@ == old(self).pipe_fds@,
                self.open_files == old(self).open_files,
                self.open_pipes == old(self).open_pipes,
                self.pipe_fds@.no_duplicates(),
                self.pipe_fds@.len() <= self.open_pipes,
                i <= self.pipe_fds.len(),
                forall|j: int| 0 <= j < i ==> self.pipe_fds@[j] != fd,
            decreases self.pipe_fds.len() - i,
        {
            if self.pipe_fds[i] == fd {
                let ghost before = self.pipe_fds@;
                self.pipe_fds.remove(i);
                proof {
                    lemma_remove_unique(before, i as int);
                }
                return;
            }
            i = i + 1;
        }
        assert(!old(self).is_pipe_fd(fd));
    }

    /// Release one committed descriptor together with its pipe quota, if it
    /// is a pipe endpoint.
    pub fn release_fd(&mut self, fd: usize)
        requires
            old(self).wf(),
            old(self).open_files >= 1,
        ensures
            final(self).wf(),
            final(self).open_files == old(self).open_files - 1,
            final(self).open_pipes == old(self).open_pipes - (if old(self).is_pipe_fd(fd) {
                1int
            } else {
                0int
            }),
            forall|x: usize| final(self).is_pipe_fd(x) <==> (old(self).is_pipe_fd(x) && x != fd),
    {
        self.release_files(1);
        let ghost mid = self.pipe_fds@;
        if self.pipe_fd_registered(fd) {
            assert(self.pipe_fds@.len() >= 1) by {
                let j = choose|j: int| 0 <= j < self.pipe_fds@.len() && self.pipe_fds@[j] == fd;
            }
            self.unregister_pipe_fd(fd);
            let ghost after_unregister = self.pipe_fds@;
            assert forall|x: usize| after_unregister.contains(x) <==> (mid.contains(x) && x != fd) by {
                assert(self.is_pipe_fd(x) <==> (mid.contains(x) && x != fd));
            }
            self.release_pipe_fds(1);
            assert(self.pipe_fds@ == after_unregister);
            assert(mid == old(self).pipe_fds@);
        } else {
            assert(self.pipe_fds@ == old(self).pipe_fds@);
            assert(!old(self).is_pipe_fd(fd));
        }
    }
}

/// Removing one element of a duplicate-free sequence removes exactly that
/// value and keeps the rest duplicate-free.
proof fn lemma_remove_unique(s: Seq<usize>, i: int)
    requires
        s.no_duplicates(),
        0 <= i < s.len(),
    ensures
        s.remove(i).no_duplicates(),
        forall|x: usize| s.remove(i).contains(x) <==> (s.contains(x) && x != s[i]),
{
    let r = s.remove(i);
    assert forall|a: int, b: int| 0 <= a < r.len() && 0 <= b < r.len() && a != b implies r[a]
        != r[b] by {
        let a2 = if a < i { a } else { a + 1 };
        let b2 = if b < i { b } else { b + 1 };
        assert(r[a] == s[a2]);
        assert(r[b] == s[b2]);
    }
    assert forall|x: usize| r.contains(x) implies (s.contains(x) && x != s[i]) by {
        let a = choose|a: int| 0 <= a < r.len() && r[a] == x;
        let a2 = if a < i { a } else { a + 1 };
        assert(s[a2] == x);
    }
    assert forall|x: usize| (s.contains(x) && x != s[i]) implies r.contains(x) by {
        let a = choose|a: int| 0 <= a < s.len() && s[a] == x;
        assert(a != i);
        let a2 = if a < i { a } else { a - 1 };
        assert(r[a2] == x);
    }
}

/// Quota held by an admitted request until it completes.
#[derive(Debug)]
pub struct QuotaReservation {
    pub files: usize,
    pub pipe_fds: usize,
}

/// What an operation reserves: a new pipe needs two descriptors that are
/// both pipe endpoints; the other operations reserve nothing.
pub open spec fn reserved_files(operation: IpcOperation) -> usize {
    if operation == IpcOperation::PipeCreate { 2 } else { 0 }
}

/// Pipe endpoint slots reserved by an operation.
pub open spec fn reserved_pipe_fds(operation: IpcOperation) -> usize {
    if operation == IpcOperation::PipeCreate { 2 } else { 0 }
}

/// Reserve resources for a request. A pipe needs two descriptors (error
/// `TooManyFiles`, checked first) and two pipe endpoints (error
/// `ResourceExhausted`); a failure leaves the counters untouched.
pub fn reserve(state: &mut QuotaState, request: &IpcRequest) -> (r: IpcResult<QuotaReservation>)
    ensures
        final(state).pipe_fds@ == old(state).pipe_fds@,
        ({
            let files = reserved_files(request.operation);
            let pipes = reserved_pipe_fds(request.operation);
            if request.operation != IpcOperation::PipeCreate {
                &&& r is Ok
                &&& r->Ok_0.files == 0
                &&& r->Ok_0.pipe_fds == 0
                &&& final(state).open_files == old(state).open_files
                &&& final(state).open_pipes == old(state).open_pipes
            } else if old(state).open_files + files > MAX_OPEN_FILES {
                &&& r == Err::<QuotaReservation, IpcError>(IpcError::TooManyFiles)
                &&& final(state).open_files == old(state).open_files
                &&& final(state).open_pipes == old(state).open_pipes
            } else if old(state).open_pipes + pipes > MAX_OPEN_PIPE_FDS {
                &&& r == Err::<QuotaReservation, IpcError>(IpcError::ResourceExhausted)
                &&& final(state).open_files == old(state).open_files
                &&& final(state).open_pipes == old(state).open_pipes
            } else {
                &&& r is Ok
                &&& r->Ok_0.files == files
                &&& r->Ok_0.pipe_fds == pipes
                &&& final(state).open_files == old(state).open_files + files
                &&& final(state).open_pipes == old(state).open_pipes + pipes
            }
        }),
{
    match request.operation {
        IpcOperation::PipeCreate => {
            if let Err(error) = state.reserve_files(2) {
                return Err(error);
            }
            if let Err(error) = state.reserve_pipe_fds(2) {
                state.release_files(2);
                return Err(error);
            }
            Ok(QuotaReservation { files: 2, pipe_fds: 2 })
        },
        _ => Ok(QuotaReservation { files: 0, pipe_fds: 0 }),
    }
}

/// Commit (on success) or roll back (on failure) a reservation.
pub fn finish(state: &mut QuotaState, reservation: QuotaReservation, success: bool)
    requires
        !success ==> old(state).open_files >= reservation.files,
        !success ==> old(state).open_pipes >= reservation.pipe_fds,
    ensures
        final(state).pipe_fds@ == old(state).pipe_fds@,
        success ==> final(state).open_files == old(state).open_files,
        success ==> final(state).open_pipes == old(state).open_pipes,
        !success ==> final(state).open_files == old(state).open_files - reservation.files,
        !success ==> final(state).open_pipes == old(state).open_pipes - reservation.pipe_fds,
{
    if !success {
        state.release_files(reservation.files);
        state.release_pipe_fds(reservation.pipe_fds);
    }
}

} // verus!
