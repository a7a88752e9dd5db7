//! Descriptor syscalls with quota accounting, over an explicit descriptor
//! table and process security state.
use vstd::prelude::*;

use super::ipc_error_to_ret;
use crate::fs::pipe::allocate_pipe_id;
use crate::fs::File;
use crate::mm::page_table::{
    byte_seen, copy_bytes_from_user, page_of, page_refused, spans_cover, string_read,
    string_unread, try_translated_str, MAX_STR_LEN,
    copy_plan, plan_store_le, try_translated_byte_buffer, user_range_denied,
    user_range_out_of_bounds, user_range_refused, PageSpan, PageTableEntry, PhysPageNum, UserBuffer,
    UserWrite,
};
use crate::security::api::{
    IpcError, IpcObject, IpcOperation, IpcRequest, IpcResult, IpcSubject, ResourceId,
};
use crate::security::audit::{
    errno_of, le_bytes, request_event, AuditRing, AUDIT_OP_PIPE_READ, AUDIT_OP_PIPE_WRITE,
};
use crate::security::credentials::Credentials;
use crate::security::quota::{MAX_OPEN_FILES, MAX_OPEN_PIPE_FDS};
use crate::security::{complete, preflight, quota_admission, IpcPermit, ProcessSecurityState};

verus! {

/// Lowest free descriptor; the table grows by one empty slot when full.
pub fn alloc_fd<F>(fd_table: &mut Vec<Option<F>>) -> (r: usize)
    ensures
        r < final(fd_table)@.len(),
        final(fd_table)@[r as int] is None,
        forall|i: int| 0 <= i < r ==> old(fd_table)@[i] is Some,
        r <= old(fd_table)@.len(),
        r < old(fd_table)@.len() ==> final(fd_table)@ == old(fd_table)@,
        r == old(fd_table)@.len() ==> final(fd_table)@ == old(fd_table)@.push(None),
{
    let mut i: usize = 0;
    while i < fd_table.len()
        invariant
            fd_table@ == old(fd_table)@,
            i <= fd_table@.len(),
            forall|j: int| 0 <= j < i ==> fd_table@[j] is Some,
        decreases fd_table@.len() - i,
    {
        if fd_table[i].is_none() {
            return i;
        }
        i = i + 1;
    }
    fd_table.push(None);
    fd_table.len() - 1
}

/// What `open` does with the outcome `opened` of its checks and lookup
/// (see `install_opened`), from the table and security state before to
/// those after, with result `r`.
pub open spec fn opened_outcome<F>(
    old_table: Seq<Option<F>>,
    new_table: Seq<Option<F>>,
    old_security: ProcessSecurityState,
    new_security: ProcessSecurityState,
    opened: IpcResult<Option<F>>,
    r: isize,
) -> bool {
    &&& new_security.credentials == old_security.credentials
    &&& new_security.quota.open_pipes == old_security.quota.open_pipes
    &&& new_security.quota.pipe_fds@ == old_security.quota.pipe_fds@
    &&& match opened {
        Err(e) => r == -errno_of(e) && new_table == old_table
            && new_security.quota.open_files == old_security.quota.open_files,
        Ok(None) => r == -1 && new_table == old_table
            && new_security.quota.open_files == old_security.quota.open_files,
        Ok(Some(file)) => if old_security.quota.open_files + 1 > MAX_OPEN_FILES {
            &&& r == -errno_of(IpcError::TooManyFiles)
            &&& new_table == old_table
            &&& new_security.quota.open_files == old_security.quota.open_files
        } else {
            &&& 0 <= r < new_table.len()
            &&& r as int <= old_table.len()
            &&& new_table[r as int] == Some(file)
            &&& (r < old_table.len() ==> old_table[r as int] is None)
            &&& forall|i: int| 0 <= i < r ==> old_table[i] is Some
            &&& forall|i: int|
                0 <= i < old_table.len() && i != r ==> new_table[i] == old_table[i]
            &&& new_security.quota.open_files == old_security.quota.open_files + 1
        },
    }
}

/// The second half of `open`, once the path and flags were checked and the
/// file looked up: `opened` is the error of the checks, `None` for a
/// missing file, or the file. A found file needs one descriptor slot of
/// quota (else `-EMFILE`) and goes into the lowest free descriptor, which
/// is returned.
pub fn install_opened<F>(
    fd_table: &mut Vec<Option<F>>,
    security: &mut ProcessSecurityState,
    opened: IpcResult<Option<F>>,
) -> (r: isize)
    requires
        old(fd_table)@.len() < isize::MAX,
    ensures
        opened_outcome(old(fd_table)@, final(fd_table)@, *old(security), *final(security), opened, r),
{
    let inode = match opened {
        Err(error) => return ipc_error_to_ret(error),
        Ok(None) => return -1,
        Ok(Some(inode)) => inode,
    };
    if let Err(error) = crate::security::reserve_file_fd(security) {
        return ipc_error_to_ret(error);
    }
    let fd = alloc_fd(fd_table);
    fd_table.set(fd, Some(inode));
    fd as isize
}

/// Open the file named by the NUL-terminated user string at `path` with
/// the open flags `flags`. The path is read first, as `try_translated_str`
/// reads it (at most `MAX_STR_LEN` bytes, readable user pages only): an
/// unreadable path gives `-EFAULT`. Then `parse_flags` turns the flags into
/// open flags, `None` for an invalid combination, which gives `-EINVAL`.
/// Then `open_file` looks up the path read with those flags, and the
/// outcome is installed as `install_opened` says. Nothing changes before
/// the lookup succeeds.
pub fn sys_open<
    F,
    Fl,
    T: Fn(usize) -> Option<PageTableEntry>,
    B: Fn(PhysPageNum, usize) -> u8,
    PF: Fn(u32) -> Option<Fl>,
    OF: Fn(Vec<u8>, Fl) -> Option<F>,
>(
    fd_table: &mut Vec<Option<F>>,
    security: &mut ProcessSecurityState,
    translate: &T,
    read_byte: &B,
    parse_flags: &PF,
    open_file: &OF,
    path: usize,
    flags: u32,
) -> (r: isize)
    requires
        old(fd_table)@.len() < isize::MAX,
        forall|vpn: usize| call_requires(*translate, (vpn,)),
        forall|page: PhysPageNum, offset: usize| call_requires(*read_byte, (page, offset)),
        forall|bits: u32| call_requires(*parse_flags, (bits,)),
        forall|name: Vec<u8>, open_flags: Fl| call_requires(*open_file, (name, open_flags)),
    ensures
        exists|opened: IpcResult<Option<F>>|
            #[trigger] opened_outcome(
                old(fd_table)@,
                final(fd_table)@,
                *old(security),
                *final(security),
                opened,
                r,
            ) && {
                ||| opened == Err::<Option<F>, IpcError>(IpcError::InvalidAddress) && string_unread(
                    *translate,
                    *read_byte,
                    path,
                    MAX_STR_LEN,
                )
                ||| exists|name: Vec<u8>|
                    #[trigger] string_read(*translate, *read_byte, path, MAX_STR_LEN, name@) && {
                        ||| opened == Err::<Option<F>, IpcError>(IpcError::InvalidArgument)
                            && call_ensures(*parse_flags, (flags,), None::<Fl>)
                        ||| exists|open_flags: Fl, found: Option<F>|
                            #[trigger] call_ensures(*parse_flags, (flags,), Some(open_flags))
                                && #[trigger] call_ensures(*open_file, (name, open_flags), found)
                                && opened == Ok::<Option<F>, IpcError>(found)
                    }
            },
{
    let name = match try_translated_str(translate, read_byte, path, MAX_STR_LEN) {
        Some(name) => name,
        None => return install_opened(fd_table, security, Err(IpcError::InvalidAddress)),
    };
    let ghost seen = name;
    let open_flags = match parse_flags(flags) {
        Some(open_flags) => open_flags,
        None => {
            assert(string_read(*translate, *read_byte, path, MAX_STR_LEN, seen@));
            return install_opened(fd_table, security, Err(IpcError::InvalidArgument));
        },
    };
    let ghost spec_flags = open_flags;
    let found = open_file(name, open_flags);
    assert(string_read(*translate, *read_byte, path, MAX_STR_LEN, seen@));
    assert(call_ensures(*open_file, (seen, spec_flags), found));
    install_opened(fd_table, security, Ok(found))
}

/// Close a descriptor: `-1` for a descriptor that is not open; otherwise the
/// slot is emptied, one descriptor slot of quota is released (and one pipe
/// slot for a pipe endpoint), and the result is 0.
pub fn sys_close<F>(
    fd_table: &mut Vec<Option<F>>,
    security: &mut ProcessSecurityState,
    fd: usize,
) -> (r: isize)
    requires
        old(security).quota.wf(),
        fd < old(fd_table)@.len() && old(fd_table)@[fd as int] is Some ==> old(security).quota.open_files >= 1,
    ensures
        final(security).quota.wf(),
        final(security).credentials == old(security).credentials,
        fd >= old(fd_table)@.len() || old(fd_table)@[fd as int] is None ==> {
            &&& r == -1
            &&& final(fd_table)@ == old(fd_table)@
            &&& final(security).quota.open_files == old(security).quota.open_files
            &&& final(security).quota.open_pipes == old(security).quota.open_pipes
            &&& final(security).quota.pipe_fds@ == old(security).quota.pipe_fds@
        },
        fd < old(fd_table)@.len() && old(fd_table)@[fd as int] is Some ==> {
            &&& r == 0
            &&& final(fd_table)@ == old(fd_table)@.update(fd as int, None)
            &&& final(security).quota.open_files == old(security).quota.open_files - 1
            &&& final(security).quota.open_pipes == old(security).quota.open_pipes - (if old(security).quota.is_pipe_fd(fd) {
                1int
            } else {
                0int
            })
            &&& forall|x: usize|
                final(security).quota.is_pipe_fd(x) <==> (old(security).quota.is_pipe_fd(x) && x
                    != fd)
        },
{
    if fd >= fd_table.len() {
        return -1;
    }
    if fd_table[fd].is_none() {
        return -1;
    }
    fd_table.set(fd, None);
    crate::security::release_fd(security, fd);
    0
}

/// Duplicate a descriptor into the lowest free slot: `-1` for a descriptor
/// that is not open; otherwise one descriptor slot (`-EMFILE` when none is
/// left) and, for a pipe endpoint, one pipe slot (`-ENOSPC`) are reserved,
/// the copy is registered as a pipe endpoint when the source is one, and
/// the new descriptor is returned.
pub fn sys_dup<F: Clone>(
    fd_table: &mut Vec<Option<F>>,
    security: &mut ProcessSecurityState,
    fd: usize,
) -> (r: isize)
    requires
        old(security).quota.wf(),
        old(fd_table)@.len() < isize::MAX,
    ensures
        final(security).quota.wf(),
        final(security).credentials == old(security).credentials,
        fd >= old(fd_table)@.len() || old(fd_table)@[fd as int] is None ==> {
            &&& r == -1
            &&& final(fd_table)@ == old(fd_table)@
            &&& final(security).quota.open_files == old(security).quota.open_files
            &&& final(security).quota.open_pipes == old(security).quota.open_pipes
            &&& final(security).quota.pipe_fds@ == old(security).quota.pipe_fds@
        },
        fd < old(fd_table)@.len() && old(fd_table)@[fd as int] is Some ==> ({
            let is_pipe = old(security).quota.is_pipe_fd(fd);
            if old(security).quota.open_files + 1 > MAX_OPEN_FILES || (is_pipe && old(security).quota.open_pipes + 1 > MAX_OPEN_PIPE_FDS) {
                &&& r == (if old(security).quota.open_files + 1 > MAX_OPEN_FILES {
                    -errno_of(IpcError::TooManyFiles)
                } else {
                    -errno_of(IpcError::ResourceExhausted)
                })
                &&& final(fd_table)@ == old(fd_table)@
                &&& final(security).quota.open_files == old(security).quota.open_files
                &&& final(security).quota.open_pipes == old(security).quota.open_pipes
                &&& final(security).quota.pipe_fds@ == old(security).quota.pipe_fds@
            } else {
                &&& 0 <= r < final(fd_table)@.len()
                &&& r as int <= old(fd_table)@.len()
                &&& final(fd_table)@[r as int] matches Some(copy) && cloned::<F>(
                    old(fd_table)@[fd as int]->0,
                    copy,
                )
                &&& (r < old(fd_table)@.len() ==> old(fd_table)@[r as int] is None)
                &&& forall|i: int| 0 <= i < r ==> old(fd_table)@[i] is Some
                &&& forall|i: int|
                    0 <= i < old(fd_table)@.len() && i != r ==> final(fd_table)@[i] == old(fd_table)@[i]
                &&& final(security).quota.open_files == old(security).quota.open_files + 1
                &&& final(security).quota.open_pipes == old(security).quota.open_pipes + (if is_pipe {
                    1int
                } else {
                    0int
                })
                &&& forall|x: usize|
                    final(security).quota.is_pipe_fd(x) <==> (old(security).quota.is_pipe_fd(x) || (
                    is_pipe && x == r))
            }
        }),
{
    if fd >= fd_table.len() {
        return -1;
    }
    let file = match &fd_table[fd] {
        Some(file) => file.clone(),
        None => return -1,
    };
    let source_is_pipe = match crate::security::reserve_dup_fd(security, fd) {
        Ok(is_pipe) => is_pipe,
        Err(error) => return ipc_error_to_ret(error),
    };
    let new_fd = alloc_fd(fd_table);
    fd_table.set(new_fd, Some(file));
    if source_is_pipe {
        crate::security::register_pipe_fd(security, new_fd);
    } else {
        assert forall|x: usize| security.quota.is_pipe_fd(x) <==> (old(security).quota.is_pipe_fd(
            x,
        ) || (source_is_pipe && x == new_fd)) by {}
    }
    new_fd as isize
}

/// The request through which `pipe` creation passes the security facade: a
/// new pipe has no object yet (id 0) and belongs to the caller.
pub open spec fn pipe_request(credentials: Credentials, pid: usize) -> IpcRequest {
    IpcRequest {
        subject: IpcSubject { pid, uid: credentials.uid, capabilities: credentials.capabilities },
        object: IpcObject { id: 0, owner_uid: credentials.uid },
        operation: IpcOperation::PipeCreate,
        amount: 1,
    }
}

/// `rfd` and `wfd` are the descriptors the two ends of a new pipe take in
/// a table that was `table`: `rfd` is its lowest free slot, and `wfd` the
/// lowest one free after `rfd` was filled (the table grows by one empty
/// slot for each end that finds it full).
pub open spec fn pipe_slots<F>(table: Seq<Option<F>>, rfd: usize, wfd: usize) -> bool {
    &&& rfd < wfd
    &&& rfd <= table.len()
    &&& wfd <= table.len() + 1
    &&& forall|i: int| 0 <= i < wfd && i != rfd ==> i < table.len() && table[i] is Some
    &&& (rfd < table.len() ==> table[rfd as int] is None)
    &&& (wfd < table.len() ==> table[wfd as int] is None)
}

/// Put the two ends of a new pipe into the lowest free descriptors, the
/// read end first.
fn place_pipe_ends<F>(fd_table: &mut Vec<Option<F>>, read_end: F, write_end: F) -> (r: (
    usize,
    usize,
))
    ensures
        pipe_slots(old(fd_table)@, r.0, r.1),
        final(fd_table)@.len() == vstd::math::max(old(fd_table)@.len() as int, r.1 + 1),
        final(fd_table)@[r.0 as int] == Some(read_end),
        final(fd_table)@[r.1 as int] == Some(write_end),
        forall|i: int|
            0 <= i < final(fd_table)@.len() && i != r.0 && i != r.1 ==> (if i < old(
                fd_table,
            )@.len() {
                final(fd_table)@[i] == old(fd_table)@[i]
            } else {
                final(fd_table)@[i] is None
            }),
{
    let ghost table0 = fd_table@;
    let read_fd = alloc_fd(fd_table);
    fd_table.set(read_fd, Some(read_end));
    let ghost table1 = fd_table@;
    let write_fd = alloc_fd(fd_table);
    fd_table.set(write_fd, Some(write_end));
    assert(read_fd != write_fd);
    assert forall|i: int| 0 <= i < write_fd && i != read_fd implies i < table0.len()
        && table0[i] is Some by {
        assert(table1[i] is Some);
    }
    (read_fd, write_fd)
}

/// The object a new pipe with id `id` created by `credentials` carries.
pub open spec fn new_pipe_object(credentials: Credentials, id: ResourceId) -> IpcObject {
    IpcObject { id, owner_uid: credentials.uid }
}

/// The eight little-endian bytes by which `pipe` stores a descriptor.
pub open spec fn fd_bytes(fd: usize) -> Seq<u8> {
    le_bytes(fd as nat, 8)
}

/// Create a pipe and store its read and write descriptors at `pipe`.
///
/// Quota for two descriptors and two pipe endpoints is reserved first; a
/// refusal (`-EMFILE` before `-ENOSPC`) is recorded and changes nothing
/// else. Then the pipe gets the next stable id (`-ENOSPC` when ids are
/// exhausted), `new_pipe` builds its read and write ends for the object with
/// that id owned by the caller, and the ends go into the lowest free
/// descriptors. The read descriptor is then to be stored at `pipe` and the
/// write descriptor at `pipe + 8`, each eight bytes of writable user memory
/// as `translate` maps it; the second part of the result says where those
/// bytes go. Only after both are planned do the descriptors become
/// registered pipe endpoints and the result is 0. If either range cannot be
/// written, the result is `-EFAULT`: both slots are emptied again, the
/// reservation is returned, and only the read descriptor is stored when its
/// own range was writable. Either outcome is recorded. Nothing is stored in
/// user memory on any other path.
#[verifier::spinoff_prover]
#[verifier::rlimit(30)]
pub fn sys_pipe<
    F,
    NP: Fn(IpcObject) -> (F, F),
    T: Fn(usize) -> Option<PageTableEntry>,
>(
    fd_table: &mut Vec<Option<F>>,
    security: &mut ProcessSecurityState,
    audit: &mut AuditRing,
    next_pipe_id: &mut ResourceId,
    new_pipe: &NP,
    translate: &T,
    pid: usize,
    pipe: usize,
    timestamp_ms: u64,
) -> (r: (isize, Vec<UserWrite>))
    requires
        old(security).quota.wf(),
        old(audit).wf(),
        forall|object: IpcObject| call_requires(*new_pipe, (object,)),
        forall|vpn: usize| call_requires(*translate, (vpn,)),
    ensures
        final(security).quota.wf(),
        final(audit).wf(),
        final(security).credentials == old(security).credentials,
        ({
            let request = pipe_request(old(security).credentials, pid);
            match quota_admission(old(security).quota, IpcOperation::PipeCreate) {
                Err(e) => {
                    &&& r.0 == -errno_of(e)
                    &&& r.1@.len() == 0
                    &&& final(fd_table)@ == old(fd_table)@
                    &&& final(security).quota.open_files == old(security).quota.open_files
                    &&& final(security).quota.open_pipes == old(security).quota.open_pipes
                    &&& final(security).quota.pipe_fds@ == old(security).quota.pipe_fds@
                    &&& *final(next_pipe_id) == *old(next_pipe_id)
                    &&& final(audit).appended(
                        *old(audit),
                        request_event(request, Err(e), timestamp_ms),
                    )
                },
                Ok(()) => if *old(next_pipe_id) == u64::MAX {
                    &&& r.0 == -errno_of(IpcError::ResourceExhausted)
                    &&& r.1@.len() == 0
                    &&& final(fd_table)@ == old(fd_table)@
                    &&& final(security).quota.open_files == old(security).quota.open_files
                    &&& final(security).quota.open_pipes == old(security).quota.open_pipes
                    &&& final(security).quota.pipe_fds@ == old(security).quota.pipe_fds@
                    &&& *final(next_pipe_id) == *old(next_pipe_id)
                    &&& final(audit).appended(
                        *old(audit),
                        request_event(request, Err(IpcError::ResourceExhausted), timestamp_ms),
                    )
                } else {
                    &&& *final(next_pipe_id) == *old(next_pipe_id) + 1
                    &&& (user_range_denied(*translate, pipe, 8, true) || user_range_denied(
                        *translate,
                        pipe.wrapping_add(8),
                        8,
                        true,
                    )) ==> r.0 == -errno_of(IpcError::InvalidAddress)
                    &&& r.0 == 0 || r.0 == -errno_of(IpcError::InvalidAddress)
                    &&& exists|rfd: usize, wfd: usize, ends: (F, F)|
                        {
                            &&& #[trigger] call_ensures(
                                *new_pipe,
                                (new_pipe_object(old(security).credentials, *old(next_pipe_id)),),
                                ends,
                            )
                            &&& #[trigger] pipe_slots(old(fd_table)@, rfd, wfd)
                            &&& r.0 == 0 ==> {
                                &&& final(fd_table)@.len() == vstd::math::max(
                                    old(fd_table)@.len() as int,
                                    wfd + 1,
                                )
                                &&& final(fd_table)@[rfd as int] == Some(ends.0)
                                &&& final(fd_table)@[wfd as int] == Some(ends.1)
                                &&& forall|i: int|
                                    0 <= i < final(fd_table)@.len() && i != rfd && i != wfd ==> (
                                    if i < old(fd_table)@.len() {
                                        final(fd_table)@[i] == old(fd_table)@[i]
                                    } else {
                                        final(fd_table)@[i] is None
                                    })
                                &&& final(security).quota.open_files == old(security).quota.open_files + 2
                                &&& final(security).quota.open_pipes == old(security).quota.open_pipes + 2
                                &&& forall|x: usize|
                                    #[trigger] final(security).quota.is_pipe_fd(x) <==> (old(security).quota.is_pipe_fd(x) || x == rfd || x == wfd)
                                &&& final(audit).appended(
                                    *old(audit),
                                    request_event(request, Ok(0), timestamp_ms),
                                )
                                &&& exists|first: Seq<UserWrite>, second: Seq<UserWrite>|
                                    {
                                        &&& r.1@ == first + second
                                        &&& #[trigger] copy_plan(*translate, first, pipe, fd_bytes(rfd))
                                        &&& #[trigger] copy_plan(
                                            *translate,
                                            second,
                                            pipe.wrapping_add(8),
                                            fd_bytes(wfd),
                                        )
                                    }
                            }
                            &&& r.0 != 0 ==> {
                                &&& final(fd_table)@.len() >= old(fd_table)@.len()
                                &&& forall|i: int|
                                    0 <= i < final(fd_table)@.len() ==> (if i < old(fd_table)@.len() {
                                        final(fd_table)@[i] == old(fd_table)@[i]
                                    } else {
                                        final(fd_table)@[i] is None
                                    })
                                &&& final(security).quota.open_files == old(security).quota.open_files
                                &&& final(security).quota.open_pipes == old(security).quota.open_pipes
                                &&& final(security).quota.pipe_fds@ == old(security).quota.pipe_fds@
                                &&& final(audit).appended(
                                    *old(audit),
                                    request_event(request, Err(IpcError::InvalidAddress), timestamp_ms),
                                )
                                &&& {
                                    ||| r.1@.len() == 0 && user_range_refused(*translate, pipe, 8, true)
                                    ||| copy_plan(*translate, r.1@, pipe, fd_bytes(rfd))
                                        && user_range_refused(
                                        *translate,
                                        pipe.wrapping_add(8),
                                        8,
                                        true,
                                    )
                                }
                            }
                        }
                },
            }
        }),
{
    let credentials = security.credentials;
    let request = IpcRequest {
        subject: IpcSubject { pid, uid: credentials.uid, capabilities: credentials.capabilities },
        object: IpcObject { id: 0, owner_uid: credentials.uid },
        operation: IpcOperation::PipeCreate,
        amount: 1,
    };
    let permit = match preflight(security, audit, request, timestamp_ms) {
        Ok(permit) => permit,
        Err(error) => return (ipc_error_to_ret(error), Vec::new()),
    };
    let id = match allocate_pipe_id(next_pipe_id) {
        Ok(id) => id,
        Err(error) => {
            let r = match complete(security, audit, permit, Err(error), timestamp_ms) {
                Ok(value) => value as isize,
                Err(error) => ipc_error_to_ret(error),
            };
            return (r, Vec::new());
        },
    };
    let object = IpcObject { id, owner_uid: credentials.uid };
    let ends = new_pipe(object);
    let ghost spec_ends = ends;
    let (read_end, write_end) = ends;
    let ghost table0 = fd_table@;
    let (read_fd, write_fd) = place_pipe_ends(fd_table, read_end, write_end);
    assert(call_ensures(
        *new_pipe,
        (new_pipe_object(old(security).credentials, *old(next_pipe_id)),),
        spec_ends,
    ));
    let copied = match plan_store_le(translate, pipe, read_fd as u64, 8) {
        Ok(first) => match plan_store_le(translate, pipe.wrapping_add(8), write_fd as u64, 8) {
            Ok(second) => Ok((first, second)),
            Err(_) => Err(first),
        },
        Err(_) => Err(Vec::new()),
    };
    match copied {
        Ok((first, second)) => {
            let ghost p0 = security.quota.pipe_fds@;
            crate::security::register_pipe_fd(security, read_fd);
            let ghost p1 = security.quota.pipe_fds@;
            assert forall|x: usize| p1.contains(x) <==> (p0.contains(x) || x == read_fd) by {
                assert(security.quota.is_pipe_fd(x) <==> (p0.contains(x) || x == read_fd));
            }
            crate::security::register_pipe_fd(security, write_fd);
            let ghost p2 = security.quota.pipe_fds@;
            assert forall|x: usize| p2.contains(x) <==> (p1.contains(x) || x == write_fd) by {
                assert(security.quota.is_pipe_fd(x) <==> (p1.contains(x) || x == write_fd));
            }
            let result = match complete(security, audit, permit, Ok(0), timestamp_ms) {
                Ok(value) => value as isize,
                Err(error) => ipc_error_to_ret(error),
            };
            assert forall|i: int|
                0 <= i < fd_table@.len() && i != read_fd && i != write_fd implies (if i
                < table0.len() {
                fd_table@[i] == table0[i]
            } else {
                fd_table@[i] is None
            }) by {}
            assert forall|x: usize| #[trigger] security.quota.is_pipe_fd(x) <==> (old(security).quota.is_pipe_fd(x) || x == read_fd || x == write_fd) by {}
            let ghost s1 = first@;
            let ghost s2 = second@;
            let mut writes = first;
            let mut rest = second;
            writes.append(&mut rest);
            assert(copy_plan(*translate, s1, pipe, fd_bytes(read_fd)));
            assert(copy_plan(*translate, s2, pipe.wrapping_add(8), fd_bytes(write_fd)));
            assert(writes@ == s1 + s2);
            (result, writes)
        },
        Err(stored) => {
            fd_table.set(read_fd, None);
            fd_table.set(write_fd, None);
            let result = match complete(security, audit, permit, Err(IpcError::InvalidAddress), timestamp_ms) {
                Ok(value) => value as isize,
                Err(error) => ipc_error_to_ret(error),
            };
            assert forall|i: int| 0 <= i < fd_table@.len() implies (if i < table0.len() {
                fd_table@[i] == table0[i]
            } else {
                fd_table@[i] is None
            }) by {}
            (result, stored)
        },
    }
}

/// The request of a data transfer on an IPC file.
pub open spec fn transfer_request(
    credentials: Credentials,
    pid: usize,
    object: IpcObject,
    operation: IpcOperation,
    len: usize,
) -> IpcRequest {
    IpcRequest {
        subject: IpcSubject { pid, uid: credentials.uid, capabilities: credentials.capabilities },
        object,
        operation,
        amount: len,
    }
}

/// A transfer is recorded in its own direction: whatever the caller, file
/// object, length and outcome, the event of a write request carries the
/// pipe-write operation number and that of a read request the pipe-read
/// number, and a request keeps the operation it was built with.
pub proof fn lemma_transfer_keeps_direction(
    credentials: Credentials,
    pid: usize,
    object: IpcObject,
    operation: IpcOperation,
    len: usize,
    outcome: IpcResult<usize>,
    timestamp_ms: u64,
)
    ensures
        transfer_request(credentials, pid, object, operation, len).operation == operation,
        request_event(
            transfer_request(credentials, pid, object, IpcOperation::PipeWrite, len),
            outcome,
            timestamp_ms,
        ).operation == AUDIT_OP_PIPE_WRITE,
        request_event(
            transfer_request(credentials, pid, object, IpcOperation::PipeRead, len),
            outcome,
            timestamp_ms,
        ).operation == AUDIT_OP_PIPE_READ,
{
}

/// The user buffer `[buf, buf + len)` was refused for the access: its
/// bounds are unusable, or a page it touches was seen to refuse the access
/// (a kernel write for `read`, a kernel read for `write`).
pub open spec fn buffer_refused<T: Fn(usize) -> Option<PageTableEntry>>(
    translate: T,
    buf: usize,
    len: usize,
    kernel_writes: bool,
) -> bool {
    ||| user_range_out_of_bounds(buf, len)
    ||| exists|k: int|
        0 <= k < len && #[trigger] page_refused(translate, page_of(buf + k), kernel_writes)
}

/// The result a transfer of `moved` bytes returns.
pub open spec fn byte_count(moved: usize) -> isize {
    moved as isize
}

/// The file reported `moved` bytes read into the user buffer
/// `[buf, buf + len)`: an empty request reads nothing without asking the
/// file; otherwise `read_file` was handed the file and the spans that cut
/// the buffer into its writable pages, in order, and answered `moved`.
pub open spec fn read_transferred<F, T: Fn(usize) -> Option<PageTableEntry>, RF: Fn(&F, UserBuffer) -> usize>(
    read_file: RF,
    translate: T,
    file: F,
    buf: usize,
    len: usize,
    moved: usize,
) -> bool {
    if len == 0 {
        moved == 0
    } else {
        exists|spans: Vec<PageSpan>|
            spans_cover(translate, spans@, buf as int, len as int, true) && #[trigger] call_ensures(
                read_file,
                (&file, UserBuffer { buffers: spans }),
                moved,
            )
    }
}

/// The file reported `moved` bytes written from the user buffer
/// `[buf, buf + len)`: an empty request writes nothing without asking the
/// file; otherwise `write_file` was handed the file and the `len` bytes
/// read from the buffer, in order, and answered `moved`.
pub open spec fn write_transferred<
    F,
    T: Fn(usize) -> Option<PageTableEntry>,
    B: Fn(PhysPageNum, usize) -> u8,
    WF: Fn(&F, Vec<u8>) -> usize,
>(write_file: WF, translate: T, read_byte: B, file: F, buf: usize, len: usize, moved: usize) -> bool {
    if len == 0 {
        moved == 0
    } else {
        exists|data: Vec<u8>|
            #[trigger] call_ensures(write_file, (&file, data), moved) && data@.len() == len && forall|
                i: int,
            | 0 <= i < len ==> #[trigger] byte_seen(translate, read_byte, buf + i, data@[i])
    }
}

/// Some number of bytes moved as `transferred` allows, the result is that
/// count, and the transfer was recorded with it.
pub open spec fn moved_and_recorded(
    old_audit: AuditRing,
    new_audit: AuditRing,
    request: IpcRequest,
    transferred: spec_fn(usize) -> bool,
    timestamp_ms: u64,
    r: isize,
) -> bool {
    exists|moved: usize|
        r == #[trigger] byte_count(moved) && transferred(moved) && new_audit.appended(
            old_audit,
            request_event(request, Ok(moved), timestamp_ms),
        )
}

/// What `read` and `write` guarantee. A descriptor that is not open, or not
/// open in the needed direction, gives `-1` and changes nothing. A user
/// buffer that cannot be accessed (bad bounds, or a page that refuses the
/// access) gives `-EFAULT`, with no transfer and, for an IPC file, a
/// recorded failure; `-EFAULT` comes from nothing else. Otherwise the data
/// moves as `transferred` says: the result is the byte count, 0 for an
/// empty transfer, and for an IPC file the transfer with its byte count is
/// recorded. Quota and credentials never change.
pub open spec fn transfer_outcome<F: File, T: Fn(usize) -> Option<PageTableEntry>>(
    fd_table: Vec<Option<F>>,
    old_security: ProcessSecurityState,
    new_security: ProcessSecurityState,
    old_audit: AuditRing,
    new_audit: AuditRing,
    translate: T,
    pid: usize,
    fd: usize,
    buf: usize,
    len: usize,
    is_write: bool,
    transferred: spec_fn(usize) -> bool,
    timestamp_ms: u64,
    r: isize,
) -> bool {
    &&& new_audit.wf()
    &&& new_security.credentials == old_security.credentials
    &&& new_security.quota.open_files == old_security.quota.open_files
    &&& new_security.quota.open_pipes == old_security.quota.open_pipes
    &&& new_security.quota.pipe_fds@ == old_security.quota.pipe_fds@
    &&& if fd >= fd_table@.len() || fd_table@[fd as int] is None {
        r == -1 && new_audit.same_as(old_audit)
    } else {
        let file = fd_table@[fd as int]->0;
        let operation = if is_write {
            IpcOperation::PipeWrite
        } else {
            IpcOperation::PipeRead
        };
        if !(if is_write {
            file.spec_writable()
        } else {
            file.spec_readable()
        }) {
            r == -1 && new_audit.same_as(old_audit)
        } else {
            let refused = buffer_refused(translate, buf, len, !is_write);
            let denied = user_range_denied(translate, buf, len, !is_write);
            match file.spec_ipc_object() {
                None => {
                    &&& new_audit.same_as(old_audit)
                    &&& (denied ==> r == -errno_of(IpcError::InvalidAddress))
                    &&& {
                        ||| r == -errno_of(IpcError::InvalidAddress) && refused
                        ||| exists|moved: usize| r == #[trigger] byte_count(moved) && transferred(moved)
                    }
                },
                Some(object) => {
                    let request = transfer_request(
                        old_security.credentials,
                        pid,
                        object,
                        operation,
                        len,
                    );
                    &&& (denied ==> r == -errno_of(IpcError::InvalidAddress) && new_audit.appended(
                        old_audit,
                        request_event(request, Err(IpcError::InvalidAddress), timestamp_ms),
                    ))
                    &&& {
                        ||| r == -errno_of(IpcError::InvalidAddress) && refused
                            && new_audit.appended(
                            old_audit,
                            request_event(request, Err(IpcError::InvalidAddress), timestamp_ms),
                        )
                        ||| moved_and_recorded(
                            old_audit,
                            new_audit,
                            request,
                            transferred,
                            timestamp_ms,
                            r,
                        )
                    }
                },
            }
        }
    }
}

/// A transfer on a pipe end is logged in its own direction: after a `write`
/// (or `read`) on a descriptor that carries an IPC object, whether it moved
/// data or was refused for a bad buffer, the newest event in the log
/// carries the pipe-write (or pipe-read) operation number.
pub proof fn lemma_transfer_logged_direction<F: File, T: Fn(usize) -> Option<PageTableEntry>>(
    fd_table: Vec<Option<F>>,
    old_security: ProcessSecurityState,
    new_security: ProcessSecurityState,
    old_audit: AuditRing,
    new_audit: AuditRing,
    translate: T,
    pid: usize,
    fd: usize,
    buf: usize,
    len: usize,
    is_write: bool,
    transferred: spec_fn(usize) -> bool,
    timestamp_ms: u64,
    r: isize,
)
    requires
        transfer_outcome(
            fd_table,
            old_security,
            new_security,
            old_audit,
            new_audit,
            translate,
            pid,
            fd,
            buf,
            len,
            is_write,
            transferred,
            timestamp_ms,
            r,
        ),
        old_audit.next_seq() < u64::MAX,
        fd < fd_table@.len(),
        fd_table@[fd as int] matches Some(file) && file.spec_ipc_object() is Some,
        r != -1,
    ensures
        new_audit@.len() > 0,
        new_audit@.last().operation == (if is_write {
            AUDIT_OP_PIPE_WRITE
        } else {
            AUDIT_OP_PIPE_READ
        }),
{
}

/// The file at `fd` if it is open in the needed direction, with the
/// request of the transfer when it is an IPC file.
fn transfer_target<'a, F: File>(
    fd_table: &'a Vec<Option<F>>,
    credentials: Credentials,
    pid: usize,
    fd: usize,
    len: usize,
    is_write: bool,
) -> (r: Option<(&'a F, Option<IpcRequest>)>)
    ensures
        r is None <==> (fd >= fd_table@.len() || fd_table@[fd as int] is None || !(if is_write {
            fd_table@[fd as int]->0.spec_writable()
        } else {
            fd_table@[fd as int]->0.spec_readable()
        })),
        r matches Some(t) ==> {
            &&& *t.0 == fd_table@[fd as int]->0
            &&& t.1 == match t.0.spec_ipc_object() {
                Some(object) => Some(
                    transfer_request(
                        credentials,
                        pid,
                        object,
                        if is_write {
                            IpcOperation::PipeWrite
                        } else {
                            IpcOperation::PipeRead
                        },
                        len,
                    ),
                ),
                None => None,
            }
        },
{
    if fd >= fd_table.len() {
        return None;
    }
    let file = match &fd_table[fd] {
        Some(file) => file,
        None => return None,
    };
    let allowed = if is_write {
        file.writable()
    } else {
        file.readable()
    };
    if !allowed {
        return None;
    }
    let operation = if is_write {
        IpcOperation::PipeWrite
    } else {
        IpcOperation::PipeRead
    };
    let request = match file.ipc_object() {
        Some(object) => Some(
            IpcRequest {
                subject: IpcSubject {
                    pid,
                    uid: credentials.uid,
                    capabilities: credentials.capabilities,
                },
                object,
                operation,
                amount: len,
            },
        ),
        None => None,
    };
    Some((file, request))
}

/// Record a refused user buffer for an IPC transfer and return `-EFAULT`.
fn refuse_buffer(audit: &mut AuditRing, request: &Option<IpcRequest>, timestamp_ms: u64) -> (r:
    isize)
    requires
        old(audit).wf(),
    ensures
        r == -errno_of(IpcError::InvalidAddress),
        final(audit).wf(),
        request is None ==> final(audit).same_as(*old(audit)),
        request matches Some(req) ==> final(audit).appended(
            *old(audit),
            request_event(*req, Err(IpcError::InvalidAddress), timestamp_ms),
        ),
{
    if let Some(request) = request {
        crate::security::record_failure(audit, request, IpcError::InvalidAddress, timestamp_ms);
    }
    ipc_error_to_ret(IpcError::InvalidAddress)
}

/// Read up to `len` bytes from descriptor `fd` into the user buffer at
/// `buf` (see `transfer_outcome`); the buffer must be user memory the
/// kernel may write, page by page as `translate` gives the pages, and
/// `read_file(file, buffer)` fills the checked pieces and reports how many
/// bytes it read.
#[verifier::spinoff_prover]
pub fn sys_read<
    F: File,
    T: Fn(usize) -> Option<PageTableEntry>,
    RF: Fn(&F, UserBuffer) -> usize,
>(
    fd_table: &Vec<Option<F>>,
    security: &mut ProcessSecurityState,
    audit: &mut AuditRing,
    read_file: &RF,
    translate: &T,
    pid: usize,
    fd: usize,
    buf: usize,
    len: usize,
    timestamp_ms: u64,
) -> (r: isize)
    requires
        old(audit).wf(),
        forall|vpn: usize| call_requires(*translate, (vpn,)),
        forall|file: &F, buffer: UserBuffer| call_requires(*read_file, (file, buffer)),
    ensures
        transfer_outcome(
            *fd_table,
            *old(security),
            *final(security),
            *old(audit),
            *final(audit),
            *translate,
            pid,
            fd,
            buf,
            len,
            false,
            |moved: usize|
                read_transferred(*read_file, *translate, fd_table@[fd as int]->0, buf, len, moved),
            timestamp_ms,
            r,
        ),
{
    let (file, request) = match transfer_target(fd_table, security.credentials, pid, fd, len, false) {
        Some(target) => target,
        None => return -1,
    };
    let spans = match try_translated_byte_buffer(translate, buf, len, true) {
        Some(spans) => spans,
        None => return refuse_buffer(audit, &request, timestamp_ms),
    };
    let ghost transferred = |moved: usize|
        read_transferred(*read_file, *translate, fd_table@[fd as int]->0, buf, len, moved);
    let ghost before = *old(audit);
    let permit = begin_transfer(security, audit, request, timestamp_ms);
    let moved = if len == 0 {
        0
    } else {
        let ghost covered = spans@;
        let buffer = UserBuffer { buffers: spans };
        let moved = read_file(file, buffer);
        proof {
            assert(spans_cover(*translate, buffer.buffers@, buf as int, len as int, true));
            assert(call_ensures(*read_file, (file, buffer), moved));
        }
        moved
    };
    assert(transferred(moved));
    let ghost admitted = *audit;
    let r = finish_transfer(security, audit, permit, moved, timestamp_ms, Ghost(transferred));
    proof {
        lemma_transfer_recorded(before, admitted, *audit, request, permit, transferred, timestamp_ms, r);
    }
    r
}

/// Admission records nothing, so the record of a finished transfer is
/// appended to the log as it was before the transfer began.
proof fn lemma_transfer_recorded(
    before: AuditRing,
    admitted: AuditRing,
    after: AuditRing,
    request: Option<IpcRequest>,
    permit: Option<IpcPermit>,
    transferred: spec_fn(usize) -> bool,
    timestamp_ms: u64,
    r: isize,
)
    requires
        admitted.same_as(before),
        request is None <==> permit is None,
        permit matches Some(p) ==> p.request() == request->0,
        permit is None ==> after.same_as(admitted),
        permit matches Some(p) ==> moved_and_recorded(
            admitted,
            after,
            p.request(),
            transferred,
            timestamp_ms,
            r,
        ),
    ensures
        request is None ==> after.same_as(before),
        request matches Some(req) ==> moved_and_recorded(before, after, req, transferred, timestamp_ms, r),
{
}

/// Pass a transfer on an IPC file through the security facade before any
/// data moves: a pipe read or write is always admitted and reserves
/// nothing, so the permit comes back and nothing is recorded yet. An
/// ordinary file needs no permit.
fn begin_transfer(
    security: &mut ProcessSecurityState,
    audit: &mut AuditRing,
    request: Option<IpcRequest>,
    timestamp_ms: u64,
) -> (r: Option<IpcPermit>)
    requires
        old(audit).wf(),
        request matches Some(req) ==> req.operation == IpcOperation::PipeRead || req.operation
            == IpcOperation::PipeWrite,
    ensures
        final(audit).wf(),
        final(audit).same_as(*old(audit)),
        final(security).credentials == old(security).credentials,
        final(security).quota.open_files == old(security).quota.open_files,
        final(security).quota.open_pipes == old(security).quota.open_pipes,
        final(security).quota.pipe_fds@ == old(security).quota.pipe_fds@,
        request is None <==> r is None,
        r matches Some(permit) ==> permit.request() == request->0 && permit.reserved_files() == 0
            && permit.reserved_pipe_fds() == 0,
{
    match request {
        None => None,
        Some(request) => match preflight(security, audit, request, timestamp_ms) {
            Ok(permit) => Some(permit),
            Err(_) => {
                assert(false);
                None
            },
        },
    }
}

/// Return the byte count of a transfer that moved `moved` bytes, closing
/// the permit of an IPC file, which records the transfer.
fn finish_transfer(
    security: &mut ProcessSecurityState,
    audit: &mut AuditRing,
    permit: Option<IpcPermit>,
    moved: usize,
    timestamp_ms: u64,
    transferred: Ghost<spec_fn(usize) -> bool>,
) -> (r: isize)
    requires
        old(audit).wf(),
        transferred@(moved),
        permit matches Some(p) ==> p.reserved_files() == 0 && p.reserved_pipe_fds() == 0 && (
        p.request().operation == IpcOperation::PipeRead || p.request().operation
            == IpcOperation::PipeWrite),
    ensures
        final(audit).wf(),
        final(security).credentials == old(security).credentials,
        final(security).quota.open_files == old(security).quota.open_files,
        final(security).quota.open_pipes == old(security).quota.open_pipes,
        final(security).quota.pipe_fds@ == old(security).quota.pipe_fds@,
        permit is None ==> r == byte_count(moved) && final(audit).same_as(*old(audit)),
        permit matches Some(p) ==> moved_and_recorded(
            *old(audit),
            *final(audit),
            p.request(),
            transferred@,
            timestamp_ms,
            r,
        ),
{
    let permit = match permit {
        Some(permit) => permit,
        None => {
            assert(moved as isize == byte_count(moved));
            return moved as isize;
        },
    };
    let ghost before = *old(audit);
    let ghost request = permit.request();
    let result = match complete(security, audit, permit, Ok(moved), timestamp_ms) {
        Ok(value) => value as isize,
        Err(error) => ipc_error_to_ret(error),
    };
    proof {
        assert(audit.appended(before, request_event(request, Ok(moved), timestamp_ms)));
        assert(result == byte_count(moved));
    }
    result
}

/// Write `len` bytes from the user buffer at `buf` to descriptor `fd` (see
/// `transfer_outcome`); the buffer must be user memory the kernel may read,
/// and is copied in through `read_byte` before `write_file(file, data)`
/// sees it and reports how many bytes it wrote.
#[verifier::spinoff_prover]
pub fn sys_write<
    F: File,
    T: Fn(usize) -> Option<PageTableEntry>,
    B: Fn(PhysPageNum, usize) -> u8,
    WF: Fn(&F, Vec<u8>) -> usize,
>(
    fd_table: &Vec<Option<F>>,
    security: &mut ProcessSecurityState,
    audit: &mut AuditRing,
    write_file: &WF,
    translate: &T,
    read_byte: &B,
    pid: usize,
    fd: usize,
    buf: usize,
    len: usize,
    timestamp_ms: u64,
) -> (r: isize)
    requires
        old(audit).wf(),
        forall|vpn: usize| call_requires(*translate, (vpn,)),
        forall|page: PhysPageNum, offset: usize| call_requires(*read_byte, (page, offset)),
        forall|file: &F, data: Vec<u8>| call_requires(*write_file, (file, data)),
    ensures
        transfer_outcome(
            *fd_table,
            *old(security),
            *final(security),
            *old(audit),
            *final(audit),
            *translate,
            pid,
            fd,
            buf,
            len,
            true,
            |moved: usize|
                write_transferred(
                    *write_file,
                    *translate,
                    *read_byte,
                    fd_table@[fd as int]->0,
                    buf,
                    len,
                    moved,
                ),
            timestamp_ms,
            r,
        ),
{
    let (file, request) = match transfer_target(fd_table, security.credentials, pid, fd, len, true) {
        Some(target) => target,
        None => return -1,
    };
    let data = match copy_bytes_from_user(translate, read_byte, buf, len) {
        Ok(data) => data,
        Err(_) => return refuse_buffer(audit, &request, timestamp_ms),
    };
    let ghost transferred = |moved: usize|
        write_transferred(
            *write_file,
            *translate,
            *read_byte,
            fd_table@[fd as int]->0,
            buf,
            len,
            moved,
        );
    let ghost before = *old(audit);
    let permit = begin_transfer(security, audit, request, timestamp_ms);
    let moved = if len == 0 {
        0
    } else {
        let ghost seen = data@;
        let moved = write_file(file, data);
        proof {
            assert(forall|i: int|
                0 <= i < len ==> #[trigger] byte_seen(*translate, *read_byte, buf + i, seen[i]));
        }
        moved
    };
    assert(transferred(moved));
    let ghost admitted = *audit;
    let r = finish_transfer(security, audit, permit, moved, timestamp_ms, Ghost(transferred));
    proof {
        lemma_transfer_recorded(before, admitted, *audit, request, permit, transferred, timestamp_ms, r);
    }
    r
}

} // verus!
