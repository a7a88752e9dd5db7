//! Credential and signal syscalls over explicit process state.
use vstd::prelude::*;

use super::ipc_error_to_ret;
use crate::mm::page_table::{
    byte_seen, copy_bytes_from_user, copy_from_user, copy_plan, page_of, page_refused,
    plan_copy_to_user, string_read, string_unread, try_translated_str,
    plan_store_le, user_range_denied, user_range_out_of_bounds, user_range_refused,
    PageTableEntry, PhysPageNum, UserWrite, MAX_ARGV, MAX_STR_LEN,
};
use crate::security::api::{
    CapabilitySet, IpcError, IpcObject, IpcOperation, IpcRequest, IpcSubject, Uid,
};
use crate::security::audit::{
    byte_bound, errno_of, le_bytes, le_value, lemma_le_roundtrip, request_event, AuditRing,
};
use crate::security::credentials::Credentials;
use crate::security::{admission, complete, preflight, ProcessSecurityState};

verus! {

/// Largest signal number.
pub const MAX_SIG: usize = 31;

/// The request a signal from `caller` to process `pid`, owned by `target_uid`,
/// passes through the security facade.
pub open spec fn signal_request(
    credentials: Credentials,
    caller_pid: usize,
    pid: usize,
    target_uid: Uid,
) -> IpcRequest {
    IpcRequest {
        subject: IpcSubject {
            pid: caller_pid,
            uid: credentials.uid,
            capabilities: credentials.capabilities,
        },
        object: IpcObject { id: pid as u64, owner_uid: target_uid },
        operation: IpcOperation::SignalSend,
        amount: 1,
    }
}

/// Send signal `signum` to process `pid`.
///
/// `target_uid` is the owner of the target (`None` when no such process
/// exists) and `target_pending` its pending-signal bits. An invalid signal
/// number gives `-EINVAL` and a missing target `-ESRCH`, both before any
/// audit. A refused request gives `-EPERM` and is recorded. A signal already
/// pending gives `-EAGAIN`; otherwise the bit is set and the result is 0.
/// Both outcomes are recorded.
pub fn sys_kill(
    caller: &mut ProcessSecurityState,
    caller_pid: usize,
    audit: &mut AuditRing,
    target_uid: Option<Uid>,
    target_pending: &mut u32,
    pid: usize,
    signum: i32,
    timestamp_ms: u64,
) -> (r: isize)
    requires
        old(audit).wf(),
    ensures
        final(audit).wf(),
        final(caller).credentials == old(caller).credentials,
        final(caller).quota.open_files == old(caller).quota.open_files,
        final(caller).quota.open_pipes == old(caller).quota.open_pipes,
        final(caller).quota.pipe_fds@ == old(caller).quota.pipe_fds@,
        signum < 0 || signum > MAX_SIG ==> r == -errno_of(IpcError::InvalidArgument)
            && final(audit).same_as(*old(audit)) && *final(target_pending) == *old(target_pending),
        0 <= signum <= MAX_SIG && target_uid is None ==> r == -errno_of(IpcError::ProcessNotFound)
            && final(audit).same_as(*old(audit)) && *final(target_pending) == *old(target_pending),
        0 <= signum <= MAX_SIG && target_uid is Some ==> ({
            let request = signal_request(old(caller).credentials, caller_pid, pid, target_uid->0);
            let bit = 1u32 << (signum as u32);
            if admission(old(caller).quota, request) is Err {
                &&& r == -errno_of(IpcError::PermissionDenied)
                &&& *final(target_pending) == *old(target_pending)
                &&& final(audit).appended(
                    *old(audit),
                    request_event(request, Err(IpcError::PermissionDenied), timestamp_ms),
                )
            } else if *old(target_pending) & bit != 0 {
                &&& r == -errno_of(IpcError::TryAgain)
                &&& *final(target_pending) == *old(target_pending)
                &&& final(audit).appended(
                    *old(audit),
                    request_event(request, Err(IpcError::TryAgain), timestamp_ms),
                )
            } else {
                &&& r == 0
                &&& *final(target_pending) == *old(target_pending) | bit
                &&& final(audit).appended(*old(audit), request_event(request, Ok(1), timestamp_ms))
            }
        }),
{
    if signum < 0 || signum as usize > MAX_SIG {
        return ipc_error_to_ret(IpcError::InvalidArgument);
    }
    let target_uid = match target_uid {
        Some(uid) => uid,
        None => return ipc_error_to_ret(IpcError::ProcessNotFound),
    };
    let credentials = caller.credentials;
    let request = IpcRequest {
        subject: IpcSubject {
            pid: caller_pid,
            uid: credentials.uid,
            capabilities: credentials.capabilities,
        },
        object: IpcObject { id: pid as u64, owner_uid: target_uid },
        operation: IpcOperation::SignalSend,
        amount: 1,
    };
    let permit = match preflight(caller, audit, request, timestamp_ms) {
        Ok(permit) => permit,
        Err(error) => return ipc_error_to_ret(error),
    };
    let flag = 1u32 << (signum as u32);
    let outcome = if *target_pending & flag != 0 {
        Err(IpcError::TryAgain)
    } else {
        *target_pending = *target_pending | flag;
        Ok(1usize)
    };
    match complete(caller, audit, permit, outcome, timestamp_ms) {
        Ok(_) => 0,
        Err(error) => ipc_error_to_ret(error),
    }
}

/// UID of the calling process.
pub fn sys_getuid(credentials: &Credentials) -> (r: isize)
    ensures
        r == credentials.uid as isize,
{
    credentials.uid as isize
}

/// Change the UID of the calling process: 0 on success, -1 on failure.
/// Only root may do so, and the UID must fit in 32 bits. Leaving root drops
/// every capability; staying root keeps them.
pub fn sys_setuid(credentials: &mut Credentials, uid: usize) -> (r: isize)
    ensures
        old(credentials).uid != 0 ==> r == -1 && *final(credentials) == *old(credentials),
        old(credentials).uid == 0 && uid > u32::MAX ==> r == -1 && *final(credentials) == *old(
            credentials,
        ),
        old(credentials).uid == 0 && uid <= u32::MAX ==> r == 0 && final(credentials).uid == uid
            && final(credentials).capabilities == (if uid == 0 {
            old(credentials).capabilities
        } else {
            CapabilitySet(0)
        }),
{
    if !credentials.is_root() || uid > u32::MAX as usize {
        return -1;
    }
    let new_uid = uid as u32;
    credentials.uid = new_uid;
    if new_uid != 0 {
        credentials.capabilities = CapabilitySet::empty();
    }
    0
}

/// Flag of `SIGKILL` in a signal set.
pub const SIGKILL_FLAG: u32 = 0x200;

/// Flag of `SIGSTOP` in a signal set.
pub const SIGSTOP_FLAG: u32 = 0x80000;

/// `sigaction` refuses a null new or old action pointer, and any handler
/// for `SIGKILL` or `SIGSTOP`.
pub fn check_sigaction_error(signal: u32, action: usize, old_action: usize) -> (r: bool)
    ensures
        r == (action == 0 || old_action == 0 || signal == SIGKILL_FLAG || signal == SIGSTOP_FLAG),
{
    action == 0 || old_action == 0 || signal == SIGKILL_FLAG || signal == SIGSTOP_FLAG
}

/// Replace the signal mask; every 32-bit mask names valid signals. Returns
/// the previous mask.
pub fn sys_sigprocmask(signal_mask: &mut u32, mask: u32) -> (r: isize)
    ensures
        r == *old(signal_mask) as isize,
        *final(signal_mask) == mask,
{
    let old_mask = *signal_mask;
    *signal_mask = mask;
    old_mask as isize
}

/// What `waitpid` sees of a child process.
#[derive(Clone, Copy, Debug, PartialEq, Eq, Structural)]
pub struct ChildStatus {
    pub pid: usize,
    pub zombie: bool,
    pub exit_code: i32,
}

/// The decision of `waitpid`.
#[derive(Clone, Copy, Debug, PartialEq, Eq, Structural)]
pub enum WaitTarget {
    /// No child has the requested pid: the call returns -1.
    NoChild,
    /// Matching children exist but none has exited: the call returns -2.
    StillRunning,
    /// The child at this index has exited and can be reaped.
    Exited(usize),
}

/// Whether `child` is one the caller waits for (`pid == -1` means any).
pub open spec fn wanted(child: ChildStatus, pid: isize) -> bool {
    pid == -1 || pid as usize == child.pid
}

/// Choose the child `waitpid(pid)` reaps: the first exited child that
/// matches. Reaping itself (copying the exit code, then removing the child
/// only if the copy succeeded) is done by the caller.
pub fn find_waitable_child(children: &[ChildStatus], pid: isize) -> (r: WaitTarget)
    ensures
        r == WaitTarget::NoChild <==> forall|i: int|
            0 <= i < children@.len() ==> !wanted(#[trigger] children@[i], pid),
        r == WaitTarget::StillRunning ==> (exists|i: int|
            0 <= i < children@.len() && wanted(#[trigger] children@[i], pid)) && forall|i: int|
            0 <= i < children@.len() && wanted(#[trigger] children@[i], pid) ==> !children@[i].zombie,
        r matches WaitTarget::Exited(k) ==> k < children@.len() && children@[k as int].zombie
            && wanted(children@[k as int], pid) && forall|i: int|
            0 <= i < k ==> !(wanted(#[trigger] children@[i], pid) && children@[i].zombie),
{
    let mut any = false;
    let mut i: usize = 0;
    while i < children.len()
        invariant
            i <= children@.len(),
            any <==> exists|j: int| 0 <= j < i && wanted(#[trigger] children@[j], pid),
            forall|j: int| 0 <= j < i ==> !(wanted(#[trigger] children@[j], pid) && children@[j].zombie),
        decreases children@.len() - i,
    {
        let child = children[i];
        let matches = pid == -1 || pid as usize == child.pid;
        if matches && child.zombie {
            return WaitTarget::Exited(i);
        }
        if matches {
            any = true;
        }
        i = i + 1;
    }
    if any {
        WaitTarget::StillRunning
    } else {
        WaitTarget::NoChild
    }
}

/// The first child, in table order, that `waitpid(pid)` can reap.
pub open spec fn first_exited(children: Seq<ChildStatus>, pid: isize, k: int) -> bool {
    &&& 0 <= k < children.len()
    &&& children[k].zombie
    &&& wanted(children[k], pid)
    &&& forall|i: int| 0 <= i < k ==> !(wanted(#[trigger] children[i], pid) && children[i].zombie)
}

/// The four little-endian bytes by which `waitpid` stores an exit code.
pub open spec fn exit_code_bytes(exit_code: i32) -> Seq<u8> {
    le_bytes((exit_code as u32) as nat, 4)
}

/// The bytes `waitpid` stores read back, as a little-endian 32-bit value,
/// as the two's complement of the exit code: a negative exit code (a child
/// killed by a fault) stays negative for the parent.
pub proof fn lemma_exit_code_bytes(exit_code: i32)
    ensures
        exit_code_bytes(exit_code).len() == 4,
        le_value(exit_code_bytes(exit_code)) == (if exit_code >= 0 {
            exit_code as int
        } else {
            exit_code + 0x1_0000_0000
        }),
{
    let v = exit_code as u32;
    assert(exit_code >= 0 ==> (exit_code as u32) as i64 == exit_code as i64) by (bit_vector);
    assert(exit_code < 0 ==> (exit_code as u32) as i64 == exit_code as i64 + 0x1_0000_0000i64)
        by (bit_vector);
    assert(byte_bound(4) == 0x1_0000_0000) by {
        reveal_with_fuel(byte_bound, 5);
    }
    lemma_le_roundtrip(v as nat, 4);
}

/// Wait for a child: `pid == -1` waits for any child. `children` holds the
/// caller's children and `statuses` what is known of each, in the same
/// order. Without a matching child the result is -1, with matching children
/// none of which has exited it is -2; neither changes anything nor stores
/// anything. Otherwise the first exited matching child's exit code is to be
/// stored at `exit_code_ptr` first, which must be writable user memory as
/// `translate` maps it: if it is not, the result is `-EFAULT`, nothing is
/// stored and the child stays, so that the call can be retried; otherwise
/// the child is removed from `children` and handed back, its pid is the
/// result, and the third part of the result says where the four bytes of
/// the exit code go.
pub fn sys_waitpid<C, T: Fn(usize) -> Option<PageTableEntry>>(
    children: &mut Vec<C>,
    statuses: &[ChildStatus],
    pid: isize,
    exit_code_ptr: usize,
    translate: &T,
) -> (r: (isize, Option<C>, Vec<UserWrite>))
    requires
        old(children)@.len() == statuses@.len(),
        forall|vpn: usize| call_requires(*translate, (vpn,)),
    ensures
        (forall|i: int| 0 <= i < statuses@.len() ==> !wanted(#[trigger] statuses@[i], pid)) ==> r.0
            == -1 && final(children)@ == old(children)@ && r.1 is None && r.2@.len() == 0,
        (exists|i: int| 0 <= i < statuses@.len() && wanted(#[trigger] statuses@[i], pid)) && (forall|
            i: int,
        | 0 <= i < statuses@.len() && wanted(#[trigger] statuses@[i], pid) ==> !statuses@[i].zombie)
            ==> r.0 == -2 && final(children)@ == old(children)@ && r.1 is None && r.2@.len() == 0,
        forall|k: int|
            #[trigger] first_exited(statuses@, pid, k) ==> {
                &&& (user_range_denied(*translate, exit_code_ptr, 4, true) ==> r.0 == -errno_of(
                    IpcError::InvalidAddress,
                ))
                &&& {
                    ||| r.0 == -errno_of(IpcError::InvalidAddress) && final(children)@ == old(
                        children,
                    )@ && r.1 is None && r.2@.len() == 0 && (user_range_out_of_bounds(
                        exit_code_ptr,
                        4,
                    ) || exists|j: int|
                        0 <= j < 4 && #[trigger] page_refused(
                            *translate,
                            page_of(exit_code_ptr + j),
                            true,
                        ))
                    ||| r.0 == statuses@[k].pid as isize && final(children)@ == old(
                        children,
                    )@.remove(k) && r.1 == Some(old(children)@[k]) && copy_plan(
                        *translate,
                        r.2@,
                        exit_code_ptr,
                        exit_code_bytes(statuses@[k].exit_code),
                    )
                }
            },
{
    match find_waitable_child(statuses, pid) {
        WaitTarget::NoChild => (-1, None, Vec::new()),
        WaitTarget::StillRunning => (-2, None, Vec::new()),
        WaitTarget::Exited(index) => {
            let status = statuses[index];
            proof {
                assert forall|k: int| #[trigger] first_exited(statuses@, pid, k) implies k
                    == index by {
                    if k < index {
                        assert(!(wanted(statuses@[k], pid) && statuses@[k].zombie));
                    } else if k > index {
                        assert(!(wanted(statuses@[index as int], pid)
                            && statuses@[index as int].zombie));
                    }
                }
            }
            let code = status.exit_code as u32;
            let writes = match plan_store_le(translate, exit_code_ptr, code as u64, 4) {
                Ok(writes) => writes,
                Err(_) => return (ipc_error_to_ret(IpcError::InvalidAddress), None, Vec::new()),
            };
            let child = children.remove(index);
            (status.pid as isize, Some(child), writes)
        },
    }
}

/// Whether `sigaction` refuses signal `signum` with the given action
/// pointers before touching user memory: a signal number out of range, a
/// null pointer, or `SIGKILL`/`SIGSTOP`.
pub open spec fn sigaction_refused(signum: i32, action: usize, old_action: usize) -> bool {
    ||| signum < 0
    ||| signum > MAX_SIG
    ||| action == 0
    ||| old_action == 0
    ||| (1u32 << (signum as u32)) == SIGKILL_FLAG
    ||| (1u32 << (signum as u32)) == SIGSTOP_FLAG
}

/// Install a handler for signal `signum` in the caller's action table.
/// A refused request (see `sigaction_refused`) gives -1. Otherwise the new
/// action, `size` bytes of readable user memory at `action`, is read first
/// and turned into an action by `decode`; then the previous action, turned
/// into its `size` bytes by `encode`, is to be stored at `old_action`,
/// which must be writable user memory. If either range cannot be accessed
/// the result is `-EFAULT` and the table is unchanged with nothing stored.
/// Only then is the new action installed; the result is 0, with where the
/// bytes of the previous action go.
pub fn sys_sigaction<
    A: Copy,
    T: Fn(usize) -> Option<PageTableEntry>,
    B: Fn(PhysPageNum, usize) -> u8,
    D: Fn(Vec<u8>) -> A,
    E: Fn(A) -> Vec<u8>,
>(
    actions: &mut Vec<A>,
    signum: i32,
    action: usize,
    old_action: usize,
    translate: &T,
    read_byte: &B,
    decode: &D,
    encode: &E,
    size: usize,
) -> (r: (isize, Vec<UserWrite>))
    requires
        old(actions)@.len() == MAX_SIG + 1,
        0 < size,
        forall|vpn: usize| call_requires(*translate, (vpn,)),
        forall|page: PhysPageNum, offset: usize| call_requires(*read_byte, (page, offset)),
        forall|bytes: Vec<u8>| call_requires(*decode, (bytes,)),
        forall|a: A| call_requires(*encode, (a,)),
        forall|a: A, bytes: Vec<u8>| call_ensures(*encode, (a,), bytes) ==> bytes@.len() == size,
    ensures
        sigaction_refused(signum, action, old_action) ==> r.0 == -1 && final(actions)@ == old(
            actions,
        )@ && r.1@.len() == 0,
        !sigaction_refused(signum, action, old_action) ==> {
            &&& (user_range_denied(*translate, action, size, false) || user_range_denied(
                *translate,
                old_action,
                size,
                true,
            )) ==> r.0 == -errno_of(IpcError::InvalidAddress)
            &&& {
                ||| r.0 == -errno_of(IpcError::InvalidAddress) && final(actions)@ == old(actions)@
                    && r.1@.len() == 0 && (user_range_refused(*translate, action, size, false)
                    || user_range_refused(*translate, old_action, size, true))
                ||| r.0 == 0 && exists|bytes: Vec<u8>, new_action: A, previous: Vec<u8>|
                    {
                        &&& bytes@.len() == size
                        &&& forall|i: int|
                            0 <= i < size ==> #[trigger] byte_seen(
                                *translate,
                                *read_byte,
                                action + i,
                                bytes@[i],
                            )
                        &&& #[trigger] call_ensures(*decode, (bytes,), new_action)
                        &&& #[trigger] call_ensures(*encode, (old(actions)@[signum as int],), previous)
                        &&& copy_plan(*translate, r.1@, old_action, previous@)
                        &&& final(actions)@ == old(actions)@.update(signum as int, new_action)
                    }
            }
        },
{
    if signum < 0 || signum as usize > MAX_SIG {
        return (-1, Vec::new());
    }
    let flag = 1u32 << (signum as u32);
    if check_sigaction_error(flag, action, old_action) {
        return (-1, Vec::new());
    }
    let index = signum as usize;
    let previous = actions[index];
    let bytes = match copy_bytes_from_user(translate, read_byte, action, size) {
        Ok(bytes) => bytes,
        Err(_) => return (ipc_error_to_ret(IpcError::InvalidAddress), Vec::new()),
    };
    let ghost seen = bytes;
    let new_action = decode(bytes);
    let encoded = encode(previous);
    let writes = match plan_copy_to_user(translate, old_action, encoded.as_slice()) {
        Ok(writes) => writes,
        Err(_) => return (ipc_error_to_ret(IpcError::InvalidAddress), Vec::new()),
    };
    actions.set(index, new_action);
    proof {
        assert(forall|i: int|
            0 <= i < size ==> #[trigger] byte_seen(*translate, *read_byte, action + i, seen@[i]));
        assert(call_ensures(*decode, (seen,), new_action));
    }
    (0, writes)
}

/// Size in bytes of one entry of a user argument array (a pointer on the
/// 64-bit target).
pub const ARG_ENTRY_SIZE: usize = 8;

/// User address of entry `index` of the argument array at `args`; the
/// address advances with wrapping arithmetic, as pointer stepping does.
pub open spec fn arg_entry(args: usize, index: int) -> usize {
    args.wrapping_add((index * ARG_ENTRY_SIZE) as usize)
}

/// Eight bytes read from user memory at `address`, in order.
pub open spec fn word_seen<T: Fn(usize) -> Option<PageTableEntry>, B: Fn(PhysPageNum, usize) -> u8>(
    translate: T,
    read_byte: B,
    address: usize,
    bytes: Seq<u8>,
) -> bool {
    &&& bytes.len() == ARG_ENTRY_SIZE
    &&& forall|i: int|
        0 <= i < ARG_ENTRY_SIZE ==> #[trigger] byte_seen(translate, read_byte, address + i, bytes[i])
}

/// The 64-bit little-endian value of eight bytes.
pub open spec fn le_word(b: Seq<u8>) -> u64 {
    (b[0] as u64) | ((b[1] as u64) << 8u64) | ((b[2] as u64) << 16u64) | ((b[3] as u64) << 24u64)
        | ((b[4] as u64) << 32u64) | ((b[5] as u64) << 40u64) | ((b[6] as u64) << 48u64) | ((
    b[7] as u64) << 56u64)
}

/// The pointer-sized user value at `address` was read as `p`.
pub open spec fn pointer_read<T: Fn(usize) -> Option<PageTableEntry>, B: Fn(PhysPageNum, usize) -> u8>(
    translate: T,
    read_byte: B,
    address: usize,
    p: usize,
) -> bool {
    exists|bytes: Seq<u8>|
        #[trigger] word_seen(translate, read_byte, address, bytes) && p == le_word(bytes) as usize
}

/// Entry `index` of the argument array at `args` was read as a non-null
/// pointer, and the string it points to was read as `arg`.
pub open spec fn arg_seen<T: Fn(usize) -> Option<PageTableEntry>, B: Fn(PhysPageNum, usize) -> u8>(
    translate: T,
    read_byte: B,
    args: usize,
    index: int,
    arg: Seq<u8>,
) -> bool {
    exists|p: usize|
        #[trigger] pointer_read(translate, read_byte, arg_entry(args, index), p) && p != 0
            && string_read(translate, read_byte, p, MAX_STR_LEN, arg)
}

/// The first entries of the argument array at `args` were read as `v`.
pub open spec fn args_seen<T: Fn(usize) -> Option<PageTableEntry>, B: Fn(PhysPageNum, usize) -> u8>(
    translate: T,
    read_byte: B,
    args: usize,
    v: Seq<Vec<u8>>,
) -> bool {
    forall|i: int| #![trigger v[i]] 0 <= i < v.len() ==> arg_seen(translate, read_byte, args, i, v[i]@)
}

/// The argument array at `args` was read as `v`: at most `MAX_ARGV`
/// strings, then a null entry.
pub open spec fn args_collected<
    T: Fn(usize) -> Option<PageTableEntry>,
    B: Fn(PhysPageNum, usize) -> u8,
>(translate: T, read_byte: B, args: usize, v: Seq<Vec<u8>>) -> bool {
    &&& v.len() <= MAX_ARGV
    &&& args_seen(translate, read_byte, args, v)
    &&& pointer_read(translate, read_byte, arg_entry(args, v.len() as int), 0)
}

/// Reading the argument array at `args` failed with `code` after the
/// strings `v`: `-EFAULT` when the next entry or its string could not be
/// read, -1 when a non-null entry follows `MAX_ARGV` strings.
pub open spec fn args_failed_after<
    T: Fn(usize) -> Option<PageTableEntry>,
    B: Fn(PhysPageNum, usize) -> u8,
>(translate: T, read_byte: B, args: usize, v: Seq<Vec<u8>>, code: isize) -> bool {
    let entry = arg_entry(args, v.len() as int);
    &&& v.len() <= MAX_ARGV
    &&& args_seen(translate, read_byte, args, v)
    &&& {
        ||| code == -errno_of(IpcError::InvalidAddress) && user_range_refused(
            translate,
            entry,
            ARG_ENTRY_SIZE,
            false,
        )
        ||| code == -errno_of(IpcError::InvalidAddress) && v.len() < MAX_ARGV && exists|p: usize|
            #[trigger] pointer_read(translate, read_byte, entry, p) && p != 0 && string_unread(
                translate,
                read_byte,
                p,
                MAX_STR_LEN,
            )
        ||| code == -1 && v.len() == MAX_ARGV && exists|p: usize|
            #[trigger] pointer_read(translate, read_byte, entry, p) && p != 0
    }
}

/// Reading the argument array at `args` failed with `code`.
pub open spec fn args_failed<T: Fn(usize) -> Option<PageTableEntry>, B: Fn(PhysPageNum, usize) -> u8>(
    translate: T,
    read_byte: B,
    args: usize,
    code: isize,
) -> bool {
    exists|v: Seq<Vec<u8>>| #[trigger] args_failed_after(translate, read_byte, args, v, code)
}

/// The 64-bit little-endian value of eight bytes.
fn word_of(bytes: &Vec<u8>) -> (r: u64)
    requires
        bytes@.len() == ARG_ENTRY_SIZE,
    ensures
        r == le_word(bytes@),
{
    (bytes[0] as u64) | ((bytes[1] as u64) << 8u64) | ((bytes[2] as u64) << 16u64) | ((
    bytes[3] as u64) << 24u64) | ((bytes[4] as u64) << 32u64) | ((bytes[5] as u64) << 40u64) | ((
    bytes[6] as u64) << 48u64) | ((bytes[7] as u64) << 56u64)
}

/// Read the pointer-sized user value at `address`, as `copy_from_user`
/// reads it: `None` when the eight bytes are not readable user memory.
fn read_user_pointer<T: Fn(usize) -> Option<PageTableEntry>, B: Fn(PhysPageNum, usize) -> u8>(
    translate: &T,
    read_byte: &B,
    address: usize,
) -> (r: Option<usize>)
    requires
        forall|vpn: usize| call_requires(*translate, (vpn,)),
        forall|page: PhysPageNum, offset: usize| call_requires(*read_byte, (page, offset)),
    ensures
        r matches Some(p) ==> pointer_read(*translate, *read_byte, address, p),
        r is None ==> user_range_refused(*translate, address, ARG_ENTRY_SIZE, false),
{
    match copy_from_user(translate, read_byte, address, ARG_ENTRY_SIZE) {
        Ok(bytes) => {
            let word = word_of(&bytes);
            assert(word_seen(*translate, *read_byte, address, bytes@));
            Some(word as usize)
        },
        Err(_) => None,
    }
}

/// Collect the argument strings of `exec` from the user array at `args`,
/// entry by entry, up to its null entry: each entry is a pointer-sized
/// value read as `copy_from_user` reads it, and each string is read as
/// `try_translated_str` reads it, at most `MAX_STR_LEN` bytes. A bad entry
/// or string gives `Err(-EFAULT)`; an entry after `MAX_ARGV` strings gives
/// `Err(-1)`, so an unterminated array cannot keep the kernel reading.
pub fn collect_exec_args<T: Fn(usize) -> Option<PageTableEntry>, B: Fn(PhysPageNum, usize) -> u8>(
    translate: &T,
    read_byte: &B,
    args: usize,
) -> (r: Result<Vec<Vec<u8>>, isize>)
    requires
        forall|vpn: usize| call_requires(*translate, (vpn,)),
        forall|page: PhysPageNum, offset: usize| call_requires(*read_byte, (page, offset)),
    ensures
        r matches Ok(v) ==> args_collected(*translate, *read_byte, args, v@),
        r matches Err(code) ==> args_failed(*translate, *read_byte, args, code),
{
    let mut collected: Vec<Vec<u8>> = Vec::new();
    let mut index: usize = 0;
    loop
        invariant
            forall|vpn: usize| call_requires(*translate, (vpn,)),
            forall|page: PhysPageNum, offset: usize| call_requires(*read_byte, (page, offset)),
            collected@.len() == index,
            index <= MAX_ARGV,
            args_seen(*translate, *read_byte, args, collected@),
        decreases MAX_ARGV + 1 - index,
    {
        let address = args.wrapping_add(index * ARG_ENTRY_SIZE);
        assert(address == arg_entry(args, index as int));
        let pointer = match read_user_pointer(translate, read_byte, address) {
            Some(pointer) => pointer,
            None => {
                assert(args_failed_after(*translate, *read_byte, args, collected@, -14isize));
                return Err(-14);
            },
        };
        if pointer == 0 {
            return Ok(collected);
        }
        if collected.len() >= MAX_ARGV {
            assert(args_failed_after(*translate, *read_byte, args, collected@, -1isize));
            return Err(-1);
        }
        let arg = match try_translated_str(translate, read_byte, pointer, MAX_STR_LEN) {
            Some(arg) => arg,
            None => {
                assert(args_failed_after(*translate, *read_byte, args, collected@, -14isize));
                return Err(-14);
            },
        };
        let ghost before = collected@;
        proof {
            assert(arg_seen(*translate, *read_byte, args, index as int, arg@));
        }
        collected.push(arg);
        assert(args_seen(*translate, *read_byte, args, collected@)) by {
            assert forall|i: int| 0 <= i < collected@.len() implies arg_seen(
                *translate,
                *read_byte,
                args,
                i,
                collected@[i]@,
            ) by {
                if i < before.len() {
                    assert(collected@[i] == before[i]);
                }
            }
        }
        index = index + 1;
    }
}

/// Replace the calling program by the one named by the user string at
/// `path`, with the arguments of the null-terminated array at `args`. The
/// path is read first, as `try_translated_str` reads it (at most
/// `MAX_STR_LEN` bytes, readable user pages only): an unreadable path gives
/// `-EFAULT` before the arguments are read; bad or too many arguments give
/// what `collect_exec_args` gives. Then `load(name, arguments)` is handed
/// the path that was read and the arguments that were collected, and
/// decides: it answers `false` when there is no such program, which gives
/// -1; otherwise the result is the argument count, which becomes the new
/// program's first argument register.
pub fn sys_exec<
    T: Fn(usize) -> Option<PageTableEntry>,
    B: Fn(PhysPageNum, usize) -> u8,
    L: Fn(Vec<u8>, Vec<Vec<u8>>) -> bool,
>(translate: &T, read_byte: &B, load: &L, path: usize, args: usize) -> (r: isize)
    requires
        forall|vpn: usize| call_requires(*translate, (vpn,)),
        forall|page: PhysPageNum, offset: usize| call_requires(*read_byte, (page, offset)),
        forall|name: Vec<u8>, arguments: Vec<Vec<u8>>| call_requires(*load, (name, arguments)),
    ensures
        ({
        ||| r == -errno_of(IpcError::InvalidAddress) && string_unread(
            *translate,
            *read_byte,
            path,
            MAX_STR_LEN,
        )
        ||| (exists|name: Vec<u8>|
            #[trigger] string_read(*translate, *read_byte, path, MAX_STR_LEN, name@)) && args_failed(
            *translate,
            *read_byte,
            args,
            r,
        )
        ||| exists|name: Vec<u8>, v: Vec<Vec<u8>>, loaded: bool|
            {
                &&& #[trigger] string_read(*translate, *read_byte, path, MAX_STR_LEN, name@)
                &&& args_collected(*translate, *read_byte, args, v@)
                &&& #[trigger] call_ensures(*load, (name, v), loaded)
                &&& r == (if loaded {
                    v@.len() as int
                } else {
                    -1int
                })
            }
        }),
{
    let name = match try_translated_str(translate, read_byte, path, MAX_STR_LEN) {
        Some(name) => name,
        None => return ipc_error_to_ret(IpcError::InvalidAddress),
    };
    let ghost n = name;
    let collected = match collect_exec_args(translate, read_byte, args) {
        Ok(collected) => collected,
        Err(code) => {
            assert(string_read(*translate, *read_byte, path, MAX_STR_LEN, n@));
            return code;
        },
    };
    let argc = collected.len();
    let ghost v = collected;
    let loaded = load(name, collected);
    assert(string_read(*translate, *read_byte, path, MAX_STR_LEN, n@));
    assert(call_ensures(*load, (n, v), loaded));
    if loaded {
        argc as isize
    } else {
        -1
    }
}

} // verus!
