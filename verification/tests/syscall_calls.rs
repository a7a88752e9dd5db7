//! Descriptor, pipe, transfer, signal and process syscalls over explicit
//! state, with scripted kernel services.

use secure_ipc::fs::pipe::Pipe;
use secure_ipc::fs::File;
use std::cell::{Cell, RefCell};

use secure_ipc::mm::page_table::{
    PTEFlags, PageTableEntry, PhysPageNum, UserBuffer, UserWrite, PTE_R, PTE_U, PTE_V, PTE_W,
};
use secure_ipc::security::audit::{AuditRing, AUDIT_OP_PIPE_CREATE, AUDIT_OP_PIPE_READ, AUDIT_OP_SIGNAL_SEND};
use secure_ipc::security::credentials::Credentials;
use secure_ipc::security::quota::MAX_OPEN_FILES;
use secure_ipc::security::{CapabilitySet, IpcError, IpcObject, ProcessSecurityState};
use secure_ipc::syscall::fs::{
    alloc_fd, install_opened, sys_close, sys_dup, sys_open, sys_pipe, sys_read, sys_write,
};
use secure_ipc::syscall::ipc_error_to_ret;
use secure_ipc::syscall::process::{
    check_sigaction_error, collect_exec_args, find_waitable_child, sys_getuid, sys_kill,
    sys_setuid, sys_sigaction, sys_sigprocmask, sys_waitpid, ChildStatus, WaitTarget,
    SIGKILL_FLAG, SIGSTOP_FLAG,
};
use secure_ipc::syscall::process::sys_exec;
use secure_ipc::security::audit::{AuditControlOperation, AUDIT_OP_IPC_STAT};
use secure_ipc::security::IpcSubject;
use secure_ipc::syscall::security::{finish_control_call, read_stats};

const NOW: u64 = 77;

/// An ordinary (non-IPC) file.
#[derive(Clone, Debug, PartialEq)]
struct Plain(u32);

impl File for Plain {
    fn spec_readable(&self) -> bool {
        true
    }
    fn spec_writable(&self) -> bool {
        true
    }
    fn spec_ipc_object(&self) -> Option<IpcObject> {
        None
    }
    fn readable(&self) -> bool {
        true
    }
    fn writable(&self) -> bool {
        true
    }
    fn ipc_object(&self) -> Option<IpcObject> {
        None
    }
}

fn std_table() -> Vec<Option<Plain>> {
    vec![Some(Plain(0)), Some(Plain(1)), Some(Plain(2))]
}

fn user(uid: u32) -> ProcessSecurityState {
    let mut state = ProcessSecurityState::initial();
    state.credentials = Credentials { uid, capabilities: CapabilitySet::empty() };
    state
}

#[test]
fn error_returns_are_negative_errno() {
    assert_eq!(ipc_error_to_ret(IpcError::PermissionDenied), -1);
    assert_eq!(ipc_error_to_ret(IpcError::InvalidAddress), -14);
    assert_eq!(ipc_error_to_ret(IpcError::InvalidArgument), -22);
    assert_eq!(ipc_error_to_ret(IpcError::ProcessNotFound), -3);
    assert_eq!(ipc_error_to_ret(IpcError::TooManyFiles), -24);
    assert_eq!(ipc_error_to_ret(IpcError::ResourceExhausted), -28);
    assert_eq!(ipc_error_to_ret(IpcError::TryAgain), -11);
}

#[test]
fn lowest_free_descriptor_is_reused_before_the_table_grows() {
    let mut table = vec![Some(Plain(0)), None, Some(Plain(2))];
    assert_eq!(alloc_fd(&mut table), 1);
    assert_eq!(table.len(), 3);
    table[1] = Some(Plain(1));
    assert_eq!(alloc_fd(&mut table), 3);
    assert_eq!(table, vec![Some(Plain(0)), Some(Plain(1)), Some(Plain(2)), None]);
}

#[test]
fn open_and_close_charge_and_release_one_descriptor() {
    let mut table = std_table();
    let mut state = ProcessSecurityState::initial();
    assert_eq!(install_opened(&mut table, &mut state, Err(IpcError::InvalidArgument)), -22);
    assert_eq!(install_opened(&mut table, &mut state, Err(IpcError::InvalidAddress)), -14);
    assert_eq!(install_opened(&mut table, &mut state, Ok(None)), -1);
    assert_eq!(state.quota.open_files, 3);
    assert_eq!(install_opened(&mut table, &mut state, Ok(Some(Plain(7)))), 3);
    assert_eq!(table[3], Some(Plain(7)));
    assert_eq!(state.quota.open_files, 4);
    assert_eq!(sys_close(&mut table, &mut state, 3), 0);
    assert_eq!(table[3], None);
    assert_eq!(state.quota.open_files, 3);
    assert_eq!(sys_close(&mut table, &mut state, 3), -1);
    assert_eq!(sys_close(&mut table, &mut state, 99), -1);
    state.quota.open_files = MAX_OPEN_FILES;
    assert_eq!(install_opened(&mut table, &mut state, Ok(Some(Plain(8)))), -24);
    assert_eq!(table.len(), 4);
}

/// The byte at (page, offset) of the test memory is zero at offset 0x80 of
/// page 0x80, so a path at 0x70 is the 16 bytes 0xf0..=0xff.
#[test]
fn open_reads_the_path_checks_the_flags_then_looks_up() {
    let mut table = std_table();
    let mut state = ProcessSecurityState::initial();
    let t = &user_page;
    let m = &memory_byte;
    let parse_flags = |bits: u32| if bits & !0x603 == 0 { Some(bits) } else { None };
    let looked_up = RefCell::new(None);
    let open_file = |name: Vec<u8>, flags: u32| {
        *looked_up.borrow_mut() = Some((name.clone(), flags));
        if name.len() == 16 { Some(Plain(name[0] as u32)) } else { None }
    };
    // An unmapped path, and a path that runs into an unmapped page.
    assert_eq!(sys_open(&mut table, &mut state, t, m, &parse_flags, &open_file, 3 * 4096, 0), -14);
    assert_eq!(sys_open(&mut table, &mut state, t, m, &parse_flags, &open_file, 2 * 4096 - 4, 0), -14);
    // Unknown flag bits.
    assert_eq!(sys_open(&mut table, &mut state, t, m, &parse_flags, &open_file, 0x70, 1 << 20), -22);
    assert!(looked_up.borrow().is_none());
    assert_eq!(sys_open(&mut table, &mut state, t, m, &parse_flags, &open_file, 0x70, 1), 3);
    assert_eq!(*looked_up.borrow(), Some(((0xf0..=0xffu8).collect(), 1)));
    assert_eq!(table[3], Some(Plain(0xf0)));
    // A shorter name finds no file.
    assert_eq!(sys_open(&mut table, &mut state, t, m, &parse_flags, &open_file, 0x71, 0), -1);
    assert_eq!(state.quota.open_files, 4);
}

#[test]
fn dup_copies_into_lowest_slot_and_respects_the_limit() {
    let mut table = std_table();
    let mut state = ProcessSecurityState::initial();
    assert_eq!(sys_dup(&mut table, &mut state, 5), -1);
    assert_eq!(sys_dup(&mut table, &mut state, 1), 3);
    assert_eq!(table[3], Some(Plain(1)));
    assert_eq!(state.quota.open_files, 4);
    state.quota.open_files = MAX_OPEN_FILES;
    assert_eq!(sys_dup(&mut table, &mut state, 1), -24);
    assert_eq!(table.len(), 4);
}

fn new_pipe(object: IpcObject) -> (Pipe<u64>, Pipe<u64>) {
    (Pipe::read_end_with_buffer(object.id, object), Pipe::write_end_with_buffer(object.id, object))
}

/// The words a copy plan stores, in order.
fn stored_words(writes: &[UserWrite]) -> Vec<usize> {
    let bytes: Vec<u8> = writes.iter().flat_map(|w| w.bytes.iter().copied()).collect();
    bytes.chunks(8).map(|c| usize::from_le_bytes(c.try_into().unwrap())).collect()
}

fn pipe_table() -> Vec<Option<Pipe<u64>>> {
    let object = IpcObject { id: 0, owner_uid: 0 };
    vec![Some(Pipe::read_end_with_buffer(0, object)), None, Some(Pipe::write_end_with_buffer(0, object))]
}

/// User page 0 is mapped readable and writable; page 1 only readable.
fn user_page(vpn: usize) -> Option<PageTableEntry> {
    match vpn {
        0 => Some(PageTableEntry::new(PhysPageNum(0x80), PTEFlags(PTE_V | PTE_R | PTE_W | PTE_U))),
        1 => Some(PageTableEntry::new(PhysPageNum(0x81), PTEFlags(PTE_V | PTE_R | PTE_U))),
        _ => None,
    }
}

fn memory_byte(page: PhysPageNum, offset: usize) -> u8 {
    (page.0 + offset) as u8
}

#[test]
fn pipe_commits_descriptors_only_after_the_copy() {
    let mut table = pipe_table();
    let mut state = user(5);
    let mut ring = AuditRing::new();
    let mut next_id = 7;
    let t = &user_page;
    let (r, writes) = sys_pipe(&mut table, &mut state, &mut ring, &mut next_id, &new_pipe, t, 9, 0x100, NOW);
    assert_eq!(r, 0);
    assert_eq!(stored_words(&writes), vec![1, 3]);
    assert_eq!((writes[0].span.page, writes[0].span.offset), (PhysPageNum(0x80), 0x100));
    assert_eq!(next_id, 8);
    assert_eq!(table[1].as_ref().unwrap().ipc_object(), Some(IpcObject { id: 7, owner_uid: 5 }));
    assert!(table[1].as_ref().unwrap().readable());
    assert!(table[3].as_ref().unwrap().writable());
    assert!(state.quota.pipe_fd_registered(1) && state.quota.pipe_fd_registered(3));
    assert_eq!((state.quota.open_files, state.quota.open_pipes), (5, 2));
    let event = ring.snapshot(0, 1).record_at(0).unwrap();
    assert_eq!((event.operation, event.errno, event.result_value, event.object_owner_uid), (AUDIT_OP_PIPE_CREATE, 0, 1, 5));

    // The output lies in the read-only page: nothing is stored.
    let (r, writes) = sys_pipe(&mut table, &mut state, &mut ring, &mut next_id, &new_pipe, t, 9, 0x1000, NOW);
    assert_eq!(r, -14);
    assert!(writes.is_empty());
    assert_eq!(next_id, 9);
    assert!(table[4].is_none() && table[5].is_none());
    assert!(!state.quota.pipe_fd_registered(4));
    assert_eq!((state.quota.open_files, state.quota.open_pipes), (5, 2));
    let event = ring.snapshot(1, 1).record_at(0).unwrap();
    assert_eq!((event.errno, event.result_value), (14, 0));

    // Only the first word is writable: the read descriptor alone is stored.
    let (r, writes) = sys_pipe(&mut table, &mut state, &mut ring, &mut next_id, &new_pipe, t, 9, 0x1000 - 8, NOW);
    assert_eq!(r, -14);
    assert_eq!(stored_words(&writes), vec![4]);
    assert!(table[4].is_none() && table[5].is_none());
    assert_eq!((state.quota.open_files, state.quota.open_pipes), (5, 2));
}

#[test]
fn pipe_refusals_change_nothing_but_the_log() {
    let mut table = pipe_table();
    let mut state = user(5);
    let mut ring = AuditRing::new();
    let mut next_id = u64::MAX;
    let t = &user_page;
    let (r, writes) = sys_pipe(&mut table, &mut state, &mut ring, &mut next_id, &new_pipe, t, 9, 0x100, NOW);
    assert_eq!(r, -28);
    assert!(writes.is_empty());
    assert_eq!((state.quota.open_files, state.quota.open_pipes), (3, 0));
    assert_eq!(table.len(), 3);
    state.quota.open_files = MAX_OPEN_FILES - 1;
    next_id = 1;
    let (r, writes) = sys_pipe(&mut table, &mut state, &mut ring, &mut next_id, &new_pipe, t, 9, 0x100, NOW);
    assert_eq!(r, -24);
    assert!(writes.is_empty());
    assert_eq!(next_id, 1);
    assert_eq!(ring.stats().failed_events, 2);
}

#[test]
fn pipe_transfers_are_recorded_with_their_byte_count() {
    let table = pipe_table();
    let mut state = user(5);
    let mut ring = AuditRing::new();
    let calls = Cell::new(0usize);
    let written = RefCell::new(Vec::new());
    let read_file = |_file: &Pipe<u64>, buffer: UserBuffer| {
        calls.set(calls.get() + 1);
        let room: usize = buffer.buffers.iter().map(|span| span.len).sum();
        room.min(6)
    };
    let write_file = |_file: &Pipe<u64>, data: Vec<u8>| {
        calls.set(calls.get() + 1);
        written.borrow_mut().extend_from_slice(&data);
        data.len()
    };
    let t = &user_page;
    let m = &memory_byte;
    assert_eq!(sys_write(&table, &mut state, &mut ring, &write_file, t, m, 9, 0, 0x10, 4, NOW), -1);
    assert_eq!(sys_read(&table, &mut state, &mut ring, &read_file, t, 9, 2, 0x10, 4, NOW), -1);
    assert_eq!(sys_read(&table, &mut state, &mut ring, &read_file, t, 9, 1, 0x10, 4, NOW), -1);
    assert_eq!(ring.stats().total_events, 0);
    assert_eq!(sys_read(&table, &mut state, &mut ring, &read_file, t, 9, 0, 0x10, 10, NOW), 6);
    let event = ring.snapshot(0, 1).record_at(0).unwrap();
    assert_eq!((event.operation, event.requested_amount, event.result_value), (AUDIT_OP_PIPE_READ, 10, 6));
    assert_eq!(sys_write(&table, &mut state, &mut ring, &write_file, t, m, 9, 2, 0x10, 0, NOW), 0);
    assert_eq!(calls.get(), 1);
    assert_eq!(sys_write(&table, &mut state, &mut ring, &write_file, t, m, 9, 2, 4096 - 1, 3, NOW), 3);
    assert_eq!(*written.borrow(), vec![0x7f, 0x81, 0x82]);
    // The kernel may not write into the read-only page, nor touch unmapped memory.
    assert_eq!(sys_read(&table, &mut state, &mut ring, &read_file, t, 9, 0, 4096 + 10, 10, NOW), -14);
    assert_eq!(sys_write(&table, &mut state, &mut ring, &write_file, t, m, 9, 2, 2 * 4096 - 2, 4, NOW), -14);
    assert_eq!(calls.get(), 2);
    let stats = ring.stats();
    assert_eq!((stats.total_events, stats.failed_events), (5, 2));
    let last = ring.snapshot(stats.next_sequence - 2, 1).record_at(0).unwrap();
    assert_eq!((last.errno, last.result_value), (14, 0));
    assert_eq!((state.quota.open_files, state.quota.open_pipes), (3, 0));
}

#[test]
fn ordinary_file_transfers_are_not_recorded() {
    let table = std_table();
    let mut state = user(5);
    let mut ring = AuditRing::new();
    let read_file = |_file: &Plain, buffer: UserBuffer| {
        let room: usize = buffer.buffers.iter().map(|span| span.len).sum();
        room.min(3)
    };
    let write_file = |_file: &Plain, data: Vec<u8>| data.len();
    let t = &user_page;
    let m = &memory_byte;
    assert_eq!(sys_read(&table, &mut state, &mut ring, &read_file, t, 9, 0, 0x10, 8, NOW), 3);
    assert_eq!(sys_write(&table, &mut state, &mut ring, &write_file, t, m, 9, 1, 0x10, 8, NOW), 8);
    assert_eq!(sys_write(&table, &mut state, &mut ring, &write_file, t, m, 9, 1, 0x10, 0, NOW), 0);
    assert_eq!(sys_write(&table, &mut state, &mut ring, &write_file, t, m, 9, 1, 5 * 4096, 8, NOW), -14);
    assert_eq!(sys_read(&table, &mut state, &mut ring, &read_file, t, 9, 0, usize::MAX, 8, NOW), -14);
    assert_eq!(ring.stats().total_events, 0);
}

#[test]
fn kill_checks_number_target_policy_and_pending_bit() {
    let mut caller = user(5);
    let mut ring = AuditRing::new();
    let mut pending: u32 = 0;
    assert_eq!(sys_kill(&mut caller, 3, &mut ring, Some(5), &mut pending, 4, 32, NOW), -22);
    assert_eq!(sys_kill(&mut caller, 3, &mut ring, Some(5), &mut pending, 4, -1, NOW), -22);
    assert_eq!(sys_kill(&mut caller, 3, &mut ring, None, &mut pending, 4, 10, NOW), -3);
    assert_eq!(ring.stats().total_events, 0);
    assert_eq!(sys_kill(&mut caller, 3, &mut ring, Some(6), &mut pending, 4, 10, NOW), -1);
    assert_eq!(pending, 0);
    assert_eq!(sys_kill(&mut caller, 3, &mut ring, Some(5), &mut pending, 4, 10, NOW), 0);
    assert_eq!(pending, 1 << 10);
    assert_eq!(sys_kill(&mut caller, 3, &mut ring, Some(5), &mut pending, 4, 10, NOW), -11);
    assert_eq!(sys_kill(&mut caller, 3, &mut ring, Some(6), &mut pending, 3, 31, NOW), 0);
    assert_eq!(pending, (1 << 10) | (1 << 31));
    let stats = ring.stats();
    assert_eq!((stats.total_events, stats.failed_events), (4, 2));
    let denied = ring.snapshot(0, 1).record_at(0).unwrap();
    assert_eq!((denied.operation, denied.errno, denied.object_id, denied.object_owner_uid), (AUDIT_OP_SIGNAL_SEND, 1, 4, 6));
}

#[test]
fn uid_calls_follow_root_rules() {
    let mut credentials = Credentials::root();
    assert_eq!(sys_getuid(&credentials), 0);
    assert_eq!(sys_setuid(&mut credentials, 0), 0);
    assert_eq!(credentials.capabilities, CapabilitySet::all());
    assert_eq!(sys_setuid(&mut credentials, 1usize << 33), -1);
    assert_eq!(sys_setuid(&mut credentials, 1000), 0);
    assert_eq!(sys_getuid(&credentials), 1000);
    assert_eq!(credentials.capabilities, CapabilitySet::empty());
    assert_eq!(sys_setuid(&mut credentials, 0), -1);
    assert_eq!(sys_getuid(&credentials), 1000);
}

#[test]
fn sigprocmask_returns_the_previous_mask() {
    let mut mask = 0b1010u32;
    assert_eq!(sys_sigprocmask(&mut mask, u32::MAX), 0b1010);
    assert_eq!(mask, u32::MAX);
    assert_eq!(sys_sigprocmask(&mut mask, 0), u32::MAX as isize);
}

#[test]
fn sigaction_refusals_and_copies() {
    assert!(check_sigaction_error(1 << 2, 0, 8));
    assert!(check_sigaction_error(1 << 2, 8, 0));
    assert!(check_sigaction_error(SIGKILL_FLAG, 8, 8));
    assert!(check_sigaction_error(SIGSTOP_FLAG, 8, 8));
    assert!(!check_sigaction_error(1 << 2, 8, 8));

    let decode = |bytes: Vec<u8>| u64::from_le_bytes(bytes.try_into().unwrap());
    let encode = |action: u64| action.to_le_bytes().to_vec();
    let t = &user_page;
    let m = &memory_byte;
    let mut table = vec![0u64; 32];
    table[2] = 5;
    for (signum, action, old) in [(9, 8, 8), (19, 8, 8), (32, 8, 8), (-1, 8, 8), (2, 0, 8), (2, 8, 0)] {
        let (r, writes) = sys_sigaction(&mut table, signum, action, old, t, m, &decode, &encode, 8);
        assert_eq!(r, -1);
        assert!(writes.is_empty());
    }
    // The new action is unreadable (unmapped page).
    let (r, writes) = sys_sigaction(&mut table, 2, 2 * 4096, 16, t, m, &decode, &encode, 8);
    assert_eq!(r, -14);
    assert!(writes.is_empty());
    // The old action cannot be written (read-only page).
    let (r, writes) = sys_sigaction(&mut table, 2, 8, 4096, t, m, &decode, &encode, 8);
    assert_eq!(r, -14);
    assert!(writes.is_empty());
    assert_eq!(table[2], 5);
    let (r, writes) = sys_sigaction(&mut table, 2, 8, 16, t, m, &decode, &encode, 8);
    assert_eq!(r, 0);
    assert_eq!(table[2], u64::from_le_bytes([0x88, 0x89, 0x8a, 0x8b, 0x8c, 0x8d, 0x8e, 0x8f]));
    assert_eq!(stored_words(&writes), vec![5]);
    assert_eq!((writes[0].span.page, writes[0].span.offset), (PhysPageNum(0x80), 16));
}

#[test]
fn waitpid_reaps_the_first_exited_matching_child() {
    let statuses = vec![
        ChildStatus { pid: 10, zombie: false, exit_code: 0 },
        ChildStatus { pid: 11, zombie: true, exit_code: 3 },
        ChildStatus { pid: 12, zombie: true, exit_code: 4 },
    ];
    assert_eq!(find_waitable_child(&statuses, 99), WaitTarget::NoChild);
    assert_eq!(find_waitable_child(&statuses, 10), WaitTarget::StillRunning);
    assert_eq!(find_waitable_child(&statuses, -1), WaitTarget::Exited(1));
    assert_eq!(find_waitable_child(&statuses, 12), WaitTarget::Exited(2));

    let t = &user_page;
    let mut children = vec!["a", "b", "c"];
    let (r, child, writes) = sys_waitpid(&mut children, &statuses, 99, 0x40, t);
    assert_eq!((r, child, writes.len()), (-1, None, 0));
    let (r, child, writes) = sys_waitpid(&mut children, &statuses, 10, 0x40, t);
    assert_eq!((r, child, writes.len()), (-2, None, 0));
    // The exit code cannot be stored in the read-only page: the child stays.
    let (r, child, writes) = sys_waitpid(&mut children, &statuses, -1, 4096 + 0x40, t);
    assert_eq!((r, child, writes.len()), (-14, None, 0));
    assert_eq!(children.len(), 3);
    let (r, child, writes) = sys_waitpid(&mut children, &statuses, -1, 0x40, t);
    assert_eq!((r, child), (11, Some("b")));
    assert_eq!(children, vec!["a", "c"]);
    assert_eq!(writes.len(), 1);
    assert_eq!((writes[0].span.page, writes[0].span.offset), (PhysPageNum(0x80), 0x40));
    assert_eq!(writes[0].bytes, 3i32.to_le_bytes().to_vec());
}

/// Two readable user pages (virtual pages 0 and 1 at physical pages 0x100
/// and 0x101) holding `pointers` as an array at address 0 and each string,
/// NUL-terminated, at its address.
fn user_image(pointers: &[usize], strings: &[(usize, &str)]) -> Vec<u8> {
    let mut bytes = vec![0u8; 2 * 4096];
    for (index, pointer) in pointers.iter().enumerate() {
        bytes[index * 8..index * 8 + 8].copy_from_slice(&pointer.to_le_bytes());
    }
    for (address, text) in strings {
        bytes[*address..*address + text.len()].copy_from_slice(text.as_bytes());
        bytes[*address + text.len()] = 0;
    }
    bytes
}

fn image_page(vpn: usize) -> Option<PageTableEntry> {
    if vpn < 2 {
        Some(PageTableEntry::new(PhysPageNum(0x100 + vpn), PTEFlags(PTE_V | PTE_R | PTE_U)))
    } else {
        None
    }
}

fn image_reader(bytes: Vec<u8>) -> impl Fn(PhysPageNum, usize) -> u8 {
    move |page: PhysPageNum, offset: usize| bytes[(page.0 - 0x100) * 4096 + offset]
}

#[test]
fn exec_arguments_stop_at_null_and_are_bounded() {
    let strings = [(0x1000, "arg5"), (0x1100, "arg6")];
    let t = &image_page;
    let m = image_reader(user_image(&[0x1000, 0x1100, 0], &strings));
    assert_eq!(collect_exec_args(t, &m, 0), Ok(vec![b"arg5".to_vec(), b"arg6".to_vec()]));
    assert_eq!(collect_exec_args(t, &m, 16), Ok(vec![]));
    // The array runs into an unmapped page.
    assert_eq!(collect_exec_args(t, &m, 2 * 4096 - 4), Err(-14));
    // An entry points into unmapped memory.
    let bad = image_reader(user_image(&[0x1000, 3 * 4096, 0], &strings));
    assert_eq!(collect_exec_args(t, &bad, 0), Err(-14));
    let endless = image_reader(user_image(&[0x1000; 100], &strings));
    assert_eq!(collect_exec_args(t, &endless, 0), Err(-1));
    let mut pointers = vec![0x1000; 64];
    pointers.push(0);
    let full = image_reader(user_image(&pointers, &strings));
    assert_eq!(collect_exec_args(t, &full, 0).unwrap().len(), 64);
}

#[test]
fn exec_reads_path_then_arguments_then_loads() {
    let known = Cell::new(true);
    let loaded = RefCell::new(None);
    let load = |path: Vec<u8>, args: Vec<Vec<u8>>| {
        if known.get() {
            *loaded.borrow_mut() = Some((path, args));
        }
        known.get()
    };
    let t = &image_page;
    let m = image_reader(user_image(&[0x1000, 0x1100, 0], &[(0x1000, "s7"), (0x1100, "s8"), (0x1200, "prog")]));
    assert_eq!(sys_exec(t, &m, &load, 0x1200, 0), 2);
    assert_eq!(*loaded.borrow(), Some((b"prog".to_vec(), vec![b"s7".to_vec(), b"s8".to_vec()])));
    known.set(false);
    assert_eq!(sys_exec(t, &m, &load, 0x1200, 0), -1);
    assert_eq!(sys_exec(t, &m, &load, 0x1200, 2 * 4096), -14);
    known.set(true);
    *loaded.borrow_mut() = None;
    assert_eq!(sys_exec(t, &m, &load, 3 * 4096, 0), -14);
    assert_eq!(*loaded.borrow(), None);
}

#[test]
fn test_cross_uid_denial_and_root_override() {
    const SIGKILL: i32 = 9;
    let mut ring = AuditRing::new();
    let root = ProcessSecurityState::initial();
    // The victim drops to UID 2, the attacker to UID 1; both were forked from root.
    let mut victim = ProcessSecurityState::fork_from(&root);
    assert_eq!(sys_setuid(&mut victim.credentials, 2), 0);
    let mut attacker = ProcessSecurityState::fork_from(&root);
    assert_eq!(sys_setuid(&mut attacker.credentials, 1), 0);
    assert_eq!(sys_getuid(&attacker.credentials), 1);
    let mut victim_pending: u32 = 0;
    assert_eq!(sys_kill(&mut attacker, 11, &mut ring, Some(2), &mut victim_pending, 10, SIGKILL, NOW), -1);
    assert_eq!(victim_pending, 0);
    // The attacker cannot read the audit statistics either; the refusal is recorded.
    let subject = IpcSubject { pid: 11, uid: 1, capabilities: attacker.credentials.capabilities };
    let outcome = read_stats(&ring, &subject, 0x1000, 80, 0).map(|_| 0);
    assert_eq!(finish_control_call(&mut ring, AuditControlOperation::IpcStat, &subject, 0, outcome, NOW), -1);
    // Root may signal across users.
    let mut parent = ProcessSecurityState::fork_from(&root);
    assert_eq!(sys_kill(&mut parent, 1, &mut ring, Some(2), &mut victim_pending, 10, SIGKILL, NOW), 0);
    assert_eq!(victim_pending, 1 << SIGKILL);

    let batch = ring.snapshot(0, 32);
    let records: Vec<_> = (0..batch.len).map(|i| batch.record_at(i).unwrap()).collect();
    assert!(records.iter().any(|r| r.operation == AUDIT_OP_SIGNAL_SEND
        && r.subject_uid == 1
        && r.object_owner_uid == 2
        && r.object_id == 10
        && r.errno == 1));
    assert!(records.iter().any(|r| r.operation == AUDIT_OP_SIGNAL_SEND
        && r.subject_uid == 0
        && r.object_owner_uid == 2
        && r.object_id == 10
        && r.errno == 0
        && r.result_value == 1));
    assert!(records.iter().any(|r| r.operation == AUDIT_OP_IPC_STAT && r.subject_uid == 1 && r.errno == 1));
}

#[test]
fn test_same_uid_signal_and_fork_inheritance() {
    let mut ring = AuditRing::new();
    let root = ProcessSecurityState::initial();
    let mut worker = ProcessSecurityState::fork_from(&root);
    assert_eq!(sys_setuid(&mut worker.credentials, 3), 0);
    let target = ProcessSecurityState::fork_from(&worker);
    assert_eq!(sys_getuid(&target.credentials), 3);
    let mut pending: u32 = 0;
    assert_eq!(sys_kill(&mut worker, 20, &mut ring, Some(target.credentials.uid), &mut pending, 21, 9, NOW), 0);
    let record = ring.snapshot(0, 1).record_at(0).unwrap();
    assert_eq!(
        (record.operation, record.subject_uid, record.object_owner_uid, record.errno, record.result_value),
        (AUDIT_OP_SIGNAL_SEND, 3, 3, 0, 1)
    );
}
