//! Descriptor quota scenarios of a process, driven through the descriptor
//! syscalls: exhaustion, recovery, rollback and fork isolation.

use secure_ipc::fs::File;
use secure_ipc::security::audit::AuditRing;
use secure_ipc::security::quota::{MAX_OPEN_FILES, MAX_OPEN_PIPE_FDS};
use secure_ipc::mm::page_table::{PTEFlags, PageTableEntry, PhysPageNum, UserWrite, PTE_R, PTE_U, PTE_V, PTE_W};
use secure_ipc::security::{IpcObject, ProcessSecurityState};
use secure_ipc::syscall::fs::{install_opened, sys_close, sys_dup, sys_pipe};

const EMFILE: isize = -24;
const ENOSPC: isize = -28;
const INITIAL_FDS: usize = 3;

#[derive(Clone, Debug, PartialEq)]
enum Desc {
    Console,
    Regular,
    PipeEnd(IpcObject, bool),
}

impl File for Desc {
    fn spec_readable(&self) -> bool {
        self.readable()
    }
    fn spec_writable(&self) -> bool {
        self.writable()
    }
    fn spec_ipc_object(&self) -> Option<IpcObject> {
        self.ipc_object()
    }
    fn readable(&self) -> bool {
        !matches!(self, Desc::PipeEnd(_, false))
    }
    fn writable(&self) -> bool {
        !matches!(self, Desc::PipeEnd(_, true))
    }
    fn ipc_object(&self) -> Option<IpcObject> {
        match self {
            Desc::PipeEnd(object, _) => Some(*object),
            _ => None,
        }
    }
}

fn new_pipe(object: IpcObject) -> (Desc, Desc) {
    (Desc::PipeEnd(object, true), Desc::PipeEnd(object, false))
}

/// User page 0 is mapped readable and writable; nothing else is mapped.
fn user_memory(vpn: usize) -> Option<PageTableEntry> {
    if vpn == 0 {
        Some(PageTableEntry::new(PhysPageNum(0x80), PTEFlags(PTE_V | PTE_R | PTE_W | PTE_U)))
    } else {
        None
    }
}

/// The words a copy plan stores, in order.
fn stored_words(writes: &[UserWrite]) -> Vec<usize> {
    let bytes: Vec<u8> = writes.iter().flat_map(|w| w.bytes.iter().copied()).collect();
    bytes.chunks(8).map(|c| usize::from_le_bytes(c.try_into().unwrap())).collect()
}

struct Process {
    table: Vec<Option<Desc>>,
    security: ProcessSecurityState,
}

struct Kernelside {
    ring: AuditRing,
    next_pipe_id: u64,
}

impl Process {
    fn initial() -> Process {
        Process {
            table: vec![Some(Desc::Console), Some(Desc::Console), Some(Desc::Console)],
            security: ProcessSecurityState::initial(),
        }
    }
    fn fork(&self) -> Process {
        Process { table: self.table.clone(), security: ProcessSecurityState::fork_from(&self.security) }
    }
    fn open(&mut self) -> isize {
        install_opened(&mut self.table, &mut self.security, Ok(Some(Desc::Regular)))
    }
    fn dup(&mut self, fd: usize) -> isize {
        sys_dup(&mut self.table, &mut self.security, fd)
    }
    fn close(&mut self, fd: usize) -> isize {
        sys_close(&mut self.table, &mut self.security, fd)
    }
    fn pipe(&mut self, k: &mut Kernelside) -> (isize, [usize; 2]) {
        let (r, writes) =
            sys_pipe(&mut self.table, &mut self.security, &mut k.ring, &mut k.next_pipe_id, &new_pipe, &user_memory, 1, 0x100, 0);
        let words = stored_words(&writes);
        let fds = if words.len() == 2 { [words[0], words[1]] } else { [0, 0] };
        (r, fds)
    }
    fn close_pair(&mut self, pair: [usize; 2]) {
        assert_eq!(self.close(pair[0]), 0);
        assert_eq!(self.close(pair[1]), 0);
    }
}

fn kernel() -> Kernelside {
    Kernelside { ring: AuditRing::new(), next_pipe_id: 1 }
}

#[test]
fn test_open_fd_limit_and_recovery() {
    let mut p = Process::initial();
    let mut fds = Vec::new();
    for _ in 0..MAX_OPEN_FILES - INITIAL_FDS {
        let fd = p.open();
        assert!(fd >= 0);
        fds.push(fd as usize);
    }
    assert_eq!(p.open(), EMFILE);
    assert_eq!(p.close(fds[0]), 0);
    let recovered = p.open();
    assert_eq!(recovered, fds[0] as isize);
    assert_eq!(p.close(recovered as usize), 0);
    for fd in fds.iter().skip(1) {
        assert_eq!(p.close(*fd), 0);
    }
    assert_eq!(p.security.quota.open_files, INITIAL_FDS);
}

#[test]
fn test_dup_fd_limit_and_recovery() {
    let mut p = Process::initial();
    let mut fds = Vec::new();
    for _ in 0..MAX_OPEN_FILES - INITIAL_FDS {
        let fd = p.dup(1);
        assert!(fd >= 0);
        fds.push(fd as usize);
    }
    assert_eq!(p.dup(1), EMFILE);
    assert_eq!(p.close(fds[0]), 0);
    let recovered = p.dup(1);
    assert!(recovered >= 0);
    assert_eq!(p.close(recovered as usize), 0);
    for fd in fds.iter().skip(1) {
        assert_eq!(p.close(*fd), 0);
    }
    assert_eq!(p.security.quota.open_files, INITIAL_FDS);
}

#[test]
fn test_pipe_limit_and_recovery() {
    let mut p = Process::initial();
    let mut k = kernel();
    let mut pipes = Vec::new();
    for _ in 0..MAX_OPEN_PIPE_FDS / 2 {
        let (r, pair) = p.pipe(&mut k);
        assert_eq!(r, 0);
        pipes.push(pair);
    }
    assert_eq!(p.pipe(&mut k).0, ENOSPC);
    p.close_pair(pipes[0]);
    let (r, extra) = p.pipe(&mut k);
    assert_eq!(r, 0);
    p.close_pair(extra);
    for pair in pipes.iter().skip(1) {
        p.close_pair(*pair);
    }
    assert_eq!((p.security.quota.open_files, p.security.quota.open_pipes), (INITIAL_FDS, 0));
}

#[test]
fn test_pipe_emfile_and_rollback() {
    let mut p = Process::initial();
    let mut k = kernel();
    let mut fds = Vec::new();
    for _ in 0..MAX_OPEN_FILES - INITIAL_FDS - 1 {
        let fd = p.dup(1);
        assert!(fd >= 0);
        fds.push(fd as usize);
    }
    assert_eq!(p.pipe(&mut k).0, EMFILE);
    assert_eq!(p.close(fds[0]), 0);
    let (r, pair) = p.pipe(&mut k);
    assert_eq!(r, 0);
    p.close_pair(pair);
    for fd in fds.iter().skip(1) {
        assert_eq!(p.close(*fd), 0);
    }
}

#[test]
fn test_pipe_dup_quota() {
    let mut p = Process::initial();
    let mut k = kernel();
    let (r, pair) = p.pipe(&mut k);
    assert_eq!(r, 0);
    let mut duplicates = Vec::new();
    for _ in 0..MAX_OPEN_PIPE_FDS - 2 {
        let fd = p.dup(pair[0]);
        assert!(fd >= 0);
        duplicates.push(fd as usize);
    }
    assert_eq!(p.dup(pair[0]), ENOSPC);
    assert_eq!(p.close(duplicates[0]), 0);
    let recovered = p.dup(pair[0]);
    assert!(recovered >= 0);
    assert_eq!(p.close(recovered as usize), 0);
    for fd in duplicates.iter().skip(1) {
        assert_eq!(p.close(*fd), 0);
    }
    p.close_pair(pair);
    assert_eq!((p.security.quota.open_files, p.security.quota.open_pipes), (INITIAL_FDS, 0));
}

#[test]
fn test_fork_quota_isolation() {
    let mut parent = Process::initial();
    let mut k = kernel();
    let mut inherited = Vec::new();
    for _ in 0..7 {
        let (r, pair) = parent.pipe(&mut k);
        assert_eq!(r, 0);
        inherited.push(pair);
    }
    let mut child = parent.fork();
    child.close_pair(inherited[0]);
    assert_eq!(child.pipe(&mut k).0, 0);
    assert_eq!(child.pipe(&mut k).0, 0);
    assert_eq!(child.pipe(&mut k).0, ENOSPC);

    let (r, extra) = parent.pipe(&mut k);
    assert_eq!(r, 0);
    assert_eq!(parent.pipe(&mut k).0, ENOSPC);
    parent.close_pair(extra);
    for pair in inherited.iter() {
        parent.close_pair(*pair);
    }
}

#[test]
fn test_concurrent_create_close() {
    let mut parent = Process::initial();
    let mut child = parent.fork();
    let mut k = kernel();
    for _ in 0..32 {
        for p in [&mut parent, &mut child] {
            let (r, pair) = p.pipe(&mut k);
            assert_eq!(r, 0);
            p.close_pair(pair);
        }
    }
    assert_eq!(k.next_pipe_id, 65);
    assert_eq!(k.ring.stats().total_events, 64);
    assert_eq!((parent.security.quota.open_files, parent.security.quota.open_pipes), (INITIAL_FDS, 0));
}
