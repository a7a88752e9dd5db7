//! SV39 page-table entries and walk, and the checks made before the kernel
//! touches user memory: ranges, objects, buffers cut into pages, strings.
//! Page-table and physical memory are read through closures supplied by the
//! kernel; nothing is assumed of what they return.
use vstd::prelude::*;

use crate::security::api::{IpcError, IpcResult};
use crate::security::audit::{le_bytes, lemma_le_bytes_len, push_le};

verus! {

/// Size of a page in bytes.
pub const PAGE_SIZE: usize = 4096;

/// Upper bound (2^38) of the positive user half of the SV39 address space;
/// user ranges must lie strictly below it.
pub const USER_VA_LIMIT: u64 = 0x40_0000_0000;

/// Longest user string (path or argument) the kernel scans.
pub const MAX_STR_LEN: usize = 0x10000;

/// Most entries of an `exec` argument array.
pub const MAX_ARGV: usize = 64;

pub const PTE_V: u8 = 1;
pub const PTE_R: u8 = 2;
pub const PTE_W: u8 = 4;
pub const PTE_X: u8 = 8;
pub const PTE_U: u8 = 16;
pub const PTE_G: u8 = 32;
pub const PTE_A: u8 = 64;
pub const PTE_D: u8 = 128;

/// Flag bits of a page-table entry (V, R, W, X, U, G, A, D from bit 0).
#[derive(Clone, Copy, Debug, PartialEq, Eq, Structural)]
pub struct PTEFlags(pub u8);

impl PTEFlags {
    /// Whether every bit of `other` is set.
    pub fn contains(self, other: PTEFlags) -> (r: bool)
        ensures
            r == (self.0 & other.0 == other.0),
    {
        self.0 & other.0 == other.0
    }
}

/// A physical page number.
#[derive(Clone, Copy, Debug, PartialEq, Eq, Structural)]
pub struct PhysPageNum(pub usize);

/// A page-table entry: physical page number from bit 10, flags in the low
/// 8 bits.
#[derive(Clone, Copy, Debug, PartialEq, Eq, Structural)]
pub struct PageTableEntry {
    pub bits: usize,
}

/// Whether flag bit `flag` is set in the low byte of `bits`.
pub open spec fn has_flag(bits: usize, flag: u8) -> bool {
    (bits as u8) & flag != 0
}

impl PageTableEntry {
    /// Entry mapping `ppn` with `flags`.
    pub fn new(ppn: PhysPageNum, flags: PTEFlags) -> (r: Self)
        ensures
            r.bits == ((ppn.0 << 10usize) | (flags.0 as usize)),
    {
        PageTableEntry { bits: (ppn.0 << 10usize) | (flags.0 as usize) }
    }

    /// The invalid entry.
    pub fn empty() -> (r: Self)
        ensures
            r.bits == 0,
    {
        PageTableEntry { bits: 0 }
    }

    /// The mapped physical page number (44 bits).
    pub fn ppn(&self) -> (r: PhysPageNum)
        ensures
            r.0 == (((self.bits as u64) >> 10u64) & 0xFFF_FFFF_FFFFu64) as usize,
            r.0 <= 0xFFF_FFFF_FFFF,
    {
        let b = self.bits as u64;
        let x = (b >> 10u64) & 0xFFF_FFFF_FFFFu64;
        assert(x <= 0xFFF_FFFF_FFFFu64) by (bit_vector)
            requires
                x == (b >> 10u64) & 0xFFF_FFFF_FFFFu64,
        ;
        PhysPageNum(x as usize)
    }

    /// The flag bits.
    pub fn flags(&self) -> (r: PTEFlags)
        ensures
            r.0 == self.bits as u8,
    {
        PTEFlags(self.bits as u8)
    }

    pub fn is_valid(&self) -> (r: bool)
        ensures
            r == has_flag(self.bits, PTE_V),
    {
        (self.bits as u8) & PTE_V != 0
    }

    pub fn readable(&self) -> (r: bool)
        ensures
            r == has_flag(self.bits, PTE_R),
    {
        (self.bits as u8) & PTE_R != 0
    }

    pub fn writable(&self) -> (r: bool)
        ensures
            r == has_flag(self.bits, PTE_W),
    {
        (self.bits as u8) & PTE_W != 0
    }

    pub fn executable(&self) -> (r: bool)
        ensures
            r == has_flag(self.bits, PTE_X),
    {
        (self.bits as u8) & PTE_X != 0
    }
}

/// Building an entry and reading its flags back gives the flags it was
/// built with.
pub proof fn lemma_entry_flags_roundtrip(ppn: usize, flags: u8)
    ensures
        (((ppn << 10usize) | (flags as usize)) as u8) == flags,
{
    assert((((ppn << 10usize) | (flags as usize)) as u8) == flags) by (bit_vector);
}

/// Page-table index of `vpn` at `level` (0 is the root level): nine bits
/// each, the root level taking the highest ones.
pub open spec fn vpn_index(vpn: usize, level: int) -> usize {
    if level == 0 {
        ((vpn as u64 >> 18u64) & 511u64) as usize
    } else if level == 1 {
        ((vpn as u64 >> 9u64) & 511u64) as usize
    } else {
        ((vpn as u64) & 511u64) as usize
    }
}

/// The three table indexes of a virtual page number, root level first.
pub fn vpn_indexes(vpn: usize) -> (r: (usize, usize, usize))
    ensures
        r.0 == vpn_index(vpn, 0),
        r.1 == vpn_index(vpn, 1),
        r.2 == vpn_index(vpn, 2),
        r.0 < 512 && r.1 < 512 && r.2 < 512,
{
    let v = vpn as u64;
    let a = (v >> 18u64) & 511u64;
    let b = (v >> 9u64) & 511u64;
    let c = v & 511u64;
    assert(a < 512 && b < 512 && c < 512) by (bit_vector)
        requires
            a == (v >> 18u64) & 511u64,
            b == (v >> 9u64) & 511u64,
            c == v & 511u64,
    ;
    (a as usize, b as usize, c as usize)
}

/// The physical page an entry points to.
pub open spec fn entry_ppn(pte: PageTableEntry) -> PhysPageNum {
    PhysPageNum((((pte.bits as u64) >> 10u64) & 0xFFF_FFFF_FFFFu64) as usize)
}

/// Whether an entry has its valid bit.
pub open spec fn entry_valid(pte: PageTableEntry) -> bool {
    has_flag(pte.bits, PTE_V)
}

/// The walk from `root` found `pte` as the last-level entry of `vpn`:
/// both upper-level entries read on the way were valid. The last-level
/// entry itself is returned whatever its flags.
pub open spec fn walk_found<R: Fn(PhysPageNum, usize) -> PageTableEntry>(
    read_pte: R,
    root: PhysPageNum,
    vpn: usize,
    pte: PageTableEntry,
) -> bool {
    exists|e0: PageTableEntry, e1: PageTableEntry|
        #[trigger] call_ensures(read_pte, (root, vpn_index(vpn, 0)), e0) && entry_valid(e0)
            && #[trigger] call_ensures(read_pte, (entry_ppn(e0), vpn_index(vpn, 1)), e1)
            && entry_valid(e1) && call_ensures(read_pte, (entry_ppn(e1), vpn_index(vpn, 2)), pte)
}

/// The walk from `root` stopped at an invalid upper-level entry of `vpn`.
pub open spec fn walk_stopped<R: Fn(PhysPageNum, usize) -> PageTableEntry>(
    read_pte: R,
    root: PhysPageNum,
    vpn: usize,
) -> bool {
    exists|e0: PageTableEntry|
        #[trigger] call_ensures(read_pte, (root, vpn_index(vpn, 0)), e0) && (!entry_valid(e0)
            || exists|e1: PageTableEntry|
            #[trigger] call_ensures(read_pte, (entry_ppn(e0), vpn_index(vpn, 1)), e1)
                && !entry_valid(e1))
}

/// A three-level SV39 page table, known by its root page.
#[derive(Clone, Copy, Debug, PartialEq, Eq, Structural)]
pub struct PageTable {
    pub root_ppn: PhysPageNum,
}

impl PageTable {
    /// The table a `satp` value points to (its low 44 bits).
    pub fn from_token(satp: u64) -> (r: Self)
        requires
            satp & 0xFFF_FFFF_FFFFu64 <= usize::MAX,
        ensures
            r.root_ppn.0 == satp & 0xFFF_FFFF_FFFFu64,
    {
        let root = satp & 0xFFF_FFFF_FFFFu64;
        assert(root <= 0xFFF_FFFF_FFFFu64) by (bit_vector)
            requires
                root == satp & 0xFFF_FFFF_FFFFu64,
        ;
        PageTable { root_ppn: PhysPageNum(root as usize) }
    }

    /// The `satp` value selecting this table in SV39 mode.
    pub fn token(&self) -> (r: u64)
        requires
            self.root_ppn.0 <= 0xFFF_FFFF_FFFF,
        ensures
            r == (8u64 << 60u64) | (self.root_ppn.0 as u64),
    {
        (8u64 << 60u64) | (self.root_ppn.0 as u64)
    }

    /// Find the last-level entry of `vpn`, reading entries with
    /// `read_pte(page, index)`; `None` when an upper-level entry on the way
    /// is not valid. The entry found may itself be invalid.
    pub fn translate<R: Fn(PhysPageNum, usize) -> PageTableEntry>(
        &self,
        read_pte: &R,
        vpn: usize,
    ) -> (r: Option<PageTableEntry>)
        requires
            forall|page: PhysPageNum, index: usize| call_requires(*read_pte, (page, index)),
        ensures
            r matches Some(pte) ==> walk_found(*read_pte, self.root_ppn, vpn, pte),
            r is None ==> walk_stopped(*read_pte, self.root_ppn, vpn),
    {
        let (i0, i1, i2) = vpn_indexes(vpn);
        let e0 = read_pte(self.root_ppn, i0);
        if !e0.is_valid() {
            return None;
        }
        let e1 = read_pte(e0.ppn(), i1);
        if !e1.is_valid() {
            assert(call_ensures(*read_pte, (entry_ppn(e0), vpn_index(vpn, 1)), e1));
            return None;
        }
        let pte = read_pte(e1.ppn(), i2);
        assert(call_ensures(*read_pte, (self.root_ppn, vpn_index(vpn, 0)), e0));
        assert(call_ensures(*read_pte, (entry_ppn(e0), vpn_index(vpn, 1)), e1));
        assert(call_ensures(*read_pte, (entry_ppn(e1), vpn_index(vpn, 2)), pte));
        Some(pte)
    }

    /// Physical address of virtual address `va`: the page found for it
    /// plus the offset within the page.
    pub fn translate_va<R: Fn(PhysPageNum, usize) -> PageTableEntry>(
        &self,
        read_pte: &R,
        va: u64,
    ) -> (r: Option<u64>)
        requires
            forall|page: PhysPageNum, index: usize| call_requires(*read_pte, (page, index)),
            va / 4096 <= usize::MAX,
        ensures
            r matches Some(pa) ==> exists|pte: PageTableEntry|
                walk_found(*read_pte, self.root_ppn, (va / 4096) as usize, pte) && pa
                    == entry_ppn(pte).0 * 4096 + va % 4096,
            r is None ==> walk_stopped(*read_pte, self.root_ppn, (va / 4096) as usize),
    {
        let vpn = (va / 4096) as usize;
        match self.translate(read_pte, vpn) {
            Some(pte) => {
                let page = pte.ppn();
                assert(page == entry_ppn(pte));
                let ppn = page.0 as u64;
                let pa = ppn * 4096 + va % 4096;
                assert(walk_found(*read_pte, self.root_ppn, vpn, pte) && pa == entry_ppn(pte).0 * 4096
                    + va % 4096);
                Some(pa)
            },
            None => None,
        }
    }
}

/// A user page may be accessed by the kernel on behalf of the user: the
/// entry carries `U`, and `W` for a write or `R` for a read.
pub open spec fn page_allows(pte: PageTableEntry, write: bool) -> bool {
    &&& has_flag(pte.bits, PTE_U)
    &&& if write {
        has_flag(pte.bits, PTE_W)
    } else {
        has_flag(pte.bits, PTE_R)
    }
}

/// The translation of page `vpn` was observed to allow the access.
pub open spec fn page_ok<T: Fn(usize) -> Option<PageTableEntry>>(
    translate: T,
    vpn: usize,
    write: bool,
) -> bool {
    exists|pte: PageTableEntry|
        #[trigger] call_ensures(translate, (vpn,), Some(pte)) && page_allows(pte, write)
}

/// The translation of page `vpn` was observed to refuse the access.
pub open spec fn page_refused<T: Fn(usize) -> Option<PageTableEntry>>(
    translate: T,
    vpn: usize,
    write: bool,
) -> bool {
    exists|o: Option<PageTableEntry>|
        #[trigger] call_ensures(translate, (vpn,), o) && !(o is Some && page_allows(o->0, write))
}

/// Check that the user range `[ptr, ptr + len)` may be accessed: the range
/// must not overflow and must lie below `USER_VA_LIMIT`, and every page it
/// touches must be mapped with `U` and with `W` (for `write`) or `R`.
/// `translate` maps a virtual page number to its entry in the user page
/// table. An empty range is always accepted.
#[verifier::spinoff_prover]
pub fn check_user_range<T: Fn(usize) -> Option<PageTableEntry>>(
    translate: &T,
    ptr: usize,
    len: usize,
    write: bool,
) -> (r: bool)
    requires
        forall|vpn: usize| call_requires(*translate, (vpn,)),
    ensures
        len == 0 ==> r,
        len > 0 && (ptr + len > usize::MAX || ptr + len > USER_VA_LIMIT) ==> !r,
        r && len > 0 ==> forall|vpn: usize|
            ptr / PAGE_SIZE <= vpn <= (ptr + len - 1) / (PAGE_SIZE as int) ==> page_ok(*translate, vpn, write),
        !r && len > 0 && ptr + len <= usize::MAX && ptr + len <= USER_VA_LIMIT ==> exists|vpn: usize|
            ptr / PAGE_SIZE <= vpn <= (ptr + len - 1) / (PAGE_SIZE as int) && page_refused(
                *translate,
                vpn,
                write,
            ),
{
    if len == 0 {
        return true;
    }
    let end = match ptr.checked_add(len) {
        Some(end) => end,
        None => return false,
    };
    if ptr as u64 >= USER_VA_LIMIT || end as u64 > USER_VA_LIMIT {
        return false;
    }
    let mut cur = ptr;
    let ghost mut done: int = ptr as int / PAGE_SIZE as int;
    while cur < end
        invariant
            forall|vpn: usize| call_requires(*translate, (vpn,)),
            end == ptr + len,
            len > 0,
            end <= USER_VA_LIMIT,
            ptr <= cur <= end,
            cur == ptr ==> done == ptr / PAGE_SIZE,
            cur > ptr ==> done == (cur - 1) / (PAGE_SIZE as int) + 1,
            cur > ptr && cur < end ==> cur % PAGE_SIZE == 0,
            forall|vpn: usize|
                ptr / PAGE_SIZE <= vpn < done ==> #[trigger] page_ok(*translate, vpn, write),
        decreases end - cur,
    {
        let vpn = cur / PAGE_SIZE;
        let pte = match translate(vpn) {
            Some(pte) => pte,
            None => {
                assert(page_refused(*translate, vpn, write));
                return false;
            },
        };
        let flags = pte.flags();
        let allowed = if !flags.contains(PTEFlags(PTE_U)) {
            false
        } else if write {
            flags.contains(PTEFlags(PTE_W))
        } else {
            flags.contains(PTEFlags(PTE_R))
        };
        proof {
            let b = pte.bits as u8;
            assert((b & 16u8 == 16u8) == (b & 16u8 != 0)) by (bit_vector);
            assert((b & 4u8 == 4u8) == (b & 4u8 != 0)) by (bit_vector);
            assert((b & 2u8 == 2u8) == (b & 2u8 != 0)) by (bit_vector);
        }
        if !allowed {
            assert(page_refused(*translate, vpn, write));
            return false;
        }
        assert(page_ok(*translate, vpn, write));
        let to_page_end = PAGE_SIZE - cur % PAGE_SIZE;
        if end - cur <= to_page_end {
            cur = end;
        } else {
            cur = cur + to_page_end;
        }
        proof {
            done = vpn + 1;
        }
    }
    true
}

/// Shape of a user object that may be referenced in place: non-empty,
/// non-null, aligned, ending below `USER_VA_LIMIT`, inside one page.
pub open spec fn user_object_shape_ok(addr: usize, size: usize, align: usize) -> bool {
    &&& size != 0
    &&& addr != 0
    &&& align != 0
    &&& addr % align == 0
    &&& addr + size <= usize::MAX
    &&& addr + size <= USER_VA_LIMIT
    &&& addr / PAGE_SIZE == (addr + size - 1) / (PAGE_SIZE as int)
}

/// A user object of the right shape whose page allows the access.
pub open spec fn user_object_ok<T: Fn(usize) -> Option<PageTableEntry>>(
    translate: T,
    addr: usize,
    size: usize,
    align: usize,
    write: bool,
) -> bool {
    &&& user_object_shape_ok(addr, size, align)
    &&& page_ok(translate, addr / PAGE_SIZE, write)
}

/// The checks made before the kernel hands out a reference to a user
/// object (`try_translated_ref` and `try_translated_refmut`): the object
/// must be non-empty, non-null and aligned, end below `USER_VA_LIMIT`, lie
/// within one page (pages need not be physically contiguous), and that page
/// must allow the access.
pub fn check_user_object<T: Fn(usize) -> Option<PageTableEntry>>(
    translate: &T,
    addr: usize,
    size: usize,
    align: usize,
    write: bool,
) -> (r: bool)
    requires
        forall|vpn: usize| call_requires(*translate, (vpn,)),
    ensures
        r ==> user_object_ok(*translate, addr, size, align, write),
        !user_object_shape_ok(addr, size, align) ==> !r,
        !r && user_object_shape_ok(addr, size, align) ==> page_refused(
            *translate,
            addr / PAGE_SIZE,
            write,
        ),
{
    if size == 0 || addr == 0 || align == 0 || addr % align != 0 {
        return false;
    }
    let end = match addr.checked_add(size) {
        Some(end) => end,
        None => return false,
    };
    if end as u64 > USER_VA_LIMIT {
        return false;
    }
    if addr / PAGE_SIZE != (end - 1) / PAGE_SIZE {
        return false;
    }
    let ok = check_user_range(translate, addr, size, write);
    proof {
        if ok {
            assert(page_ok(*translate, addr / PAGE_SIZE, write));
        } else {
            let vpn = choose|vpn: usize|
                addr / PAGE_SIZE <= vpn <= (addr + size - 1) / (PAGE_SIZE as int) && page_refused(
                    *translate,
                    vpn,
                    write,
                );
            assert(vpn == addr / PAGE_SIZE);
        }
    }
    ok
}

/// Virtual page number of an address.
pub open spec fn page_of(addr: int) -> usize {
    (addr / PAGE_SIZE as int) as usize
}

/// Offset of an address within its page.
pub open spec fn offset_of(addr: int) -> usize {
    (addr % PAGE_SIZE as int) as usize
}

/// The byte at user address `addr` was read, as `b`, from the page that the
/// translation of its virtual page gave, and that page allows reading.
pub open spec fn byte_seen<T: Fn(usize) -> Option<PageTableEntry>, B: Fn(PhysPageNum, usize) -> u8>(
    translate: T,
    read_byte: B,
    addr: int,
    b: u8,
) -> bool {
    exists|pte: PageTableEntry|
        #[trigger] call_ensures(translate, (page_of(addr),), Some(pte)) && page_allows(pte, false)
            && call_ensures(read_byte, (entry_ppn(pte), offset_of(addr)), b)
}

/// `s` holds non-zero bytes seen at `start`, `start + 1`, ...
pub open spec fn bytes_seen<T: Fn(usize) -> Option<PageTableEntry>, B: Fn(PhysPageNum, usize) -> u8>(
    translate: T,
    read_byte: B,
    start: int,
    s: Seq<u8>,
) -> bool {
    forall|i: int|
        #![trigger s[i]]
        0 <= i < s.len() ==> s[i] != 0 && byte_seen(translate, read_byte, start + i, s[i])
}

/// The bounds a string scan starts from are unusable: a null start, no
/// room, or a scan limit that overflows or leaves the user half.
pub open spec fn string_scan_refused(start: usize, max_len: usize) -> bool {
    ||| start == 0
    ||| max_len == 0
    ||| start + max_len > usize::MAX
    ||| start + max_len > USER_VA_LIMIT
}

/// `s` was read as the NUL-terminated user string at `start`: fewer than
/// `max_len` non-zero bytes, then a zero byte.
pub open spec fn string_read<T: Fn(usize) -> Option<PageTableEntry>, B: Fn(PhysPageNum, usize) -> u8>(
    translate: T,
    read_byte: B,
    start: usize,
    max_len: usize,
    s: Seq<u8>,
) -> bool {
    &&& s.len() < max_len
    &&& bytes_seen(translate, read_byte, start as int, s)
    &&& byte_seen(translate, read_byte, start + s.len(), 0)
}

/// No user string could be read at `start`: the bounds are unusable, or
/// the scan met a page that refuses reading before a terminator, or found
/// `max_len` non-zero bytes.
pub open spec fn string_unread<T: Fn(usize) -> Option<PageTableEntry>, B: Fn(PhysPageNum, usize) -> u8>(
    translate: T,
    read_byte: B,
    start: usize,
    max_len: usize,
) -> bool {
    ||| string_scan_refused(start, max_len)
    ||| exists|s: Seq<u8>|
        #[trigger] bytes_seen(translate, read_byte, start as int, s) && {
            ||| s.len() == max_len
            ||| s.len() < max_len && page_refused(translate, page_of(start + s.len()), false)
        }
}

/// Load a NUL-terminated user string of fewer than `max_len` bytes at
/// `start`. Pages are checked as the scan reaches them (mapped, `U`, `R`),
/// so a short string needs nothing mapped after its terminator: `None`
/// comes only from unusable bounds, from a page refusing reading at the
/// first byte not yet scanned (every byte before it seen and non-zero), or
/// from `max_len` non-zero bytes; otherwise the result is the bytes before
/// the terminator. `read_byte(page, offset)` reads physical memory.
#[verifier::spinoff_prover]
pub fn try_translated_str<T: Fn(usize) -> Option<PageTableEntry>, B: Fn(PhysPageNum, usize) -> u8>(
    translate: &T,
    read_byte: &B,
    start: usize,
    max_len: usize,
) -> (r: Option<Vec<u8>>)
    requires
        forall|vpn: usize| call_requires(*translate, (vpn,)),
        forall|page: PhysPageNum, offset: usize| call_requires(*read_byte, (page, offset)),
    ensures
        string_scan_refused(start, max_len) ==> r is None,
        r matches Some(s) ==> string_read(*translate, *read_byte, start, max_len, s@),
        r is None ==> string_unread(*translate, *read_byte, start, max_len),
        r is None && !string_scan_refused(start, max_len) ==> exists|s: Seq<u8>|
            #[trigger] bytes_seen(*translate, *read_byte, start as int, s) && {
                ||| s.len() == max_len
                ||| s.len() < max_len && page_refused(*translate, page_of(start + s.len()), false)
            },
{
    if start == 0 || max_len == 0 {
        return None;
    }
    let limit = match start.checked_add(max_len) {
        Some(limit) => limit,
        None => return None,
    };
    if limit as u64 > USER_VA_LIMIT {
        return None;
    }
    let mut out: Vec<u8> = Vec::new();
    let mut cur = start;
    while cur < limit
        invariant
            forall|vpn: usize| call_requires(*translate, (vpn,)),
            forall|page: PhysPageNum, offset: usize| call_requires(*read_byte, (page, offset)),
            !string_scan_refused(start, max_len),
            limit == start + max_len,
            start <= cur <= limit,
            out@.len() == cur - start,
            bytes_seen(*translate, *read_byte, start as int, out@),
        decreases limit - cur,
    {
        let vpn = cur / PAGE_SIZE;
        assert(page_of(start + (cur - start)) == vpn);
        let pte = match translate(vpn) {
            Some(pte) => pte,
            None => {
                assert(page_refused(*translate, page_of(start + (cur - start)), false));
                return None;
            },
        };
        if (pte.bits as u8) & PTE_U == 0 || (pte.bits as u8) & PTE_R == 0 {
            assert(page_refused(*translate, page_of(start + (cur - start)), false));
            return None;
        }
        let page = pte.ppn();
        assert(page == entry_ppn(pte));
        let offset = cur % PAGE_SIZE;
        let to_page_end = PAGE_SIZE - offset;
        let chunk = if limit - cur < to_page_end {
            limit - cur
        } else {
            to_page_end
        };
        let mut j: usize = 0;
        while j < chunk
            invariant
                forall|vpn: usize| call_requires(*translate, (vpn,)),
                forall|page: PhysPageNum, offset: usize| call_requires(*read_byte, (page, offset)),
                !string_scan_refused(start, max_len),
                limit == start + max_len,
                start <= cur < limit,
                offset == cur % PAGE_SIZE,
                vpn == cur / PAGE_SIZE,
                chunk <= PAGE_SIZE - offset,
                chunk <= limit - cur,
                j <= chunk,
                call_ensures(*translate, (vpn,), Some(pte)),
                page_allows(pte, false),
                page == entry_ppn(pte),
                out@.len() == cur + j - start,
                bytes_seen(*translate, *read_byte, start as int, out@),
            decreases chunk - j,
        {
            let b = read_byte(page, offset + j);
            let ghost addr = cur + j;
            assert(page_of(addr) == vpn && offset_of(addr) == offset + j) by {
                assert(cur == vpn * PAGE_SIZE + offset);
            }
            assert(byte_seen(*translate, *read_byte, addr, b));
            if b == 0 {
                assert(start + out@.len() == addr);
                return Some(out);
            }
            let ghost before = out@;
            out.push(b);
            assert(bytes_seen(*translate, *read_byte, start as int, out@)) by {
                assert forall|i: int| 0 <= i < out@.len() implies out@[i] != 0 && byte_seen(
                    *translate,
                    *read_byte,
                    start + i,
                    out@[i],
                ) by {
                    if i < before.len() {
                        assert(out@[i] == before[i]);
                    } else {
                        assert(start + i == addr);
                    }
                }
            }
            j = j + 1;
        }
        cur = cur + chunk;
    }
    assert(out@.len() == max_len);
    assert(bytes_seen(*translate, *read_byte, start as int, out@));
    None
}

/// A piece of a user buffer that lies inside one physical page.
#[derive(Clone, Copy, Debug, PartialEq, Eq, Structural)]
pub struct PageSpan {
    pub page: PhysPageNum,
    pub offset: usize,
    pub len: usize,
}

/// User address where span `i` starts when the spans follow each other
/// from `ptr`.
pub open spec fn span_addr(spans: Seq<PageSpan>, ptr: int, i: int) -> int
    decreases i,
{
    if i <= 0 {
        ptr
    } else {
        span_addr(spans, ptr, i - 1) + spans[i - 1].len
    }
}

proof fn lemma_span_addr_push(spans: Seq<PageSpan>, span: PageSpan, ptr: int, i: int)
    requires
        0 <= i <= spans.len(),
    ensures
        span_addr(spans.push(span), ptr, i) == span_addr(spans, ptr, i),
    decreases i,
{
    if i > 0 {
        lemma_span_addr_push(spans, span, ptr, i - 1);
    }
}

/// Span `i` is the part of the buffer `[ptr, ptr + len)` inside one page:
/// it starts where the previous span ended, runs to the end of its page or
/// of the buffer, and its physical page is what the translation gave for
/// that virtual page, which allows the access.
pub open spec fn span_ok<T: Fn(usize) -> Option<PageTableEntry>>(
    translate: T,
    spans: Seq<PageSpan>,
    ptr: int,
    len: int,
    write: bool,
    i: int,
) -> bool {
    let a = span_addr(spans, ptr, i);
    &&& spans[i].offset == offset_of(a)
    &&& spans[i].len > 0
    &&& spans[i].offset + spans[i].len == vstd::math::min(PAGE_SIZE as int, offset_of(a) + (ptr + len - a))
    &&& exists|pte: PageTableEntry|
        #[trigger] call_ensures(translate, (page_of(a),), Some(pte)) && page_allows(pte, write)
            && entry_ppn(pte) == spans[i].page
}

/// `spans` cut the buffer `[ptr, ptr + len)` into its pieces, one per page,
/// in order.
pub open spec fn spans_cover<T: Fn(usize) -> Option<PageTableEntry>>(
    translate: T,
    spans: Seq<PageSpan>,
    ptr: int,
    len: int,
    write: bool,
) -> bool {
    &&& span_addr(spans, ptr, spans.len() as int) == ptr + len
    &&& forall|i: int|
        #![trigger spans[i]]
        0 <= i < spans.len() ==> span_ok(translate, spans, ptr, len, write, i)
}

/// The buffer bounds are unusable: the end overflows or leaves the user half.
pub open spec fn user_range_out_of_bounds(ptr: usize, len: usize) -> bool {
    len > 0 && (ptr + len > usize::MAX || ptr + len > USER_VA_LIMIT)
}

/// Every translation of page `vpn` refuses the access: the page is not
/// mapped, or its entry lacks `U` or the needed `W`/`R`.
pub open spec fn page_denied<T: Fn(usize) -> Option<PageTableEntry>>(
    translate: T,
    vpn: usize,
    write: bool,
) -> bool {
    forall|o: Option<PageTableEntry>|
        #[trigger] call_ensures(translate, (vpn,), o) ==> !(o is Some && page_allows(o->0, write))
}

/// The user range `[ptr, ptr + len)` cannot be accessed: its bounds are
/// unusable, or a page it touches refuses the access.
pub open spec fn user_range_denied<T: Fn(usize) -> Option<PageTableEntry>>(
    translate: T,
    ptr: usize,
    len: usize,
    write: bool,
) -> bool {
    ||| user_range_out_of_bounds(ptr, len)
    ||| exists|k: int| 0 <= k < len && #[trigger] page_denied(translate, page_of(ptr + k), write)
}

/// The user range `[ptr, ptr + len)` was seen to be inaccessible: its
/// bounds are unusable, or the translation of a page it touches refused
/// the access.
pub open spec fn user_range_refused<T: Fn(usize) -> Option<PageTableEntry>>(
    translate: T,
    ptr: usize,
    len: usize,
    write: bool,
) -> bool {
    ||| user_range_out_of_bounds(ptr, len)
    ||| exists|k: int| 0 <= k < len && #[trigger] page_refused(translate, page_of(ptr + k), write)
}

/// Cut the user buffer `[ptr, ptr + len)` into per-page pieces of physical
/// memory, checking each page as `check_user_range` does (mapped, `U`, and
/// `W` for a kernel write or `R` for a kernel read). `None` when the bounds
/// are unusable or a page refuses the access.
#[verifier::spinoff_prover]
pub fn try_translated_byte_buffer<T: Fn(usize) -> Option<PageTableEntry>>(
    translate: &T,
    ptr: usize,
    len: usize,
    write: bool,
) -> (r: Option<Vec<PageSpan>>)
    requires
        forall|vpn: usize| call_requires(*translate, (vpn,)),
    ensures
        len == 0 ==> (r matches Some(spans) && spans@.len() == 0),
        user_range_out_of_bounds(ptr, len) ==> r is None,
        r matches Some(spans) ==> spans_cover(*translate, spans@, ptr as int, len as int, write),
        r is Some ==> forall|k: int|
            0 <= k < len ==> #[trigger] page_ok(*translate, page_of(ptr + k), write),
        user_range_denied(*translate, ptr, len, write) ==> r is None,
        r is None && !user_range_out_of_bounds(ptr, len) ==> exists|k: int|
            0 <= k < len && #[trigger] page_refused(*translate, page_of(ptr + k), write),
{
    let mut spans: Vec<PageSpan> = Vec::new();
    if len == 0 {
        return Some(spans);
    }
    let end = match ptr.checked_add(len) {
        Some(end) => end,
        None => return None,
    };
    if end as u64 > USER_VA_LIMIT {
        return None;
    }
    let mut cur = ptr;
    while cur < end
        invariant
            forall|vpn: usize| call_requires(*translate, (vpn,)),
            end == ptr + len,
            len > 0,
            !user_range_out_of_bounds(ptr, len),
            ptr <= cur <= end,
            span_addr(spans@, ptr as int, spans@.len() as int) == cur,
            forall|i: int|
                #![trigger spans@[i]]
                0 <= i < spans@.len() ==> span_ok(*translate, spans@, ptr as int, len as int, write, i),
            forall|k: int|
                0 <= k < cur - ptr ==> #[trigger] page_ok(*translate, page_of(ptr + k), write),
        decreases end - cur,
    {
        let vpn = cur / PAGE_SIZE;
        assert(page_of(ptr + (cur - ptr)) == vpn);
        let pte = match translate(vpn) {
            Some(pte) => pte,
            None => {
                assert(page_refused(*translate, page_of(ptr + (cur - ptr)), write));
                return None;
            },
        };
        let allowed = if (pte.bits as u8) & PTE_U == 0 {
            false
        } else if write {
            (pte.bits as u8) & PTE_W != 0
        } else {
            (pte.bits as u8) & PTE_R != 0
        };
        if !allowed {
            assert(page_refused(*translate, page_of(ptr + (cur - ptr)), write));
            return None;
        }
        let page = pte.ppn();
        assert(page == entry_ppn(pte));
        let offset = cur % PAGE_SIZE;
        let to_page_end = PAGE_SIZE - offset;
        let piece = if end - cur < to_page_end {
            end - cur
        } else {
            to_page_end
        };
        let span = PageSpan { page, offset, len: piece };
        let ghost before = spans@;
        spans.push(span);
        proof {
            assert(offset_of(cur as int) == offset && page_of(cur as int) == vpn);
            assert forall|i: int|
                #![trigger spans@[i]]
                0 <= i < spans@.len() implies span_ok(
                *translate,
                spans@,
                ptr as int,
                len as int,
                write,
                i,
            ) by {
                lemma_span_addr_push(before, span, ptr as int, i);
                if i < before.len() {
                    assert(spans@[i] == before[i]);
                    assert(span_ok(*translate, before, ptr as int, len as int, write, i));
                } else {
                    assert(spans@[i] == span);
                    assert(span_addr(spans@, ptr as int, i) == cur);
                    assert(call_ensures(*translate, (page_of(cur as int),), Some(pte)));
                }
            }
            lemma_span_addr_push(before, span, ptr as int, before.len() as int);
            assert(page_ok(*translate, vpn, write));
            assert forall|k: int|
                0 <= k < cur + piece - ptr implies #[trigger] page_ok(
                *translate,
                page_of(ptr + k),
                write,
            ) by {
                if k >= cur - ptr {
                    assert(page_of(ptr + k) == vpn);
                }
            }
        }
        cur = cur + piece;
    }
    proof {
        if user_range_denied(*translate, ptr, len, write) {
            let k = choose|k: int|
                0 <= k < len && #[trigger] page_denied(*translate, page_of(ptr + k), write);
            assert(page_ok(*translate, page_of(ptr + k), write));
        }
    }
    Some(spans)
}

/// Total length of a list of spans.
pub open spec fn total_len(spans: Seq<PageSpan>) -> nat
    decreases spans.len(),
{
    if spans.len() == 0 {
        0
    } else {
        total_len(spans.drop_last()) + spans.last().len as nat
    }
}

/// Spans laid end to end from `ptr` reach `ptr` plus their total length.
pub proof fn lemma_span_addr_total(spans: Seq<PageSpan>, ptr: int)
    ensures
        span_addr(spans, ptr, spans.len() as int) == ptr + total_len(spans),
    decreases spans.len(),
{
    if spans.len() > 0 {
        let init = spans.drop_last();
        lemma_span_addr_total(init, ptr);
        lemma_span_addr_prefix(spans, init, ptr, init.len() as int);
    }
}

proof fn lemma_span_addr_prefix(spans: Seq<PageSpan>, prefix: Seq<PageSpan>, ptr: int, i: int)
    requires
        0 <= i <= prefix.len() <= spans.len(),
        forall|j: int| 0 <= j < prefix.len() ==> prefix[j] == spans[j],
    ensures
        span_addr(spans, ptr, i) == span_addr(prefix, ptr, i),
    decreases i,
{
    if i > 0 {
        lemma_span_addr_prefix(spans, prefix, ptr, i - 1);
    }
}

/// A user buffer as the pieces of physical memory it occupies.
#[derive(Debug)]
pub struct UserBuffer {
    pub buffers: Vec<PageSpan>,
}

impl UserBuffer {
    pub fn new(buffers: Vec<PageSpan>) -> (r: Self)
        ensures
            r.buffers@ == buffers@,
    {
        UserBuffer { buffers }
    }

    /// Number of bytes in the buffer; for the spans of a checked range it
    /// is the length of the range.
    pub fn len(&self) -> (r: usize)
        requires
            total_len(self.buffers@) <= usize::MAX,
        ensures
            r == total_len(self.buffers@),
    {
        let mut total: usize = 0;
        let mut i: usize = 0;
        while i < self.buffers.len()
            invariant
                i <= self.buffers@.len(),
                total == total_len(self.buffers@.take(i as int)),
                total_len(self.buffers@) <= usize::MAX,
            decreases self.buffers@.len() - i,
        {
            proof {
                assert(self.buffers@.take(i + 1).drop_last() =~= self.buffers@.take(i as int));
                lemma_total_len_prefix(self.buffers@, i + 1);
            }
            total = total + self.buffers[i].len;
            i = i + 1;
        }
        assert(self.buffers@.take(i as int) =~= self.buffers@);
        total
    }
}

proof fn lemma_total_len_prefix(spans: Seq<PageSpan>, k: int)
    requires
        0 <= k <= spans.len(),
    ensures
        total_len(spans.take(k)) <= total_len(spans),
    decreases spans.len() - k,
{
    if k < spans.len() {
        lemma_total_len_prefix(spans, k + 1);
        assert(spans.take(k + 1).drop_last() =~= spans.take(k));
    } else {
        assert(spans.take(k) =~= spans);
    }
}

/// The spans of a checked buffer add up to its length.
pub proof fn lemma_spans_cover_len<T: Fn(usize) -> Option<PageTableEntry>>(
    translate: T,
    spans: Seq<PageSpan>,
    ptr: int,
    len: int,
    write: bool,
)
    requires
        spans_cover(translate, spans, ptr, len, write),
    ensures
        total_len(spans) == len,
{
    lemma_span_addr_total(spans, ptr);
}

/// Read the user buffer `[src, src + size)` into the kernel: the range must
/// be readable user memory (`InvalidAddress` otherwise), and is gathered
/// page by page through `read_byte(page, offset)`. An empty buffer gives no
/// bytes.
#[verifier::spinoff_prover]
#[verifier::rlimit(40)]
pub fn copy_bytes_from_user<T: Fn(usize) -> Option<PageTableEntry>, B: Fn(PhysPageNum, usize) -> u8>(
    translate: &T,
    read_byte: &B,
    src: usize,
    size: usize,
) -> (r: IpcResult<Vec<u8>>)
    requires
        forall|vpn: usize| call_requires(*translate, (vpn,)),
        forall|page: PhysPageNum, offset: usize| call_requires(*read_byte, (page, offset)),
    ensures
        size == 0 ==> (r matches Ok(bytes) && bytes@.len() == 0),
        user_range_out_of_bounds(src, size) ==> r == Err::<Vec<u8>, IpcError>(
            IpcError::InvalidAddress,
        ),
        r is Err ==> r == Err::<Vec<u8>, IpcError>(IpcError::InvalidAddress),
        user_range_denied(*translate, src, size, false) ==> r is Err,
        r is Err && !user_range_out_of_bounds(src, size) ==> exists|k: int|
            0 <= k < size && #[trigger] page_refused(*translate, page_of(src + k), false),
        r matches Ok(bytes) ==> bytes@.len() == size && forall|i: int|
            0 <= i < size ==> #[trigger] byte_seen(*translate, *read_byte, src + i, bytes@[i]),
{
    let spans = match try_translated_byte_buffer(translate, src, size, false) {
        Some(spans) => spans,
        None => return Err(IpcError::InvalidAddress),
    };
    let mut out: Vec<u8> = Vec::new();
    let mut i: usize = 0;
    while i < spans.len()
        invariant
            forall|page: PhysPageNum, offset: usize| call_requires(*read_byte, (page, offset)),
            spans_cover(*translate, spans@, src as int, size as int, false),
            i <= spans@.len(),
            src + out@.len() == span_addr(spans@, src as int, i as int),
            forall|k: int|
                0 <= k < out@.len() ==> #[trigger] byte_seen(*translate, *read_byte, src + k, out@[k]),
        decreases spans@.len() - i,
    {
        let span = spans[i];
        assert(span_ok(*translate, spans@, src as int, size as int, false, i as int));
        let ghost a = span_addr(spans@, src as int, i as int);
        let mut j: usize = 0;
        while j < span.len
            invariant
                forall|page: PhysPageNum, offset: usize| call_requires(*read_byte, (page, offset)),
                span_ok(*translate, spans@, src as int, size as int, false, i as int),
                span == spans@[i as int],
                a == span_addr(spans@, src as int, i as int),
                j <= span.len,
                src + out@.len() == a + j,
                forall|k: int|
                    0 <= k < out@.len() ==> #[trigger] byte_seen(
                        *translate,
                        *read_byte,
                        src + k,
                        out@[k],
                    ),
            decreases span.len - j,
        {
            let b = read_byte(span.page, span.offset + j);
            proof {
                let pte = choose|pte: PageTableEntry|
                    #[trigger] call_ensures(*translate, (page_of(a),), Some(pte)) && page_allows(
                        pte,
                        false,
                    ) && entry_ppn(pte) == span.page;
                assert(page_of(a + j) == page_of(a) && offset_of(a + j) == span.offset + j) by {
                    assert(a == page_of(a) * PAGE_SIZE + offset_of(a));
                }
                assert(byte_seen(*translate, *read_byte, a + j, b));
            }
            let ghost before = out@;
            out.push(b);
            assert forall|k: int| 0 <= k < out@.len() implies #[trigger] byte_seen(
                *translate,
                *read_byte,
                src + k,
                out@[k],
            ) by {
                if k < before.len() {
                    assert(out@[k] == before[k]);
                }
            }
            j = j + 1;
        }
        i = i + 1;
    }
    proof {
        lemma_spans_cover_len(*translate, spans@, src as int, size as int, false);
        lemma_span_addr_total(spans@, src as int);
    }
    Ok(out)
}

/// Read `size` bytes of user memory at `src`, as the kernel reads a plain
/// value from user space: an empty value is refused with `InvalidArgument`;
/// otherwise as `copy_bytes_from_user`.
pub fn copy_from_user<T: Fn(usize) -> Option<PageTableEntry>, B: Fn(PhysPageNum, usize) -> u8>(
    translate: &T,
    read_byte: &B,
    src: usize,
    size: usize,
) -> (r: IpcResult<Vec<u8>>)
    requires
        forall|vpn: usize| call_requires(*translate, (vpn,)),
        forall|page: PhysPageNum, offset: usize| call_requires(*read_byte, (page, offset)),
    ensures
        size == 0 ==> r == Err::<Vec<u8>, IpcError>(IpcError::InvalidArgument),
        size > 0 && user_range_out_of_bounds(src, size) ==> r == Err::<Vec<u8>, IpcError>(
            IpcError::InvalidAddress,
        ),
        size > 0 && r is Err ==> r == Err::<Vec<u8>, IpcError>(IpcError::InvalidAddress),
        user_range_denied(*translate, src, size, false) ==> r is Err,
        size > 0 && r is Err && !user_range_out_of_bounds(src, size) ==> exists|k: int|
            0 <= k < size && #[trigger] page_refused(*translate, page_of(src + k), false),
        r matches Ok(bytes) ==> bytes@.len() == size && forall|i: int|
            0 <= i < size ==> #[trigger] byte_seen(*translate, *read_byte, src + i, bytes@[i]),
{
    if size == 0 {
        return Err(IpcError::InvalidArgument);
    }
    copy_bytes_from_user(translate, read_byte, src, size)
}

/// A piece of a copy to user memory: bytes to store at one page and offset.
#[derive(Debug)]
pub struct UserWrite {
    pub span: PageSpan,
    pub bytes: Vec<u8>,
}

/// The spans of a list of pieces.
pub open spec fn write_spans(writes: Seq<UserWrite>) -> Seq<PageSpan> {
    writes.map_values(|w: UserWrite| w.span)
}

/// `writes` store `bytes` at user address `dst`: their spans cut the range
/// `[dst, dst + len)` into its writable pages, in order, and each piece
/// carries the bytes that belong at its span.
pub open spec fn copy_plan<T: Fn(usize) -> Option<PageTableEntry>>(
    translate: T,
    writes: Seq<UserWrite>,
    dst: usize,
    bytes: Seq<u8>,
) -> bool {
    &&& spans_cover(translate, write_spans(writes), dst as int, bytes.len() as int, true)
    &&& forall|i: int|
        #![trigger writes[i]]
        0 <= i < writes.len() ==> {
            let from = span_addr(write_spans(writes), dst as int, i) - dst;
            writes[i].bytes@ == bytes.subrange(from, from + writes[i].span.len)
        }
}

/// Where the bytes of a copy to user memory at `dst` go, as the kernel
/// stores a plain value in user space: an empty value is refused with
/// `InvalidArgument`; the range must be writable user memory
/// (`InvalidAddress` otherwise); then `bytes` is cut into one piece per
/// page, in order, for the caller to store at each physical page.
#[verifier::spinoff_prover]
pub fn plan_copy_to_user<T: Fn(usize) -> Option<PageTableEntry>>(
    translate: &T,
    dst: usize,
    bytes: &[u8],
) -> (r: IpcResult<Vec<UserWrite>>)
    requires
        forall|vpn: usize| call_requires(*translate, (vpn,)),
    ensures
        bytes@.len() == 0 ==> r == Err::<Vec<UserWrite>, IpcError>(IpcError::InvalidArgument),
        bytes@.len() > 0 && user_range_out_of_bounds(dst, bytes@.len() as usize) ==> r == Err::<
            Vec<UserWrite>,
            IpcError,
        >(IpcError::InvalidAddress),
        bytes@.len() > 0 && r is Err ==> r == Err::<Vec<UserWrite>, IpcError>(
            IpcError::InvalidAddress,
        ),
        bytes@.len() > 0 && r is Err && !user_range_out_of_bounds(dst, bytes@.len() as usize)
            ==> exists|k: int|
            0 <= k < bytes@.len() && #[trigger] page_refused(*translate, page_of(dst + k), true),
        user_range_denied(*translate, dst, bytes@.len() as usize, true) ==> r is Err,
        r matches Ok(writes) ==> copy_plan(*translate, writes@, dst, bytes@),
{
    let size = bytes.len();
    if size == 0 {
        return Err(IpcError::InvalidArgument);
    }
    let spans = match try_translated_byte_buffer(translate, dst, size, true) {
        Some(spans) => spans,
        None => return Err(IpcError::InvalidAddress),
    };
    proof {
        lemma_spans_cover_len(*translate, spans@, dst as int, size as int, true);
    }
    let mut writes: Vec<UserWrite> = Vec::new();
    let mut start: usize = 0;
    let mut i: usize = 0;
    while i < spans.len()
        invariant
            spans_cover(*translate, spans@, dst as int, size as int, true),
            size == bytes@.len(),
            i <= spans@.len(),
            writes@.len() == i,
            forall|k: int| #![trigger writes@[k]] 0 <= k < i ==> writes@[k].span == spans@[k],
            dst + start == span_addr(spans@, dst as int, i as int),
            forall|k: int|
                #![trigger writes@[k]]
                0 <= k < i ==> {
                    let from = span_addr(spans@, dst as int, k) - dst;
                    writes@[k].bytes@ == bytes@.subrange(from, from + spans@[k].len)
                },
        decreases spans@.len() - i,
    {
        let span = spans[i];
        assert(span_ok(*translate, spans@, dst as int, size as int, true, i as int));
        proof {
            lemma_span_addr_bounded(spans@, dst as int, size as int, i as int);
        }
        let end = start + span.len;
        let mut piece: Vec<u8> = Vec::new();
        let mut j = start;
        while j < end
            invariant
                start <= j <= end,
                end <= bytes@.len(),
                piece@ == bytes@.subrange(start as int, j as int),
            decreases end - j,
        {
            piece.push(bytes[j]);
            j = j + 1;
            assert(piece@ =~= bytes@.subrange(start as int, j as int));
        }
        writes.push(UserWrite { span, bytes: piece });
        start = end;
        i = i + 1;
    }
    assert(write_spans(writes@) =~= spans@);
    Ok(writes)
}

/// Where the `n`-byte little-endian form of `value` goes when the kernel
/// stores it at user address `dst`, as `plan_copy_to_user` plans it: the
/// range `[dst, dst + n)` must be writable user memory, else
/// `InvalidAddress` (always when it cannot be written).
pub fn plan_store_le<T: Fn(usize) -> Option<PageTableEntry>>(
    translate: &T,
    dst: usize,
    value: u64,
    n: usize,
) -> (r: IpcResult<Vec<UserWrite>>)
    requires
        forall|vpn: usize| call_requires(*translate, (vpn,)),
        0 < n <= 8,
    ensures
        r matches Ok(writes) ==> copy_plan(*translate, writes@, dst, le_bytes(value as nat, n as nat)),
        r is Err ==> r == Err::<Vec<UserWrite>, IpcError>(IpcError::InvalidAddress),
        user_range_denied(*translate, dst, n, true) ==> r is Err,
        r is Err && !user_range_out_of_bounds(dst, n) ==> exists|k: int|
            0 <= k < n && #[trigger] page_refused(*translate, page_of(dst + k), true),
{
    let mut bytes: Vec<u8> = Vec::new();
    push_le(&mut bytes, value, n);
    proof {
        lemma_le_bytes_len(value as nat, n as nat);
        assert(bytes@ =~= le_bytes(value as nat, n as nat));
    }
    plan_copy_to_user(translate, dst, bytes.as_slice())
}

/// Every address of span `i` lies in the page whose translation gave the
/// span, which allows the access.
pub proof fn lemma_span_page_ok<T: Fn(usize) -> Option<PageTableEntry>>(
    translate: T,
    spans: Seq<PageSpan>,
    ptr: int,
    len: int,
    write: bool,
    i: int,
    x: int,
)
    requires
        0 <= ptr,
        0 <= i < spans.len(),
        span_ok(translate, spans, ptr, len, write, i),
        span_addr(spans, ptr, i) <= x < span_addr(spans, ptr, i) + spans[i].len,
    ensures
        page_ok(translate, page_of(x), write),
{
    let a = span_addr(spans, ptr, i);
    lemma_span_addr_monotone(spans, ptr, 0, i);
    assert(offset_of(a) + spans[i].len <= PAGE_SIZE);
    lemma_same_page(a, x);
    let pte = choose|pte: PageTableEntry|
        #[trigger] call_ensures(translate, (page_of(a),), Some(pte)) && page_allows(pte, write)
            && entry_ppn(pte) == spans[i].page;
    assert(call_ensures(translate, (page_of(x),), Some(pte)));
}

/// Two addresses less than the rest of the page of the first apart lie in
/// the same page.
proof fn lemma_same_page(a: int, x: int)
    requires
        0 <= a <= x,
        offset_of(a) + (x - a) < PAGE_SIZE,
    ensures
        page_of(x) == page_of(a),
{
}

/// Every address from span `i` on, up to the end of the buffer, lies in a
/// page that allows the access.
pub proof fn lemma_covered_page_ok<T: Fn(usize) -> Option<PageTableEntry>>(
    translate: T,
    spans: Seq<PageSpan>,
    ptr: int,
    len: int,
    write: bool,
    i: int,
    x: int,
)
    requires
        0 <= ptr,
        spans_cover(translate, spans, ptr, len, write),
        0 <= i <= spans.len(),
        span_addr(spans, ptr, i) <= x < ptr + len,
    ensures
        page_ok(translate, page_of(x), write),
    decreases spans.len() - i,
{
    if i < spans.len() {
        assert(span_addr(spans, ptr, i + 1) == span_addr(spans, ptr, i) + spans[i].len);
        if x < span_addr(spans, ptr, i + 1) {
            assert(span_ok(translate, spans, ptr, len, write, i));
            lemma_span_page_ok(translate, spans, ptr, len, write, i, x);
        } else {
            lemma_covered_page_ok(translate, spans, ptr, len, write, i + 1, x);
        }
    }
}

/// Spans that cover a buffer rule out a page of it refusing the access:
/// no page the buffer touches has every translation refusing, so a buffer
/// that cannot be accessed is never cut into spans.
pub proof fn lemma_covered_range_not_denied<T: Fn(usize) -> Option<PageTableEntry>>(
    translate: T,
    spans: Seq<PageSpan>,
    ptr: usize,
    len: usize,
    write: bool,
)
    requires
        spans_cover(translate, spans, ptr as int, len as int, write),
    ensures
        forall|k: int| 0 <= k < len ==> #[trigger] page_ok(translate, page_of(ptr + k), write),
        !exists|k: int| 0 <= k < len && #[trigger] page_denied(translate, page_of(ptr + k), write),
{
    assert forall|k: int| 0 <= k < len implies #[trigger] page_ok(
        translate,
        page_of(ptr + k),
        write,
    ) by {
        lemma_covered_page_ok(translate, spans, ptr as int, len as int, write, 0, ptr + k);
    }
    assert forall|k: int|
        0 <= k < len implies !#[trigger] page_denied(translate, page_of(ptr + k), write) by {
        assert(page_ok(translate, page_of(ptr + k), write));
    }
}

/// A copy to user memory is only ever planned over writable user pages:
/// every byte of a planned range lies in a page whose translation allows
/// the kernel to write it, so no plan exists for a range with a page that
/// refuses writing.
pub proof fn lemma_plan_only_writable_pages<T: Fn(usize) -> Option<PageTableEntry>>(
    translate: T,
    writes: Seq<UserWrite>,
    dst: usize,
    bytes: Seq<u8>,
)
    requires
        copy_plan(translate, writes, dst, bytes),
    ensures
        forall|k: int|
            0 <= k < bytes.len() ==> #[trigger] page_ok(translate, page_of(dst + k), true),
        !exists|k: int|
            0 <= k < bytes.len() && #[trigger] page_denied(translate, page_of(dst + k), true),
{
    assert forall|k: int| 0 <= k < bytes.len() implies #[trigger] page_ok(
        translate,
        page_of(dst + k),
        true,
    ) by {
        lemma_covered_page_ok(
            translate,
            write_spans(writes),
            dst as int,
            bytes.len() as int,
            true,
            0,
            dst + k,
        );
    }
    assert forall|k: int|
        0 <= k < bytes.len() implies !#[trigger] page_denied(translate, page_of(dst + k), true) by {
        assert(page_ok(translate, page_of(dst + k), true));
    }
}

/// Physical memory after the pieces of a copy were stored in order into
/// memory that held `before`: each piece's bytes land at its page from its
/// offset on, and a later piece wins where two overlap.
pub open spec fn stored(
    before: spec_fn(PhysPageNum, usize) -> u8,
    writes: Seq<UserWrite>,
) -> spec_fn(PhysPageNum, usize) -> u8
    decreases writes.len(),
{
    if writes.len() == 0 {
        before
    } else {
        let last = writes.last();
        let prior = stored(before, writes.drop_last());
        |page: PhysPageNum, offset: usize|
            if page == last.span.page && last.span.offset <= offset < last.span.offset
                + last.bytes@.len() {
                last.bytes@[offset - last.span.offset]
            } else {
                prior(page, offset)
            }
    }
}

/// Piece `j` covers `(page, offset)`.
pub open spec fn piece_covers(w: UserWrite, page: PhysPageNum, offset: usize) -> bool {
    w.span.page == page && w.span.offset <= offset < w.span.offset + w.bytes@.len()
}

/// The translation of a page gives one answer however often it is asked
/// (the page table does not change in between).
pub open spec fn translation_stable<T: Fn(usize) -> Option<PageTableEntry>>(translate: T) -> bool {
    forall|vpn: usize, a: Option<PageTableEntry>, b: Option<PageTableEntry>|
        #[trigger] call_ensures(translate, (vpn,), a) && #[trigger] call_ensures(translate, (vpn,), b)
            ==> a == b
}

/// Distinct virtual pages of the range `[ptr, ptr + len)` are mapped to
/// distinct physical pages.
pub open spec fn range_unaliased<T: Fn(usize) -> Option<PageTableEntry>>(
    translate: T,
    ptr: int,
    len: int,
) -> bool {
    forall|x: int, y: int, p: PageTableEntry, q: PageTableEntry|
        ptr <= x < ptr + len && ptr <= y < ptr + len && page_of(x) != page_of(y) && #[trigger] call_ensures(
            translate,
            (page_of(x),),
            Some(p),
        ) && #[trigger] call_ensures(translate, (page_of(y),), Some(q)) ==> entry_ppn(p)
            != entry_ppn(q)
}

/// The piece of memory that a planned store of piece `j` leaves in place
/// is what a later read finds: the last piece covering a place decides it.
proof fn lemma_stored_cover(
    before: spec_fn(PhysPageNum, usize) -> u8,
    writes: Seq<UserWrite>,
    j: int,
    page: PhysPageNum,
    offset: usize,
)
    requires
        0 <= j < writes.len(),
        piece_covers(writes[j], page, offset),
        forall|k: int| j < k < writes.len() ==> !#[trigger] piece_covers(writes[k], page, offset),
    ensures
        stored(before, writes)(page, offset) == writes[j].bytes@[offset - writes[j].span.offset],
    decreases writes.len(),
{
    if j < writes.len() - 1 {
        let prior = writes.drop_last();
        assert(!piece_covers(writes[writes.len() - 1], page, offset));
        assert forall|k: int| j < k < prior.len() implies !#[trigger] piece_covers(
            prior[k],
            page,
            offset,
        ) by {
            assert(prior[k] == writes[k]);
            assert(!piece_covers(writes[k], page, offset));
        }
        lemma_stored_cover(before, prior, j, page, offset);
        assert(prior[j] == writes[j]);
    }
}

/// The span of a buffer that holds address `x`.
proof fn lemma_find_span(spans: Seq<PageSpan>, ptr: int, i: int, x: int) -> (j: int)
    requires
        0 <= i <= spans.len(),
        span_addr(spans, ptr, i) <= x < span_addr(spans, ptr, spans.len() as int),
    ensures
        i <= j < spans.len(),
        span_addr(spans, ptr, j) <= x < span_addr(spans, ptr, j) + spans[j].len,
    decreases spans.len() - i,
{
    if i == spans.len() {
        i
    } else {
        assert(span_addr(spans, ptr, i + 1) == span_addr(spans, ptr, i) + spans[i].len);
        if x < span_addr(spans, ptr, i + 1) {
            i
        } else {
            lemma_find_span(spans, ptr, i + 1, x)
        }
    }
}

/// The end of a piece that runs to the end of its page starts the next page.
proof fn lemma_page_end(a: int, n: int)
    requires
        0 <= a,
        0 < n,
        offset_of(a) + n == PAGE_SIZE,
        a + n <= USER_VA_LIMIT,
    ensures
        page_of(a + n) == page_of(a) + 1,
{
}

/// Pages are numbered in address order.
proof fn lemma_page_of_monotone(a: int, b: int)
    requires
        0 <= a <= b <= USER_VA_LIMIT,
    ensures
        page_of(a) <= page_of(b),
{
    assert(a / 4096 <= b / 4096) by (nonlinear_arith)
        requires
            0 <= a <= b,
    ;
}

/// An address of span `j` lies in an earlier virtual page than any address
/// from the end of span `j` on: a span that the buffer continues after runs
/// to the end of its page.
proof fn lemma_later_span_other_page<T: Fn(usize) -> Option<PageTableEntry>>(
    translate: T,
    spans: Seq<PageSpan>,
    ptr: int,
    len: int,
    write: bool,
    j: int,
    x: int,
    y: int,
)
    requires
        0 <= ptr,
        ptr + len <= USER_VA_LIMIT,
        0 <= j < spans.len(),
        span_ok(translate, spans, ptr, len, write, j),
        span_addr(spans, ptr, 0) <= span_addr(spans, ptr, j),
        span_addr(spans, ptr, j) <= x < span_addr(spans, ptr, j) + spans[j].len,
        span_addr(spans, ptr, j) + spans[j].len <= y < ptr + len,
    ensures
        page_of(x) < page_of(y),
{
    let a = span_addr(spans, ptr, j);
    let n = spans[j].len as int;
    assert(offset_of(a) + n == PAGE_SIZE);
    lemma_same_page(a, x);
    lemma_page_end(a, n);
    lemma_page_of_monotone(a + n, y);
}

/// No piece after piece `j` of a plan covers the physical place of an
/// address of span `j`: later pieces lie in later virtual pages, which
/// the range keeps on other physical pages.
proof fn lemma_no_later_cover<T: Fn(usize) -> Option<PageTableEntry>>(
    translate: T,
    writes: Seq<UserWrite>,
    dst: usize,
    bytes: Seq<u8>,
    j: int,
    x: int,
    pte: PageTableEntry,
)
    requires
        copy_plan(translate, writes, dst, bytes),
        dst + bytes.len() <= USER_VA_LIMIT,
        range_unaliased(translate, dst as int, bytes.len() as int),
        0 <= j < writes.len(),
        span_addr(write_spans(writes), dst as int, j) <= x < span_addr(write_spans(writes), dst as int, j)
            + writes[j].span.len,
        call_ensures(translate, (page_of(x),), Some(pte)),
    ensures
        forall|k: int|
            j < k < writes.len() ==> !#[trigger] piece_covers(writes[k], entry_ppn(pte), offset_of(x)),
{
    let spans = write_spans(writes);
    let len = bytes.len() as int;
    assert forall|k: int| j < k < writes.len() implies !#[trigger] piece_covers(
        writes[k],
        entry_ppn(pte),
        offset_of(x),
    ) by {
        let y = span_addr(spans, dst as int, k);
        assert(spans[j] == writes[j].span);
        assert(spans[k] == writes[k].span);
        assert(span_ok(translate, spans, dst as int, len, true, j));
        assert(span_ok(translate, spans, dst as int, len, true, k));
        lemma_span_addr_bounded(spans, dst as int, len, k);
        lemma_span_addr_bounded(spans, dst as int, len, j);
        lemma_span_addr_monotone(spans, dst as int, j + 1, k);
        lemma_span_addr_monotone(spans, dst as int, 0, j);
        assert(span_addr(spans, dst as int, j + 1) == span_addr(spans, dst as int, j)
            + spans[j].len);
        lemma_later_span_other_page(translate, spans, dst as int, len, true, j, x, y);
        let pte_k = choose|q: PageTableEntry|
            #[trigger] call_ensures(translate, (page_of(y),), Some(q)) && page_allows(q, true)
                && entry_ppn(q) == spans[k].page;
        assert(entry_ppn(pte) != entry_ppn(pte_k));
    }
}

/// Byte `i` of a planned copy reads back as stored.
#[verifier::spinoff_prover]
proof fn lemma_round_trip_byte<T: Fn(usize) -> Option<PageTableEntry>, B: Fn(PhysPageNum, usize) -> u8>(
    translate: T,
    read_byte: B,
    before: spec_fn(PhysPageNum, usize) -> u8,
    writes: Seq<UserWrite>,
    dst: usize,
    bytes: Seq<u8>,
    i: int,
    b: u8,
)
    requires
        copy_plan(translate, writes, dst, bytes),
        dst + bytes.len() <= USER_VA_LIMIT,
        translation_stable(translate),
        range_unaliased(translate, dst as int, bytes.len() as int),
        forall|page: PhysPageNum, offset: usize, v: u8|
            #[trigger] call_ensures(read_byte, (page, offset), v) ==> v == stored(before, writes)(
                page,
                offset,
            ),
        0 <= i < bytes.len(),
        byte_seen(translate, read_byte, dst + i, b),
    ensures
        b == bytes[i],
{
    let spans = write_spans(writes);
    let len = bytes.len() as int;
    let x = dst + i;
    lemma_span_addr_total(spans, dst as int);
    let j = lemma_find_span(spans, dst as int, 0, x);
    let a = span_addr(spans, dst as int, j);
    assert(spans[j] == writes[j].span);
    assert(span_ok(translate, spans, dst as int, len, true, j));
    lemma_span_addr_bounded(spans, dst as int, len, j);
    let from = a - dst;
    assert(writes[j].bytes@ == bytes.subrange(from, from + writes[j].span.len));
    lemma_same_page(a, x);
    let pte = choose|pte: PageTableEntry|
        #[trigger] call_ensures(translate, (page_of(x),), Some(pte)) && page_allows(pte, false)
            && call_ensures(read_byte, (entry_ppn(pte), offset_of(x)), b);
    let pte_j = choose|pte: PageTableEntry|
        #[trigger] call_ensures(translate, (page_of(a),), Some(pte)) && page_allows(pte, true)
            && entry_ppn(pte) == spans[j].page;
    assert(pte == pte_j);
    let page = entry_ppn(pte);
    let offset = offset_of(x);
    assert(piece_covers(writes[j], page, offset));
    lemma_no_later_cover(translate, writes, dst, bytes, j, x, pte);
    lemma_stored_cover(before, writes, j, page, offset);
}

/// Reading back a planned copy: when the pieces of a copy of `bytes` to
/// user address `dst` have been stored into physical memory, a read of the
/// same range through the same page table (as `copy_from_user` reads it)
/// gives `bytes` back, byte for byte. This needs the page table not to
/// change in between, and the range's virtual pages not to share a
/// physical page (else a later piece overwrites an earlier one).
pub proof fn lemma_copy_round_trip<
    T: Fn(usize) -> Option<PageTableEntry>,
    B: Fn(PhysPageNum, usize) -> u8,
>(
    translate: T,
    read_byte: B,
    before: spec_fn(PhysPageNum, usize) -> u8,
    writes: Seq<UserWrite>,
    dst: usize,
    bytes: Seq<u8>,
    read: Seq<u8>,
)
    requires
        copy_plan(translate, writes, dst, bytes),
        dst + bytes.len() <= USER_VA_LIMIT,
        translation_stable(translate),
        range_unaliased(translate, dst as int, bytes.len() as int),
        forall|page: PhysPageNum, offset: usize, b: u8|
            #[trigger] call_ensures(read_byte, (page, offset), b) ==> b == stored(before, writes)(
                page,
                offset,
            ),
        read.len() == bytes.len(),
        forall|i: int| 0 <= i < read.len() ==> #[trigger] byte_seen(translate, read_byte, dst + i, read[i]),
    ensures
        read == bytes,
{
    assert forall|i: int| 0 <= i < bytes.len() implies read[i] == bytes[i] by {
        lemma_round_trip_byte(translate, read_byte, before, writes, dst, bytes, i, read[i]);
    }
    assert(read =~= bytes);
}

/// Span `i` of a checked buffer lies inside the buffer.
proof fn lemma_span_addr_bounded(spans: Seq<PageSpan>, ptr: int, len: int, i: int)
    requires
        0 <= i < spans.len(),
        span_addr(spans, ptr, spans.len() as int) == ptr + len,
    ensures
        ptr <= span_addr(spans, ptr, i),
        span_addr(spans, ptr, i) + spans[i].len <= ptr + len,
    decreases spans.len() - i,
{
    lemma_span_addr_monotone(spans, ptr, i + 1, spans.len() as int);
    lemma_span_addr_monotone(spans, ptr, 0, i);
}

proof fn lemma_span_addr_monotone(spans: Seq<PageSpan>, ptr: int, i: int, j: int)
    requires
        0 <= i <= j <= spans.len(),
    ensures
        span_addr(spans, ptr, i) <= span_addr(spans, ptr, j),
    decreases j - i,
{
    if i < j {
        lemma_span_addr_monotone(spans, ptr, i, j - 1);
    }
}

} // verus!
