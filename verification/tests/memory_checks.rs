//! Page-table entries, the three-level walk and the checks made before the
//! kernel touches user memory.

use std::collections::HashMap;

use secure_ipc::mm::page_table::{
    check_user_object, check_user_range, copy_from_user, plan_copy_to_user,
    try_translated_byte_buffer, try_translated_str,
    vpn_indexes, PTEFlags, PageSpan, PageTable, PageTableEntry, PhysPageNum, UserBuffer, PAGE_SIZE,
    PTE_R, PTE_U, PTE_V, PTE_W, PTE_X, USER_VA_LIMIT,
};
use secure_ipc::security::IpcError;
use secure_ipc::timer::{next_trigger, ticks_to_ms};

fn entry(ppn: usize, flags: u8) -> PageTableEntry {
    PageTableEntry::new(PhysPageNum(ppn), PTEFlags(flags))
}

#[test]
fn entries_pack_page_number_and_flags() {
    let pte = entry(0x12345, PTE_V | PTE_R | PTE_W | PTE_U);
    assert_eq!(pte.bits, (0x12345 << 10) | 0x17);
    assert_eq!(pte.ppn(), PhysPageNum(0x12345));
    assert_eq!(pte.flags(), PTEFlags(0x17));
    assert!(pte.is_valid() && pte.readable() && pte.writable() && !pte.executable());
    assert!(pte.flags().contains(PTEFlags(PTE_U | PTE_R)));
    assert!(!pte.flags().contains(PTEFlags(PTE_X)));
    assert_eq!(PageTableEntry::empty().bits, 0);
    assert!(!PageTableEntry::empty().is_valid());
}

#[test]
fn tokens_and_indexes() {
    let table = PageTable::from_token((8u64 << 60) | 0x8_0123);
    assert_eq!(table.root_ppn, PhysPageNum(0x8_0123));
    assert_eq!(table.token(), (8u64 << 60) | 0x8_0123);
    assert_eq!(vpn_indexes((3 << 18) | (5 << 9) | 7), (3, 5, 7));
    assert_eq!(vpn_indexes(usize::MAX >> 12), (511, 511, 511));
}

/// Physical memory holding page-table pages: (page, index) -> entry.
fn memory() -> HashMap<(usize, usize), PageTableEntry> {
    let mut m = HashMap::new();
    m.insert((1, 0), entry(2, PTE_V));
    m.insert((2, 0), entry(3, PTE_V));
    m.insert((3, 4), entry(0x40, PTE_V | PTE_R | PTE_U));
    m.insert((3, 5), entry(0x41, PTE_R | PTE_U));
    m
}

#[test]
fn walk_follows_valid_upper_levels() {
    let m = memory();
    let read = |page: PhysPageNum, index: usize| *m.get(&(page.0, index)).unwrap_or(&PageTableEntry::empty());
    let table = PageTable { root_ppn: PhysPageNum(1) };
    assert_eq!(table.translate(&read, 4).unwrap().ppn(), PhysPageNum(0x40));
    // The last-level entry is returned even when it is invalid.
    assert!(!table.translate(&read, 5).unwrap().is_valid());
    assert_eq!(table.translate(&read, 1 << 9), None);
    assert_eq!(table.translate(&read, 1 << 18), None);
    assert_eq!(table.translate_va(&read, 4 * 4096 + 0x123), Some(0x40 * 4096 + 0x123));
    assert_eq!(table.translate_va(&read, 1 << 30), None);
}

fn user_pages(vpn: usize) -> Option<PageTableEntry> {
    match vpn {
        1 => Some(entry(0x10, PTE_V | PTE_R | PTE_W | PTE_U)),
        2 => Some(entry(0x11, PTE_V | PTE_R | PTE_U)),
        3 => Some(entry(0x12, PTE_V | PTE_R | PTE_W)),
        _ => None,
    }
}

#[test]
fn user_ranges_need_mapped_user_pages_with_the_right_permission() {
    assert!(check_user_range(&user_pages, 0, 0, true));
    assert!(check_user_range(&user_pages, 4096, 4096, true));
    assert!(!check_user_range(&user_pages, 4096, 4097, true));
    assert!(check_user_range(&user_pages, 4096 + 10, 8000, false));
    assert!(!check_user_range(&user_pages, 3 * 4096, 1, false));
    assert!(!check_user_range(&user_pages, usize::MAX, 2, false));
    assert!(!check_user_range(&user_pages, USER_VA_LIMIT as usize - 1, 2, false));
}

#[test]
fn user_objects_must_fit_one_aligned_page() {
    assert!(check_user_object(&user_pages, 4096 + 8, 8, 8, true));
    assert!(!check_user_object(&user_pages, 0, 8, 8, false));
    assert!(!check_user_object(&user_pages, 4096 + 4, 8, 8, false));
    assert!(!check_user_object(&user_pages, 2 * 4096 - 4, 8, 4, false));
    assert!(!check_user_object(&user_pages, 4096, 0, 1, false));
    assert!(!check_user_object(&user_pages, 2 * 4096, 8, 8, true));
    assert!(check_user_object(&user_pages, 2 * 4096, 8, 8, false));
}

#[test]
fn buffers_are_cut_at_page_boundaries() {
    let spans = try_translated_byte_buffer(&user_pages, 4096 + 4000, 200, false).unwrap();
    assert_eq!(
        spans,
        vec![
            PageSpan { page: PhysPageNum(0x10), offset: 4000, len: 96 },
            PageSpan { page: PhysPageNum(0x11), offset: 0, len: 104 },
        ]
    );
    assert_eq!(UserBuffer::new(spans).len(), 200);
    assert_eq!(try_translated_byte_buffer(&user_pages, 0, 0, true), Some(vec![]));
    assert_eq!(try_translated_byte_buffer(&user_pages, 4096 + 4000, 200, true), None);
    assert_eq!(try_translated_byte_buffer(&user_pages, usize::MAX, 1, false), None);
}

#[test]
fn strings_stop_at_the_terminator_and_need_only_scanned_pages() {
    // Page 0x10 holds "hi\0" at offset 5; page 0x10 ends with "ab" and
    // page 0x11 starts with "c\0".
    let read = |page: PhysPageNum, offset: usize| -> u8 {
        match (page.0, offset) {
            (0x10, 5) => b'h',
            (0x10, 6) => b'i',
            (0x10, 7) => 0,
            (0x10, 4094) => b'a',
            (0x10, 4095) => b'b',
            (0x11, 0) => b'c',
            (0x11, 1) => 0,
            _ => b'x',
        }
    };
    assert_eq!(try_translated_str(&user_pages, &read, 4096 + 5, 100), Some(b"hi".to_vec()));
    assert_eq!(try_translated_str(&user_pages, &read, 4096 + 4094, 100), Some(b"abc".to_vec()));
    assert_eq!(try_translated_str(&user_pages, &read, 4096 + 5, 2), None);
    assert_eq!(try_translated_str(&user_pages, &read, 4096 + 5, 3), Some(b"hi".to_vec()));
    assert_eq!(try_translated_str(&user_pages, &read, 0, 10), None);
    assert_eq!(try_translated_str(&user_pages, &read, 4096, 0), None);
    // Reaching an unmapped page before a terminator fails.
    assert_eq!(try_translated_str(&user_pages, &read, 2 * 4096 + 10, 10000), None);
    assert_eq!(PAGE_SIZE, 4096);
}

#[test]
fn timer_arithmetic() {
    assert_eq!(next_trigger(1_000, 10_000_000), 101_000);
    assert_eq!(ticks_to_ms(12_345_678, 10_000_000), 1234);
}

#[test]
fn values_are_copied_page_by_page() {
    let read = |page: PhysPageNum, offset: usize| -> u8 { (page.0 as u8) ^ (offset as u8) };
    let bytes = copy_from_user(&user_pages, &read, 2 * 4096 - 2, 4).unwrap();
    assert_eq!(bytes, vec![0x10 ^ 0xfe, 0x10 ^ 0xff, 0x11, 0x11 ^ 1]);
    assert_eq!(copy_from_user(&user_pages, &read, 4096, 0), Err(IpcError::InvalidArgument));
    assert_eq!(copy_from_user(&user_pages, &read, 3 * 4096, 4), Err(IpcError::InvalidAddress));
    assert_eq!(copy_from_user(&user_pages, &read, usize::MAX - 1, 4), Err(IpcError::InvalidAddress));

    let writable = |vpn: usize| -> Option<PageTableEntry> {
        if vpn == 5 || vpn == 6 {
            Some(entry(0x20 + vpn, PTE_V | PTE_R | PTE_W | PTE_U))
        } else {
            None
        }
    };
    let writes = plan_copy_to_user(&writable, 6 * 4096 - 2, &[1, 2, 3, 4, 5]).unwrap();
    assert_eq!(writes.len(), 2);
    assert_eq!(writes[0].span, PageSpan { page: PhysPageNum(0x25), offset: 4094, len: 2 });
    assert_eq!(writes[0].bytes, vec![1, 2]);
    assert_eq!(writes[1].span, PageSpan { page: PhysPageNum(0x26), offset: 0, len: 3 });
    assert_eq!(writes[1].bytes, vec![3, 4, 5]);
    // Page 2 is readable but not writable.
    assert_eq!(plan_copy_to_user(&user_pages, 4096 + 4094, &[1, 2, 3]).unwrap_err(), IpcError::InvalidAddress);
    assert_eq!(plan_copy_to_user(&user_pages, 4096, &[]).unwrap_err(), IpcError::InvalidArgument);
}

#[test]
fn a_planned_copy_reads_back_unchanged() {
    // Virtual pages 5 and 6 are mapped writable to physical pages 0x40 and 0x41.
    let translate = |vpn: usize| match vpn {
        5 => Some(entry(0x40, PTE_V | PTE_R | PTE_W | PTE_U)),
        6 => Some(entry(0x41, PTE_V | PTE_R | PTE_W | PTE_U)),
        _ => None,
    };
    let value: Vec<u8> = (1..=20).collect();
    let writes = plan_copy_to_user(&translate, 6 * 4096 - 7, &value).unwrap();
    let mut memory: HashMap<(usize, usize), u8> = HashMap::new();
    for write in &writes {
        for (k, byte) in write.bytes.iter().enumerate() {
            memory.insert((write.span.page.0, write.span.offset + k), *byte);
        }
    }
    let read = |page: PhysPageNum, offset: usize| *memory.get(&(page.0, offset)).unwrap_or(&0);
    assert_eq!(copy_from_user(&translate, &read, 6 * 4096 - 7, 20).unwrap(), value);
    // A range with an unmapped page is neither planned nor read.
    assert_eq!(plan_copy_to_user(&translate, 7 * 4096 - 4, &value).unwrap_err(), IpcError::InvalidAddress);
    assert_eq!(copy_from_user(&translate, &read, 7 * 4096 - 4, 20), Err(IpcError::InvalidAddress));
}
