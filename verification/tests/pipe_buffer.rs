//! The pipe ring buffer, pipe ends and pipe ids.

use secure_ipc::fs::pipe::{allocate_pipe_id, Pipe, PipeRingBuffer, ReadStep, RING_BUFFER_SIZE};
use secure_ipc::fs::File;
use secure_ipc::security::{IpcError, IpcObject};

/// A write-end handle that always gives the same answer.
type Handle = Box<dyn Fn() -> bool>;

fn handle(closed: bool) -> Handle {
    Box::new(move || closed)
}

#[test]
fn bytes_come_out_in_the_order_they_went_in() {
    let mut ring: PipeRingBuffer<Handle> = PipeRingBuffer::new();
    assert_eq!(ring.available_read(), 0);
    assert_eq!(ring.available_write(), RING_BUFFER_SIZE);
    for b in 1..=5u8 {
        ring.write_byte(b);
    }
    assert_eq!(ring.available_read(), 5);
    assert_eq!(ring.available_write(), RING_BUFFER_SIZE - 5);
    assert_eq!(ring.read_byte(), 1);
    assert_eq!(ring.read_byte(), 2);
    assert_eq!(ring.available_read(), 3);
}

#[test]
fn full_buffer_wraps_and_reports_no_room() {
    let mut ring: PipeRingBuffer<Handle> = PipeRingBuffer::new();
    let data: Vec<u8> = (0..40u8).collect();
    assert_eq!(ring.write_bytes(&data), RING_BUFFER_SIZE);
    assert_eq!(ring.available_read(), RING_BUFFER_SIZE);
    assert_eq!(ring.available_write(), 0);
    assert_eq!(ring.read_bytes(10), (0..10u8).collect::<Vec<_>>());
    assert_eq!(ring.write_bytes(&data[32..]), 8);
    let rest = ring.read_bytes(usize::MAX);
    let expected: Vec<u8> = (10..40u8).collect();
    assert_eq!(rest, expected);
    assert_eq!(ring.available_read(), 0);
    assert_eq!(ring.read_bytes(4), Vec::<u8>::new());
}

#[test]
fn write_end_handle_tells_when_writers_are_gone() {
    let mut ring: PipeRingBuffer<Handle> = PipeRingBuffer::new();
    ring.set_write_end(handle(false));
    assert!(!ring.all_write_ends_closed());
    ring.set_write_end(handle(true));
    assert!(ring.all_write_ends_closed());
}

#[test]
fn pipe_ends_share_object_and_buffer() {
    let object = IpcObject { id: 3, owner_uid: 1000 };
    let read_end = Pipe::read_end_with_buffer(7u32, object);
    let write_end = Pipe::write_end_with_buffer(7u32, object);
    assert!(read_end.readable() && !read_end.writable());
    assert!(!write_end.readable() && write_end.writable());
    assert_eq!(read_end.ipc_object(), Some(object));
    assert_eq!(write_end.ipc_object(), Some(object));
    assert_eq!(*read_end.buffer(), 7);
}

#[test]
fn pipe_ids_increase_and_never_wrap() {
    let mut next = 1u64;
    assert_eq!(allocate_pipe_id(&mut next), Ok(1));
    assert_eq!(allocate_pipe_id(&mut next), Ok(2));
    assert_eq!(next, 3);
    let mut last = u64::MAX - 1;
    assert_eq!(allocate_pipe_id(&mut last), Ok(u64::MAX - 1));
    assert_eq!(allocate_pipe_id(&mut last), Err(IpcError::ResourceExhausted));
    assert_eq!(last, u64::MAX);
}

#[test]
fn blocking_rounds_wait_read_and_report_end_of_file() {
    let mut ring: PipeRingBuffer<Handle> = PipeRingBuffer::new();
    ring.set_write_end(handle(false));
    assert!(matches!(ring.read_step(4), ReadStep::Wait));
    let data: Vec<u8> = (0..40).collect();
    assert_eq!(ring.write_step(&data), Some(RING_BUFFER_SIZE));
    assert_eq!(ring.write_step(&data[32..]), None);
    match ring.read_step(5) {
        ReadStep::Data(bytes) => assert_eq!(bytes, vec![0, 1, 2, 3, 4]),
        other => panic!("unexpected {other:?}"),
    }
    assert_eq!(ring.write_step(&data[32..]), Some(5));
    match ring.read_step(100) {
        ReadStep::Data(bytes) => assert_eq!(bytes, (5..37).collect::<Vec<u8>>()),
        other => panic!("unexpected {other:?}"),
    }
    ring.set_write_end(handle(true));
    assert!(matches!(ring.read_step(1), ReadStep::Eof));
}

#[test]
fn interleaved_single_byte_writes_and_reads_keep_fifo_order() {
    let mut ring: PipeRingBuffer<Handle> = PipeRingBuffer::new();
    let mut written: Vec<u8> = Vec::new();
    let mut read: Vec<u8> = Vec::new();
    let mut next: u8 = 0;
    // Two writes for each read, then drain; the buffer wraps several times.
    for round in 0..100 {
        for _ in 0..2 {
            if ring.available_write() > 0 {
                ring.write_byte(next);
                written.push(next);
                next = next.wrapping_add(1);
            }
        }
        if round % 3 != 0 && ring.available_read() > 0 {
            read.push(ring.read_byte());
        }
        assert_eq!(read[..], written[..read.len()]);
        assert_eq!(ring.available_read(), written.len() - read.len());
    }
    while ring.available_read() > 0 {
        read.push(ring.read_byte());
    }
    assert_eq!(read, written);
}
