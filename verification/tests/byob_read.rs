use wasm_zip::byob_read::{ByobAction, ByobRead, MINIMAL_CHUNK_SIZE};

#[test]
fn first_read_takes_the_whole_buffer() {
    let (_, action) = ByobRead::new(1 << 20);
    assert_eq!(action, ByobAction::Read { offset: 0, length: 1 << 20 });
}

#[test]
fn reads_again_into_the_rest() {
    let (mut r, _) = ByobRead::new(1 << 20);
    assert_eq!(r.on_read(1000, false), ByobAction::Read { offset: 1000, length: (1 << 20) - 1000 });
    assert_eq!(r.on_read(2000, false), ByobAction::Read { offset: 3000, length: (1 << 20) - 3000 });
}

#[test]
fn returns_when_done() {
    let (mut r, _) = ByobRead::new(1 << 20);
    assert_eq!(r.on_read(10, false), ByobAction::Read { offset: 10, length: (1 << 20) - 10 });
    assert_eq!(r.on_read(5, true), ByobAction::Return { bytes_read: 15, done: true });
}

#[test]
fn returns_when_less_than_a_chunk_is_left() {
    let (mut r, _) = ByobRead::new(1 << 20);
    let n = (1 << 20) - MINIMAL_CHUNK_SIZE + 1;
    assert_eq!(r.on_read(n, false), ByobAction::Return { bytes_read: n, done: false });
}

#[test]
fn exactly_a_chunk_left_reads_again() {
    let (mut r, _) = ByobRead::new(1 << 20);
    let n = (1 << 20) - MINIMAL_CHUNK_SIZE;
    assert_eq!(r.on_read(n, false), ByobAction::Read { offset: n, length: MINIMAL_CHUNK_SIZE });
}

#[test]
fn room_left_shrinks_with_each_read() {
    let (mut r, _) = ByobRead::new(1 << 20);
    assert_eq!(r.room_left(), 1 << 20);
    r.on_read(100, false);
    assert_eq!(r.room_left(), (1 << 20) - 100);
}
