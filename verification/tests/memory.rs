use wasm_bridge::memory::{view_bounds, Memory};

#[test]
fn read_gives_back_what_was_written() {
    let mut mem = Memory::new(vec![0u8; 16]);
    mem.write((), 4, &[1, 2, 3]).unwrap();
    let mut buf = [0u8; 3];
    mem.read((), 4, &mut buf).unwrap();
    assert_eq!(buf, [1, 2, 3]);
    assert_eq!(mem.data_size(), 16);
}

#[test]
fn write_keeps_other_bytes() {
    let mut mem = Memory::new((0u8..10).collect());
    mem.write_impl(2, &[9, 9]).unwrap();
    let mut all = [0u8; 10];
    mem.read_impl(0, &mut all).unwrap();
    assert_eq!(all, [0, 1, 9, 9, 4, 5, 6, 7, 8, 9]);
}

#[test]
fn write_at_end_and_empty_access() {
    let mut mem = Memory::new(vec![7u8; 4]);
    mem.write((), 2, &[1, 2]).unwrap();
    mem.write((), 4, &[]).unwrap();
    let mut empty: [u8; 0] = [];
    mem.read((), 4, &mut empty).unwrap();
    let mut buf = [0u8; 4];
    mem.read((), 0, &mut buf).unwrap();
    assert_eq!(buf, [7, 7, 1, 2]);
}

#[test]
fn last_write_wins() {
    let mut mem = Memory::new(vec![0u8; 4]);
    mem.write((), 1, &[5, 6]).unwrap();
    mem.write((), 1, &[7, 8]).unwrap();
    let mut buf = [0u8; 4];
    mem.read((), 0, &mut buf).unwrap();
    assert_eq!(buf, [0, 7, 8, 0]);
}

#[test]
fn view_bounds_are_exact() {
    assert_eq!(view_bounds(16, 4), (16, 4));
    assert_eq!(view_bounds(u32::MAX as usize, 0), (u32::MAX, 0));
}

#[test]
fn writing_back_what_was_read_changes_nothing() {
    let mut mem = Memory::new(vec![3, 1, 4, 1, 5, 9]);
    let mut buf = [0u8; 3];
    mem.read((), 2, &mut buf).unwrap();
    mem.write((), 2, &buf).unwrap();
    let mut all = [0u8; 6];
    mem.read((), 0, &mut all).unwrap();
    assert_eq!(all, [3, 1, 4, 1, 5, 9]);
}
