use chiter::{read_bytes, write_bytes, Memory};

#[test]
fn write_then_read_returns_the_bytes() {
    let mut mem = Memory::new(0x1000, 16);
    let v = vec![0xDE, 0xAD, 0xBE, 0xEF];
    write_bytes(&mut mem, 0x1004, &v);
    assert_eq!(read_bytes(&mem, 0x1004, v.len()), v);
}

#[test]
fn byte_zero_goes_to_the_lowest_address() {
    let mut mem = Memory::new(0x20, 4);
    write_bytes(&mut mem, 0x20, &[1, 2, 3, 4]);
    assert_eq!(mem.byte(0x20), 1);
    assert_eq!(mem.byte(0x23), 4);
    assert_eq!(read_bytes(&mem, 0x21, 2), vec![2, 3]);
}

#[test]
fn write_leaves_other_bytes_alone() {
    let mut mem = Memory::from_bytes(0x100, vec![9, 9, 9, 9, 9]);
    write_bytes(&mut mem, 0x101, &[7, 8]);
    assert_eq!(read_bytes(&mem, 0x100, 5), vec![9, 7, 8, 9, 9]);
}

#[test]
fn empty_read_and_write() {
    let mut mem = Memory::from_bytes(0x100, vec![5, 6]);
    write_bytes(&mut mem, 0x102, &[]);
    assert_eq!(read_bytes(&mem, 0x102, 0), Vec::<u8>::new());
    assert_eq!(read_bytes(&mem, 0x100, 2), vec![5, 6]);
}

#[test]
fn new_memory_is_zeroed() {
    let mem = Memory::new(0x40, 3);
    assert_eq!(mem.base(), 0x40);
    assert_eq!(mem.len(), 3);
    assert_eq!(mem.end(), 0x43);
    assert_eq!(read_bytes(&mem, 0x40, 3), vec![0, 0, 0]);
}
