use chiter::{HookError, VTable};

#[test]
fn hook_swaps_slot_and_returns_original() {
    let mut table = VTable::new(0x7000, vec![0x1000, 0x2000, 0x3000]);
    assert_eq!(table.hook(1, 0x9999), Ok(0x2000));
    assert_eq!(table.entries(), &[0x1000, 0x9999, 0x3000]);
    assert_eq!(table.hook(1, 0xAAAA), Ok(0x9999));
    assert_eq!(table.entries(), &[0x1000, 0xAAAA, 0x3000]);
}

#[test]
fn hook_at_size_is_out_of_bounds() {
    let mut table = VTable::new(0x7000, vec![0x1000, 0x2000, 0x3000]);
    assert_eq!(table.hook(3, 0x9999), Err(HookError::OutOfBounds { index: 3, size: 3 }));
    assert_eq!(table.hook(usize::MAX, 1), Err(HookError::OutOfBounds { index: usize::MAX, size: 3 }));
    assert_eq!(table.entries(), &[0x1000, 0x2000, 0x3000]);
}

#[test]
fn hook_on_empty_table_fails() {
    let mut table = VTable::new(0x7000, vec![]);
    assert_eq!(table.hook(0, 1), Err(HookError::OutOfBounds { index: 0, size: 0 }));
    assert_eq!(table.size(), 0);
}

#[test]
fn protect_len_covers_every_slot() {
    let table = VTable::new(0x7000, vec![1; 300]);
    assert_eq!(table.address(), 0x7000);
    assert_eq!(table.size(), 300);
    assert_eq!(table.protect_len(), 300 * std::mem::size_of::<usize>());
}

#[test]
fn hook_last_slot() {
    let mut table = VTable::new(0, vec![5, 6]);
    assert_eq!(table.hook(1, 0), Ok(6));
    assert_eq!(table.entries(), &[5, 0]);
}
