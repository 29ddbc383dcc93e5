use chiter::VTable;

#[test]
fn test_functions() {
    let add_one: usize = 0xDEADBEEF;
    let get_random_number: usize = (0xDEADBEEFu32 + 70) as usize;
    let mut table = VTable::new(0x7000, vec![add_one, get_random_number]);
    assert_eq!(table.entries(), &[0xDEADBEEF, 0xDEADBF35]);
    assert_eq!(table.hook(0, get_random_number), Ok(add_one));
    assert_eq!(table.entries(), &[get_random_number, get_random_number]);
}
