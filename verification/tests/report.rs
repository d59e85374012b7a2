use m8_kbd::key_code;
use m8_kbd::report::HidReport;

#[test]
fn empty_report_is_all_zero() {
    assert_eq!(HidReport::empty().as_bytes(), [0u8; 8]);
    assert_eq!(HidReport::build(&vec![]).as_bytes(), [0u8; 8]);
    assert!(!HidReport::empty().is_active());
}

#[test]
fn keys_fill_the_slots_in_order() {
    let r = HidReport::build(&vec![key_code::Z, key_code::UP, key_code::A]);
    assert_eq!(r.as_bytes(), [0, 0, 0x1D, 0x52, 0x04, 0, 0, 0]);
    assert!(r.is_active());
}

#[test]
fn modifiers_become_bits_and_take_no_slot() {
    let r = HidReport::build(&vec![key_code::LSHIFT, key_code::SPACE, key_code::RGUI, key_code::LCTRL]);
    assert_eq!(r.as_bytes(), [0x83, 0, 0x2C, 0, 0, 0, 0, 0]);
    let only = HidReport::build(&vec![key_code::LSHIFT]);
    assert_eq!(only.as_bytes(), [0x02, 0, 0, 0, 0, 0, 0, 0]);
    assert!(only.is_active());
}

#[test]
fn all_eight_modifiers_set_all_bits() {
    let r = HidReport::build(&vec![0xE0, 0xE1, 0xE2, 0xE3, 0xE4, 0xE5, 0xE6, 0xE7]);
    assert_eq!(r.as_bytes(), [0xFF, 0, 0, 0, 0, 0, 0, 0]);
}

#[test]
fn six_keys_fill_the_report() {
    let r = HidReport::build(&vec![4, 5, 6, 7, 8, 9]);
    assert_eq!(r.as_bytes(), [0, 0, 4, 5, 6, 7, 8, 9]);
}

#[test]
fn seventh_key_is_dropped() {
    let r = HidReport::build(&vec![4, 5, 6, 7, 8, 9, 10]);
    assert_eq!(r.as_bytes(), [0, 0, 4, 5, 6, 7, 8, 9]);
}

#[test]
fn keys_beyond_the_sixth_are_dropped_but_modifiers_still_count() {
    let r = HidReport::build(&vec![4, 5, 6, 0xE1, 7, 8, 9, 10, 0xE4, 11]);
    assert_eq!(r.as_bytes(), [0x12, 0, 4, 5, 6, 7, 8, 9]);
}

#[test]
fn the_code_for_no_key_takes_no_slot() {
    let r = HidReport::build(&vec![0, 4, 0, 5]);
    assert_eq!(r.as_bytes(), [0, 0, 4, 5, 0, 0, 0, 0]);
    assert!(!HidReport::build(&vec![0, 0]).is_active());
}

#[test]
fn reports_compare_byte_for_byte() {
    let a = HidReport::build(&vec![4, 5]);
    let b = HidReport::build(&vec![4, 5]);
    let c = HidReport::build(&vec![5, 4]);
    let d = HidReport::build(&vec![4, 5, 0xE0]);
    assert!(a.same_as(&b));
    assert!(!a.same_as(&c));
    assert!(!a.same_as(&d));
    assert!(HidReport::empty().same_as(&HidReport::build(&vec![])));
}
