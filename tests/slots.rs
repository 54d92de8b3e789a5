use stable_pool::instruction::{defi_account_slots, governance_account_slots, init_account_slots, AccountSlot};
use stable_pool::state::Key;

fn key(b: u8) -> Key {
    Key { bytes: [b; 32] }
}

fn flags(slots: &[AccountSlot]) -> Vec<(u8, bool, bool)> {
    slots.iter().map(|s| (s.key.bytes[0], s.is_signer, s.is_writable)).collect()
}

#[test]
fn init_slots_follow_the_read_order() {
    let r = init_account_slots(&key(1), &key(2), &vec![key(3), key(4)], &vec![key(5), key(6)], &key(7), &key(8));
    assert_eq!(
        flags(&r),
        vec![
            (1, false, true),
            (2, false, false),
            (3, false, false),
            (4, false, false),
            (5, false, false),
            (6, false, false),
            (7, false, false),
            (8, false, false),
        ]
    );
}

#[test]
fn defi_slots_sign_only_for_a_separate_authority() {
    let r = defi_account_slots(
        true,
        &key(1),
        &key(2),
        &vec![key(3), key(4)],
        &key(5),
        &key(6),
        &key(7),
        &vec![key(8), key(9)],
        &key(10),
        Some(key(11)),
    );
    assert_eq!(
        flags(&r),
        vec![
            (1, false, true),
            (2, false, false),
            (3, false, true),
            (4, false, true),
            (5, false, true),
            (6, false, true),
            (7, true, false),
            (8, false, true),
            (9, false, true),
            (10, false, false),
            (11, false, true),
        ]
    );
    let same = defi_account_slots(false, &key(1), &key(2), &vec![key(3)], &key(5), &key(6), &key(2), &vec![key(8)], &key(10), None);
    assert_eq!(same.len(), 8);
    assert_eq!(flags(&same)[0], (1, false, false));
    assert_eq!(flags(&same)[5], (2, false, false));
}

#[test]
fn governance_slots_name_the_fee_account_when_given() {
    assert_eq!(flags(&governance_account_slots(&key(1), &key(2), None)), vec![(1, false, true), (2, true, false)]);
    assert_eq!(
        flags(&governance_account_slots(&key(1), &key(2), Some(key(3)))),
        vec![(1, false, true), (2, true, false), (3, false, false)]
    );
}
