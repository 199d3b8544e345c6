use casperlabs_contract_ffi::bytesrepr::DecodeError;
use casperlabs_contract_ffi::bytesrepr::FromBytes;
use casperlabs_contract_ffi::bytesrepr::ToBytes;
use casperlabs_contract_ffi::key::AccessRights;
use casperlabs_contract_ffi::key::AccessRights::{Add, AddWrite, Eqv, Read, ReadAdd, ReadWrite, Write};
use std::cmp::Ordering;

const ALL: [AccessRights; 7] = [Eqv, Read, Write, Add, ReadAdd, ReadWrite, AddWrite];

fn test_capabilities(right: AccessRights, requires: AccessRights, is_true: bool) {
    assert_eq!(
        right >= requires,
        is_true,
        "{:?} isn't enough to perform {:?} operation",
        right,
        requires
    )
}

fn test_readable(right: AccessRights, is_true: bool) {
    test_capabilities(right, AccessRights::Read, is_true)
}

#[test]
fn test_is_readable() {
    test_readable(Read, true);
    test_readable(ReadAdd, true);
    test_readable(ReadWrite, true);
    test_readable(Add, false);
    test_readable(AddWrite, false);
    test_readable(Eqv, false);
    test_readable(Write, false);
}

fn test_writable(right: AccessRights, is_true: bool) {
    test_capabilities(right, Write, is_true)
}

#[test]
fn test_is_writable() {
    test_writable(Write, true);
    test_writable(ReadWrite, true);
    test_writable(AddWrite, true);
    test_writable(Eqv, false);
    test_writable(Read, false);
    test_writable(Add, false);
    test_writable(ReadAdd, false);
}

fn test_addable(right: AccessRights, is_true: bool) {
    test_capabilities(right, Add, is_true)
}

#[test]
fn test_is_addable() {
    test_addable(Add, true);
    test_addable(ReadAdd, true);
    test_addable(ReadWrite, true);
    test_addable(AddWrite, true);
    test_addable(Eqv, false);
    test_addable(Read, false);
    test_addable(Write, false);
}

#[test]
fn reads_partial_ordering() {
    let read = AccessRights::Read;
    assert_eq!(read == AccessRights::Read, true);
    assert_eq!(read < AccessRights::ReadAdd, true);
    assert_eq!(read < AccessRights::ReadWrite, true);
    assert_eq!(read != AccessRights::AddWrite, true);
    assert_eq!(read != AccessRights::Add, true);
    assert_eq!(read != AccessRights::Write, true);
}

#[test]
fn adds_partial_ordering() {
    let add = AccessRights::Add;
    assert_eq!(add == AccessRights::Add, true);
    assert_eq!(add < AccessRights::ReadAdd, true);
    assert_eq!(add < AccessRights::ReadWrite, true);
    assert_eq!(add < AccessRights::AddWrite, true);
    assert_eq!(add != AccessRights::Read, true);
    assert_eq!(add != AccessRights::Write, true);
}

#[test]
fn writes_partial_ordering() {
    let write = AccessRights::Write;
    assert_eq!(write == AccessRights::Write, true);
    assert_eq!(write < AccessRights::ReadWrite, true);
    assert_eq!(write < AccessRights::AddWrite, true);
    assert_eq!(write != AccessRights::Read, true);
    assert_eq!(write != AccessRights::Add, true);
    assert_eq!(write != AccessRights::ReadAdd, true);
}

#[test]
fn capability_methods() {
    assert_eq!(Read.is_readable(), true);
    assert_eq!(Write.is_readable(), false);
    assert_eq!(Add.is_writeable(), false);
    assert_eq!(AddWrite.is_addable(), true);
    assert_eq!(ReadWrite.is_addable(), true);
    assert_eq!(Eqv.is_readable(), false);
    assert_eq!(Eqv.is_writeable(), false);
    assert_eq!(Eqv.is_addable(), false);
}

#[test]
fn capability_methods_agree_with_the_order() {
    for r in ALL {
        assert_eq!(r.is_readable(), r >= Read);
        assert_eq!(r.is_writeable(), r >= Write);
        assert_eq!(r.is_addable(), r >= Add);
    }
}

#[test]
fn eqv_access_is_implicit() {
    for r in ALL {
        assert_eq!(Eqv <= r, true);
    }
}

#[test]
fn eqv_is_the_identity_of_merging() {
    for r in ALL {
        assert_eq!(Eqv.add(r), r);
        assert_eq!(r.add(Eqv), r);
    }
}

#[test]
fn access_rights_addition_symmetric() {
    for a in ALL {
        for b in ALL {
            assert_eq!(a.add(b), b.add(a));
        }
    }
}

#[test]
fn access_rights_addition_widen() {
    for a in ALL {
        for b in ALL {
            let merged = a.add(b);
            match a.partial_cmp(&b) {
                Some(Ordering::Greater) => assert!(a == merged),
                Some(Ordering::Less) => assert!(b == merged),
                Some(Ordering::Equal) => assert!(a == merged && b == merged),
                None => {
                    assert_eq!(merged.add(a), merged, "merged = {:?}", merged);
                    assert_eq!(merged.add(b), merged, "merged = {:?}", merged);
                }
            }
        }
    }
}

#[test]
fn merging_is_idempotent_and_associative() {
    for a in ALL {
        assert_eq!(a.add(a), a);
        for b in ALL {
            for c in ALL {
                assert_eq!(a.add(b).add(c), a.add(b.add(c)));
            }
        }
    }
}

#[test]
fn merges_of_rights_that_cannot_be_compared() {
    assert_eq!(Read.add(Add), ReadAdd);
    assert_eq!(Read.add(Write), ReadWrite);
    assert_eq!(Write.add(Add), AddWrite);
    assert_eq!(ReadAdd.add(AddWrite), ReadWrite);
    assert_eq!(ReadWrite.add(AddWrite), ReadWrite);
    assert_eq!(Read.add(AddWrite), ReadWrite);
    assert_eq!(Write.add(ReadAdd), ReadWrite);
}

#[test]
fn merges_of_rights_that_can_be_compared() {
    assert_eq!(Read.add(ReadAdd), ReadAdd);
    assert_eq!(ReadAdd.add(ReadWrite), ReadWrite);
    assert_eq!(Add.add(ReadWrite), ReadWrite);
    assert_eq!(Write.add(AddWrite), AddWrite);
    assert_eq!(AddWrite.add(Add), AddWrite);
}

#[test]
fn pairs_that_cannot_be_compared() {
    let pairs = [
        (Read, Write),
        (Read, Add),
        (Read, AddWrite),
        (Write, Add),
        (Write, ReadAdd),
        (ReadAdd, AddWrite),
        (ReadWrite, AddWrite),
    ];
    for (a, b) in pairs {
        assert_eq!(a.partial_cmp(&b), None);
        assert_eq!(b.partial_cmp(&a), None);
        assert_eq!(a < b, false);
        assert_eq!(a > b, false);
        assert_eq!(a <= b, false);
        assert_eq!(a >= b, false);
    }
}

#[test]
fn pairs_that_can_be_compared() {
    let pairs = [
        (Read, ReadAdd),
        (ReadAdd, ReadWrite),
        (Read, ReadWrite),
        (Add, ReadAdd),
        (Add, AddWrite),
        (Add, ReadWrite),
        (Write, ReadWrite),
        (Write, AddWrite),
    ];
    for (a, b) in pairs {
        assert_eq!(a.partial_cmp(&b), Some(Ordering::Less));
        assert_eq!(b.partial_cmp(&a), Some(Ordering::Greater));
    }
    for r in ALL {
        assert_eq!(r.partial_cmp(&r), Some(Ordering::Equal));
    }
}

#[test]
fn rights_are_encoded_as_their_tag() {
    assert_eq!(Eqv.to_bytes(), Ok(vec![1u8]));
    assert_eq!(Read.to_bytes(), Ok(vec![2u8]));
    assert_eq!(Add.to_bytes(), Ok(vec![3u8]));
    assert_eq!(Write.to_bytes(), Ok(vec![4u8]));
    assert_eq!(ReadAdd.to_bytes(), Ok(vec![5u8]));
    assert_eq!(ReadWrite.to_bytes(), Ok(vec![6u8]));
    assert_eq!(AddWrite.to_bytes(), Ok(vec![7u8]));
}

#[test]
fn rights_round_trip() {
    for r in ALL {
        let bytes = r.to_bytes().unwrap();
        let (back, rest) = AccessRights::from_bytes(&bytes).unwrap();
        assert_eq!(back, r);
        assert!(rest.is_empty());
    }
}

#[test]
fn rights_leave_what_follows_the_tag() {
    let (rights, rest) = AccessRights::from_bytes(&[6u8, 9, 8]).unwrap();
    assert_eq!(rights, ReadWrite);
    assert_eq!(rest, &[9u8, 8][..]);
}

#[test]
fn unknown_rights_tag_is_rejected() {
    for tag in [0u8, 8, 9, 100, 255] {
        assert_eq!(
            AccessRights::from_bytes(&[tag, 1, 2]).err(),
            Some(DecodeError::Formatting)
        );
    }
}

#[test]
fn rights_from_no_bytes_end_early() {
    assert_eq!(AccessRights::from_bytes(&[]).err(), Some(DecodeError::EarlyEnd));
}
