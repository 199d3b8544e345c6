use casperlabs_contract_ffi::bytesrepr::DecodeError;
use casperlabs_contract_ffi::bytesrepr::FromBytes;
use casperlabs_contract_ffi::bytesrepr::ToBytes;
use casperlabs_contract_ffi::contract_api::pointers::ContractPointer;
use casperlabs_contract_ffi::contract_api::pointers::UPointer;
use casperlabs_contract_ffi::key::lexicographic_sign;
use casperlabs_contract_ffi::key::same_bytes;
use casperlabs_contract_ffi::key::AccessRights;
use casperlabs_contract_ffi::key::Key;
use casperlabs_contract_ffi::key::UREF_SIZE;
use std::cmp::Ordering;
use std::collections::hash_map::DefaultHasher;
use std::hash::Hash;
use std::hash::Hasher;

fn sample_keys() -> Vec<Key> {
    let mut id = [0u8; 32];
    for i in 0..32 {
        id[i] = i as u8;
    }
    vec![
        Key::Account([0u8; 20]),
        Key::Account([0x11u8; 20]),
        Key::Account([0xffu8; 20]),
        Key::Hash([0u8; 32]),
        Key::Hash(id),
        Key::Hash([0xffu8; 32]),
        Key::URef([0u8; 32], AccessRights::Eqv),
        Key::URef(id, AccessRights::Read),
        Key::URef(id, AccessRights::Write),
        Key::URef(id, AccessRights::Add),
        Key::URef(id, AccessRights::ReadAdd),
        Key::URef(id, AccessRights::ReadWrite),
        Key::URef([0xffu8; 32], AccessRights::AddWrite),
    ]
}

#[test]
fn uref_encoding_is_tag_id_rights() {
    let key = Key::URef([0xAAu8; 32], AccessRights::ReadWrite);
    let mut expected = vec![2u8];
    expected.extend_from_slice(&[0xAAu8; 32]);
    expected.push(6);
    let bytes = key.to_bytes().unwrap();
    assert_eq!(bytes, expected);
    assert_eq!(bytes.len(), 34);
    let (back, rest) = Key::from_bytes(&bytes).unwrap();
    assert_eq!(back, key);
    assert_eq!(rest.len(), 0);
}

#[test]
fn account_encoding_has_a_length_prefix() {
    let key = Key::Account([0x11u8; 20]);
    let mut expected = vec![0u8, 20, 0, 0, 0];
    expected.extend_from_slice(&[0x11u8; 20]);
    assert_eq!(key.to_bytes(), Ok(expected));
}

#[test]
fn hash_encoding_is_tag_and_raw_id() {
    let key = Key::Hash([0x22u8; 32]);
    let mut expected = vec![1u8];
    expected.extend_from_slice(&[0x22u8; 32]);
    assert_eq!(key.to_bytes(), Ok(expected));
}

#[test]
fn keys_round_trip() {
    for key in sample_keys() {
        let bytes = key.to_bytes().unwrap();
        let (back, rest) = Key::from_bytes(&bytes).unwrap();
        assert_eq!(back, key);
        assert!(rest.is_empty());
    }
}

#[test]
fn keys_leave_what_follows() {
    for key in sample_keys() {
        let mut bytes = key.to_bytes().unwrap();
        bytes.extend_from_slice(&[1, 2, 3]);
        let (back, rest) = Key::from_bytes(&bytes).unwrap();
        assert_eq!(back, key);
        assert_eq!(rest, &[1u8, 2, 3][..]);
    }
}

#[test]
fn encoded_keys_are_no_longer_than_uref_size() {
    assert_eq!(UREF_SIZE, 38);
    for key in sample_keys() {
        assert!(key.to_bytes().unwrap().len() <= UREF_SIZE);
    }
}

#[test]
fn unknown_key_tag_is_rejected() {
    for tag in [3u8, 4, 100, 255] {
        let mut bytes = vec![tag];
        bytes.extend_from_slice(&[0u8; 40]);
        assert_eq!(Key::from_bytes(&bytes).err(), Some(DecodeError::Formatting));
    }
}

#[test]
fn account_id_of_wrong_length_is_rejected() {
    let mut short = vec![0u8, 19, 0, 0, 0];
    short.extend_from_slice(&[7u8; 19]);
    assert_eq!(Key::from_bytes(&short).err(), Some(DecodeError::Formatting));
    let mut long = vec![0u8, 21, 0, 0, 0];
    long.extend_from_slice(&[7u8; 21]);
    assert_eq!(Key::from_bytes(&long).err(), Some(DecodeError::Formatting));
    assert_eq!(
        Key::from_bytes(&[0u8, 0, 0, 0, 0]).err(),
        Some(DecodeError::Formatting)
    );
}

#[test]
fn uref_with_unknown_rights_is_rejected() {
    let mut bytes = vec![2u8];
    bytes.extend_from_slice(&[5u8; 32]);
    bytes.push(0);
    assert_eq!(Key::from_bytes(&bytes).err(), Some(DecodeError::Formatting));
    let last = bytes.len() - 1;
    bytes[last] = 8;
    assert_eq!(Key::from_bytes(&bytes).err(), Some(DecodeError::Formatting));
}

#[test]
fn truncated_keys_end_early() {
    assert_eq!(Key::from_bytes(&[]).err(), Some(DecodeError::EarlyEnd));
    for key in sample_keys() {
        let bytes = key.to_bytes().unwrap();
        for n in 0..bytes.len() {
            assert_eq!(
                Key::from_bytes(&bytes[..n]).err(),
                Some(DecodeError::EarlyEnd),
                "{:?} cut to {} bytes",
                key,
                n
            );
        }
    }
}

#[test]
fn key_lists_round_trip() {
    let none: Vec<Key> = vec![];
    assert_eq!(none.to_bytes(), Ok(vec![0u8, 0, 0, 0]));
    assert_eq!(Vec::<Key>::from_bytes(&[0, 0, 0, 0]), Ok((none, &[][..])));

    let one = vec![Key::Hash([3u8; 32])];
    let bytes = one.to_bytes().unwrap();
    assert_eq!(&bytes[..5], &[1u8, 0, 0, 0, 1][..]);
    assert_eq!(bytes.len(), 4 + 33);
    assert_eq!(Vec::<Key>::from_bytes(&bytes), Ok((one, &[][..])));

    let many = sample_keys();
    let bytes = many.to_bytes().unwrap();
    assert_eq!(&bytes[..4], &[13u8, 0, 0, 0][..]);
    let mut expected = vec![13u8, 0, 0, 0];
    for key in many.iter() {
        expected.extend(key.to_bytes().unwrap());
    }
    assert_eq!(bytes, expected);
    assert_eq!(Vec::<Key>::from_bytes(&bytes), Ok((many, &[][..])));
}

#[test]
fn key_list_with_a_bad_key_is_rejected() {
    let mut bytes = vec![2u8, 0, 0, 0];
    bytes.extend(Key::Hash([3u8; 32]).to_bytes().unwrap());
    bytes.push(9);
    assert_eq!(
        Vec::<Key>::from_bytes(&bytes).err(),
        Some(DecodeError::Formatting)
    );
}

#[test]
fn urefs_that_differ_in_rights_are_equal_in_order_and_unequal() {
    let a = Key::URef([7u8; 32], AccessRights::Read);
    let b = Key::URef([7u8; 32], AccessRights::ReadWrite);
    assert_eq!(a.cmp(&b), Ordering::Equal);
    assert_eq!(b.cmp(&a), Ordering::Equal);
    assert_eq!(a.partial_cmp(&b), Some(Ordering::Equal));
    assert_ne!(a, b);
    assert!(!(a == b));
}

#[test]
fn keys_are_ordered_by_kind_first() {
    let account = Key::Account([0xffu8; 20]);
    let hash = Key::Hash([0x80u8; 32]);
    let uref = Key::URef([0u8; 32], AccessRights::Eqv);
    assert_eq!(account.cmp(&hash), Ordering::Less);
    assert_eq!(account.cmp(&uref), Ordering::Less);
    assert_eq!(hash.cmp(&uref), Ordering::Less);
    assert_eq!(hash.cmp(&account), Ordering::Greater);
    assert_eq!(uref.cmp(&account), Ordering::Greater);
    assert_eq!(uref.cmp(&hash), Ordering::Greater);
    assert!(account < hash);
    assert!(hash < uref);
}

#[test]
fn keys_of_one_kind_are_ordered_by_id() {
    let mut low = [5u8; 32];
    let mut high = [5u8; 32];
    low[31] = 1;
    high[31] = 2;
    assert_eq!(Key::Hash(low).cmp(&Key::Hash(high)), Ordering::Less);
    assert_eq!(Key::Hash(high).cmp(&Key::Hash(low)), Ordering::Greater);
    assert_eq!(Key::Hash(low).cmp(&Key::Hash(low)), Ordering::Equal);
    // The first byte that differs decides.
    low[0] = 9;
    assert_eq!(Key::Hash(low).cmp(&Key::Hash(high)), Ordering::Greater);
    assert_eq!(
        Key::URef(low, AccessRights::Eqv).cmp(&Key::URef(high, AccessRights::ReadWrite)),
        Ordering::Greater
    );
    assert_eq!(
        Key::Account([1u8; 20]).cmp(&Key::Account([2u8; 20])),
        Ordering::Less
    );
}

#[test]
fn the_order_of_keys_agrees_with_the_order_of_their_ids() {
    let keys = sample_keys();
    for a in keys.iter() {
        for b in keys.iter() {
            let rank = |k: &Key| match k {
                Key::Account(_) => 0,
                Key::Hash(_) => 1,
                Key::URef(_, _) => 2,
            };
            let expected = rank(a)
                .cmp(&rank(b))
                .then_with(|| a.as_ref().cmp(b.as_ref()));
            assert_eq!(a.cmp(b), expected);
            assert_eq!(a.partial_cmp(b), Some(expected));
        }
    }
}

#[test]
fn lexicographic_sign_of_slices() {
    assert_eq!(lexicographic_sign(&[], &[]), 0);
    assert_eq!(lexicographic_sign(&[], &[0]), -1);
    assert_eq!(lexicographic_sign(&[0], &[]), 1);
    assert_eq!(lexicographic_sign(&[1, 2, 3], &[1, 2, 3]), 0);
    assert_eq!(lexicographic_sign(&[1, 2, 3], &[1, 2, 4]), -1);
    assert_eq!(lexicographic_sign(&[1, 3, 3], &[1, 2, 4]), 1);
    assert_eq!(lexicographic_sign(&[1, 2], &[1, 2, 0]), -1);
    assert_eq!(lexicographic_sign(&[200], &[100, 255]), 1);
}

#[test]
fn equal_keys_have_equal_hashes() {
    let hash = |k: &Key| {
        let mut hasher = DefaultHasher::new();
        k.hash(&mut hasher);
        hasher.finish()
    };
    let keys = sample_keys();
    for a in keys.iter() {
        for b in keys.iter() {
            if a == b {
                assert_eq!(hash(a), hash(b));
            }
        }
    }
}

#[test]
fn as_ref_is_the_id() {
    assert_eq!(Key::Account([1u8; 20]).as_ref(), &[1u8; 20][..]);
    assert_eq!(Key::Hash([2u8; 32]).as_ref(), &[2u8; 32][..]);
    assert_eq!(
        Key::URef([3u8; 32], AccessRights::Add).as_ref(),
        &[3u8; 32][..]
    );
}

#[test]
fn to_u_ptr_only_for_urefs() {
    let ptr: Option<UPointer<i32>> = Key::URef([3u8; 32], AccessRights::ReadAdd).to_u_ptr();
    assert_eq!(ptr, Some(UPointer::new([3u8; 32], AccessRights::ReadAdd)));
    let ptr = ptr.unwrap();
    assert_eq!(ptr.0, [3u8; 32]);
    assert_eq!(ptr.1, AccessRights::ReadAdd);
    assert_eq!(Key::Hash([3u8; 32]).to_u_ptr::<i32>(), None);
    assert_eq!(Key::Account([3u8; 20]).to_u_ptr::<i32>(), None);
}

#[test]
fn to_c_ptr_for_hashes_and_urefs() {
    assert_eq!(
        Key::Hash([4u8; 32]).to_c_ptr(),
        Some(ContractPointer::Hash([4u8; 32]))
    );
    assert_eq!(
        Key::URef([5u8; 32], AccessRights::Read).to_c_ptr(),
        Some(ContractPointer::URef(UPointer::new(
            [5u8; 32],
            AccessRights::Read
        )))
    );
    assert_eq!(Key::Account([6u8; 20]).to_c_ptr(), None);
}

#[test]
fn same_bytes_of_slices() {
    assert!(same_bytes(&[], &[]));
    assert!(same_bytes(&[1, 2, 3], &[1, 2, 3]));
    assert!(!same_bytes(&[1, 2, 3], &[1, 2, 4]));
    assert!(!same_bytes(&[1, 2, 3], &[1, 2]));
    assert!(!same_bytes(&[], &[0]));
}

#[test]
fn keys_are_equal_by_kind_id_and_rights() {
    assert_eq!(Key::Hash([1u8; 32]), Key::Hash([1u8; 32]));
    assert_ne!(Key::Hash([1u8; 32]), Key::Hash([2u8; 32]));
    assert_ne!(Key::Hash([1u8; 32]), Key::URef([1u8; 32], AccessRights::Eqv));
    assert_ne!(Key::Account([1u8; 20]), Key::Account([2u8; 20]));
    assert_eq!(
        Key::URef([1u8; 32], AccessRights::Add),
        Key::URef([1u8; 32], AccessRights::Add)
    );
    assert_ne!(
        Key::URef([1u8; 32], AccessRights::Add),
        Key::URef([1u8; 32], AccessRights::AddWrite)
    );
    let mut id = [1u8; 32];
    id[31] = 0;
    assert_ne!(
        Key::URef([1u8; 32], AccessRights::Add),
        Key::URef(id, AccessRights::Add)
    );
}

#[test]
fn pointers_are_copied() {
    let ptr: UPointer<i32> = UPointer::new([9u8; 32], AccessRights::Write);
    let copy = ptr;
    assert_eq!(ptr.clone(), copy);
    assert_eq!(copy.0, [9u8; 32]);
    assert_eq!(copy.1, AccessRights::Write);
}
