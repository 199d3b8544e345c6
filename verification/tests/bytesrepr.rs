use casperlabs_contract_ffi::bytesrepr::check_length;
use casperlabs_contract_ffi::bytesrepr::read_bytes;
use casperlabs_contract_ffi::bytesrepr::read_fixed;
use casperlabs_contract_ffi::bytesrepr::write_bytes;
use casperlabs_contract_ffi::bytesrepr::write_i32;
use casperlabs_contract_ffi::bytesrepr::write_raw;
use casperlabs_contract_ffi::bytesrepr::write_u32;
use casperlabs_contract_ffi::bytesrepr::DecodeError;
use casperlabs_contract_ffi::bytesrepr::EncodeError;
use casperlabs_contract_ffi::bytesrepr::FromBytes;
use casperlabs_contract_ffi::bytesrepr::ToBytes;

#[test]
fn u8_is_one_byte() {
    assert_eq!(7u8.to_bytes(), Ok(vec![7u8]));
    assert_eq!(u8::from_bytes(&[7, 8]), Ok((7u8, &[8u8][..])));
    assert_eq!(u8::from_bytes(&[]).err(), Some(DecodeError::EarlyEnd));
}

#[test]
fn u32_is_little_endian() {
    assert_eq!(0x0102_0304u32.to_bytes(), Ok(vec![4u8, 3, 2, 1]));
    assert_eq!(20u32.to_bytes(), Ok(vec![20u8, 0, 0, 0]));
    assert_eq!(0u32.to_bytes(), Ok(vec![0u8, 0, 0, 0]));
    assert_eq!(u32::MAX.to_bytes(), Ok(vec![255u8, 255, 255, 255]));
    assert_eq!(256u32.to_bytes(), Ok(vec![0u8, 1, 0, 0]));
}

#[test]
fn u32_agrees_with_std() {
    for x in [0u32, 1, 255, 256, 65535, 65536, 16777215, 16777216, 0xdead_beef, u32::MAX] {
        assert_eq!(x.to_bytes().unwrap(), x.to_le_bytes().to_vec());
        assert_eq!(u32::from_bytes(&x.to_le_bytes()), Ok((x, &[][..])));
    }
}

#[test]
fn i32_is_little_endian_twos_complement() {
    assert_eq!(1i32.to_bytes(), Ok(vec![1u8, 0, 0, 0]));
    assert_eq!((-1i32).to_bytes(), Ok(vec![255u8, 255, 255, 255]));
    assert_eq!((-2i32).to_bytes(), Ok(vec![254u8, 255, 255, 255]));
    assert_eq!(i32::MIN.to_bytes(), Ok(vec![0u8, 0, 0, 128]));
    assert_eq!(i32::MAX.to_bytes(), Ok(vec![255u8, 255, 255, 127]));
}

#[test]
fn i32_agrees_with_std() {
    for x in [0i32, 1, -1, 127, -128, 32767, -32768, 123456789, -123456789, i32::MIN, i32::MAX] {
        assert_eq!(x.to_bytes().unwrap(), x.to_le_bytes().to_vec());
        assert_eq!(i32::from_bytes(&x.to_le_bytes()), Ok((x, &[][..])));
    }
}

#[test]
fn integers_from_too_few_bytes_end_early() {
    assert_eq!(u32::from_bytes(&[1, 2, 3]).err(), Some(DecodeError::EarlyEnd));
    assert_eq!(i32::from_bytes(&[1, 2, 3]).err(), Some(DecodeError::EarlyEnd));
    assert_eq!(u32::from_bytes(&[]).err(), Some(DecodeError::EarlyEnd));
}

#[test]
fn integers_leave_what_follows() {
    assert_eq!(u32::from_bytes(&[1, 0, 0, 0, 9, 9]), Ok((1u32, &[9u8, 9][..])));
    assert_eq!(i32::from_bytes(&[255, 255, 255, 255, 9]), Ok((-1i32, &[9u8][..])));
}

#[test]
fn writers_append() {
    let mut out = vec![9u8];
    write_u32(&mut out, 1);
    write_i32(&mut out, -1);
    write_raw(&mut out, &[5, 6]);
    write_bytes(&mut out, &[7, 8, 9]);
    assert_eq!(
        out,
        vec![9u8, 1, 0, 0, 0, 255, 255, 255, 255, 5, 6, 3, 0, 0, 0, 7, 8, 9]
    );
}

#[test]
fn fixed_arrays_are_raw() {
    let array = [1u8, 2, 3, 4, 5];
    assert_eq!(array.to_bytes(), Ok(vec![1u8, 2, 3, 4, 5]));
    assert_eq!(<[u8; 5]>::from_bytes(&[1, 2, 3, 4, 5, 6]), Ok((array, &[6u8][..])));
    assert_eq!(<[u8; 5]>::from_bytes(&[1, 2, 3, 4]).err(), Some(DecodeError::EarlyEnd));
    assert_eq!(<[u8; 0]>::from_bytes(&[1]), Ok(([], &[1u8][..])));
}

#[test]
fn read_fixed_splits() {
    assert_eq!(read_fixed(&[1, 2, 3], 2), Ok((&[1u8, 2][..], &[3u8][..])));
    assert_eq!(read_fixed(&[1, 2, 3], 3), Ok((&[1u8, 2, 3][..], &[][..])));
    assert_eq!(read_fixed(&[1, 2, 3], 0), Ok((&[][..], &[1u8, 2, 3][..])));
    assert_eq!(read_fixed(&[1, 2, 3], 4).err(), Some(DecodeError::EarlyEnd));
}

#[test]
fn read_bytes_takes_the_announced_length() {
    assert_eq!(read_bytes(&[2, 0, 0, 0, 7, 8, 9]), Ok((vec![7u8, 8], &[9u8][..])));
    assert_eq!(read_bytes(&[0, 0, 0, 0]), Ok((vec![], &[][..])));
    assert_eq!(read_bytes(&[3, 0, 0, 0, 7, 8]).err(), Some(DecodeError::EarlyEnd));
    assert_eq!(read_bytes(&[3, 0, 0]).err(), Some(DecodeError::EarlyEnd));
}

#[test]
fn byte_vectors_are_length_prefixed() {
    assert_eq!(vec![7u8, 8, 9].to_bytes(), Ok(vec![3u8, 0, 0, 0, 7, 8, 9]));
    assert_eq!(Vec::<u8>::new().to_bytes(), Ok(vec![0u8, 0, 0, 0]));
    assert_eq!(
        Vec::<u8>::from_bytes(&[3, 0, 0, 0, 7, 8, 9, 1]),
        Ok((vec![7u8, 8, 9], &[1u8][..]))
    );
    assert_eq!(
        Vec::<u8>::from_bytes(&[4, 0, 0, 0, 7, 8, 9]).err(),
        Some(DecodeError::EarlyEnd)
    );
}

#[test]
fn integer_lists_count_elements() {
    assert_eq!(
        vec![1i32, -1].to_bytes(),
        Ok(vec![2u8, 0, 0, 0, 1, 0, 0, 0, 255, 255, 255, 255])
    );
    assert_eq!(
        Vec::<i32>::from_bytes(&[2, 0, 0, 0, 1, 0, 0, 0, 255, 255, 255, 255, 5]),
        Ok((vec![1i32, -1], &[5u8][..]))
    );
    assert_eq!(
        Vec::<i32>::from_bytes(&[2, 0, 0, 0, 1, 0, 0, 0, 255, 255, 255]).err(),
        Some(DecodeError::EarlyEnd)
    );
}

#[test]
fn strings_are_length_prefixed_utf8() {
    assert_eq!("abc".to_string().to_bytes(), Ok(vec![3u8, 0, 0, 0, 97, 98, 99]));
    assert_eq!(String::new().to_bytes(), Ok(vec![0u8, 0, 0, 0]));
    // The length counts bytes, not characters.
    assert_eq!("\u{e9}".to_string().to_bytes(), Ok(vec![2u8, 0, 0, 0, 0xc3, 0xa9]));
    assert_eq!(
        "\u{20ac}\u{1d11e}".to_string().to_bytes(),
        Ok(vec![7u8, 0, 0, 0, 0xe2, 0x82, 0xac, 0xf0, 0x9d, 0x84, 0x9e])
    );
}

#[test]
fn strings_are_read_back() {
    assert_eq!(
        String::from_bytes(&[3, 0, 0, 0, 97, 98, 99, 100]),
        Ok(("abc".to_string(), &[100u8][..]))
    );
    assert_eq!(
        String::from_bytes(&[2, 0, 0, 0, 0xc3, 0xa9]),
        Ok(("\u{e9}".to_string(), &[][..]))
    );
    assert_eq!(String::from_bytes(&[0, 0, 0, 0]), Ok((String::new(), &[][..])));
}

#[test]
fn strings_that_are_not_utf8_are_rejected() {
    assert_eq!(
        String::from_bytes(&[2, 0, 0, 0, 0xff, 0xfe]).err(),
        Some(DecodeError::Formatting)
    );
    // A sequence cut in the middle of a character.
    assert_eq!(
        String::from_bytes(&[1, 0, 0, 0, 0xc3, 0xa9]).err(),
        Some(DecodeError::Formatting)
    );
    // An overlong form of '/'.
    assert_eq!(
        String::from_bytes(&[2, 0, 0, 0, 0xc0, 0xaf]).err(),
        Some(DecodeError::Formatting)
    );
}

#[test]
fn strings_that_end_early() {
    assert_eq!(
        String::from_bytes(&[4, 0, 0, 0, 97, 98, 99]).err(),
        Some(DecodeError::EarlyEnd)
    );
    assert_eq!(String::from_bytes(&[4, 0]).err(), Some(DecodeError::EarlyEnd));
}

#[test]
fn string_lists_nest_length_prefixes() {
    let list = vec!["ab".to_string(), String::new(), "c".to_string()];
    let bytes = list.to_bytes().unwrap();
    assert_eq!(
        bytes,
        vec![3u8, 0, 0, 0, 2, 0, 0, 0, 97, 98, 0, 0, 0, 0, 1, 0, 0, 0, 99]
    );
    assert_eq!(Vec::<String>::from_bytes(&bytes), Ok((list, &[][..])));
}

#[test]
fn a_list_gives_the_error_of_its_first_bad_element() {
    // Two strings announced; the second is not UTF-8.
    assert_eq!(
        Vec::<String>::from_bytes(&[2, 0, 0, 0, 1, 0, 0, 0, 97, 1, 0, 0, 0, 0xff]).err(),
        Some(DecodeError::Formatting)
    );
    // Two strings announced; the second is missing.
    assert_eq!(
        Vec::<String>::from_bytes(&[2, 0, 0, 0, 1, 0, 0, 0, 97]).err(),
        Some(DecodeError::EarlyEnd)
    );
}

#[test]
fn nested_lists() {
    let lists = vec![vec![1u8, 2], vec![], vec![3u8]];
    let bytes = lists.to_bytes().unwrap();
    assert_eq!(
        bytes,
        vec![3u8, 0, 0, 0, 2, 0, 0, 0, 1, 2, 0, 0, 0, 0, 1, 0, 0, 0, 3]
    );
    assert_eq!(Vec::<Vec<u8>>::from_bytes(&bytes), Ok((lists, &[][..])));
}

#[test]
fn a_huge_announced_length_ends_early() {
    assert_eq!(
        Vec::<u8>::from_bytes(&[255, 255, 255, 255, 1, 2, 3]).err(),
        Some(DecodeError::EarlyEnd)
    );
    assert_eq!(
        Vec::<i32>::from_bytes(&[255, 255, 255, 255]).err(),
        Some(DecodeError::EarlyEnd)
    );
    assert_eq!(
        String::from_bytes(&[255, 255, 255, 255, 97]).err(),
        Some(DecodeError::EarlyEnd)
    );
}

#[test]
fn lengths_near_the_limit_do_not_fit() {
    let max = u32::MAX as usize;
    assert_eq!(check_length(0, 4), Ok(()));
    assert_eq!(check_length(max - 5, 4), Ok(()));
    assert_eq!(check_length(max - 4, 4), Err(EncodeError::OutOfMemory));
    assert_eq!(check_length(max, 4), Err(EncodeError::OutOfMemory));
    assert_eq!(check_length(max - 6, 5), Ok(()));
    assert_eq!(check_length(max - 5, 5), Err(EncodeError::OutOfMemory));
    assert_eq!(check_length(max - 1, 0), Ok(()));
    assert_eq!(check_length(max, 0), Err(EncodeError::OutOfMemory));
    assert_eq!(check_length(0, max), Err(EncodeError::OutOfMemory));
}

#[test]
fn a_list_of_too_many_elements_is_out_of_memory() {
    // Elements that take no room can be counted up to the limit.
    let max = u32::MAX as usize;
    let list = vec![[0u8; 0]; max - 4];
    assert_eq!(list.to_bytes(), Err(EncodeError::OutOfMemory));
    let list = vec![[0u8; 0]; max];
    assert_eq!(list.to_bytes(), Err(EncodeError::OutOfMemory));
    let list = vec![[0u8; 0]; 3];
    assert_eq!(list.to_bytes(), Ok(vec![3u8, 0, 0, 0]));
}
