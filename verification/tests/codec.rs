use state_engine::access_rights::AccessRights;
use state_engine::bytesrepr::{
    bytes_from_bytes, bytes_to_bytes, expect_end, string_from_bytes, string_to_bytes,
    u32_from_bytes, u32_to_bytes, u64_from_bytes, u64_to_bytes, u8_from_bytes, u8_to_bytes, Error,
};
use state_engine::contract::Contract;
use state_engine::digest::digest_of;
use state_engine::key::Key;
use state_engine::named_keys::NamedKeys;
use state_engine::protocol_version::ProtocolVersion;
use state_engine::stored_value::{Account, StoredValue, Value};

fn sample_keys() -> NamedKeys {
    let mut keys = NamedKeys::new();
    keys.insert("Foo".to_string(), Key::Hash([7u8; 32]));
    keys.insert("Bar".to_string(), Key::URef([9u8; 32], AccessRights::READ_WRITE()));
    keys
}

#[test]
fn scalars_are_little_endian() {
    assert_eq!(u8_to_bytes(0xab), vec![0xab]);
    assert_eq!(u32_to_bytes(0x0102_0304), vec![4, 3, 2, 1]);
    assert_eq!(u64_to_bytes(0x0102_0304_0506_0708), vec![8, 7, 6, 5, 4, 3, 2, 1]);
    assert_eq!(u32_to_bytes(0), vec![0, 0, 0, 0]);
    assert_eq!(u32_to_bytes(u32::MAX), vec![255, 255, 255, 255]);
}

#[test]
fn scalars_round_trip_with_remainder() {
    let input = [4u8, 3, 2, 1, 0xee];
    let (v, rest) = u32_from_bytes(&input).unwrap();
    assert_eq!(v, 0x0102_0304);
    assert_eq!(rest, &[0xeeu8][..]);
    let bytes = u64_to_bytes(u64::MAX - 5);
    let (w, rest) = u64_from_bytes(&bytes).unwrap();
    assert_eq!(w, u64::MAX - 5);
    assert!(rest.is_empty());
    let (b, rest) = u8_from_bytes(&[1u8, 2]).unwrap();
    assert_eq!(b, 1);
    assert_eq!(rest, &[2u8][..]);
}

#[test]
fn short_scalars_end_early() {
    assert_eq!(u8_from_bytes(&[]).unwrap_err(), Error::EarlyEndOfStream);
    assert_eq!(u32_from_bytes(&[1, 2, 3]).unwrap_err(), Error::EarlyEndOfStream);
    assert_eq!(u64_from_bytes(&[1, 2, 3, 4, 5, 6, 7]).unwrap_err(), Error::EarlyEndOfStream);
}

#[test]
fn byte_strings_are_length_prefixed() {
    assert_eq!(bytes_to_bytes(&[0xaa, 0xbb, 0xcc]), Ok(vec![3, 0, 0, 0, 0xaa, 0xbb, 0xcc]));
    assert_eq!(bytes_to_bytes(&[]), Ok(vec![0, 0, 0, 0]));
    let input = [2u8, 0, 0, 0, 5, 6, 7];
    let (body, rest) = bytes_from_bytes(&input).unwrap();
    assert_eq!(body, vec![5, 6]);
    assert_eq!(rest, &[7u8][..]);
}

#[test]
fn byte_string_shorter_than_its_prefix_ends_early() {
    assert_eq!(bytes_from_bytes(&[3, 0, 0, 0, 1, 2]).unwrap_err(), Error::EarlyEndOfStream);
    assert_eq!(bytes_from_bytes(&[3, 0, 0]).unwrap_err(), Error::EarlyEndOfStream);
}

#[test]
fn key_encodings() {
    let account = Key::Account([1u8; 20]);
    let mut expected = vec![0u8, 20, 0, 0, 0];
    expected.extend_from_slice(&[1u8; 20]);
    assert_eq!(account.to_bytes(), Ok(expected));

    let hash = Key::Hash([2u8; 32]);
    let mut expected = vec![1u8, 32, 0, 0, 0];
    expected.extend_from_slice(&[2u8; 32]);
    assert_eq!(hash.to_bytes(), Ok(expected));

    let uref = Key::URef([3u8; 32], AccessRights::READ_ADD());
    let mut expected = vec![2u8, 32, 0, 0, 0];
    expected.extend_from_slice(&[3u8; 32]);
    expected.push(5);
    assert_eq!(uref.to_bytes().unwrap().len(), 38);
    assert_eq!(uref.to_bytes(), Ok(expected));
}

#[test]
fn keys_round_trip() {
    let keys = [
        Key::Account([0x11u8; 20]),
        Key::Hash([0x22u8; 32]),
        Key::URef([0x33u8; 32], AccessRights::READ_ADD_WRITE()),
        Key::URef([0x44u8; 32], AccessRights::empty()),
    ];
    for key in keys.iter() {
        let mut bytes = key.to_bytes().unwrap();
        let (back, rest) = Key::from_bytes(&bytes).unwrap();
        assert_eq!(back, *key);
        assert!(rest.is_empty());
        bytes.push(0x99);
        let (back, rest) = Key::from_bytes(&bytes).unwrap();
        assert_eq!(back, *key);
        assert_eq!(rest, &[0x99u8][..]);
    }
}

#[test]
fn malformed_keys_are_rejected() {
    assert_eq!(Key::from_bytes(&[]).unwrap_err(), Error::EarlyEndOfStream);
    assert_eq!(Key::from_bytes(&[3u8, 0, 0, 0, 0]).unwrap_err(), Error::FormattingError);
    assert_eq!(Key::from_bytes(&[0u8, 20, 0, 0, 0, 1, 2]).unwrap_err(), Error::EarlyEndOfStream);
    // An account address of the wrong length.
    assert_eq!(Key::from_bytes(&[0u8, 2, 0, 0, 0, 1, 2]).unwrap_err(), Error::FormattingError);
    // A reference whose rights hold a foreign bit.
    let mut bytes = vec![2u8, 32, 0, 0, 0];
    bytes.extend_from_slice(&[3u8; 32]);
    bytes.push(8);
    assert_eq!(Key::from_bytes(&bytes).unwrap_err(), Error::FormattingError);
    // A reference without its rights.
    bytes.pop();
    assert_eq!(Key::from_bytes(&bytes).unwrap_err(), Error::EarlyEndOfStream);
}

#[test]
fn rights_are_no_part_of_the_storage_identity() {
    let a = Key::URef([5u8; 32], AccessRights::READ());
    let b = Key::URef([5u8; 32], AccessRights::WRITE());
    assert_ne!(a, b);
    assert!(a.same_cell(&b));
    assert_eq!(a.storage_bytes(), b.storage_bytes());
    assert_eq!(a.normalize(), b.normalize());
    assert_eq!(a.normalize(), Key::URef([5u8; 32], AccessRights::empty()));
    assert!(!a.same_cell(&Key::Hash([5u8; 32])));
    assert!(!a.same_cell(&Key::URef([6u8; 32], AccessRights::READ())));
    assert_eq!(a.access_rights(), Some(AccessRights::READ()));
    assert_eq!(Key::Hash([5u8; 32]).access_rights(), None);
    assert_eq!(Key::Account([1u8; 20]).normalize(), Key::Account([1u8; 20]));
}

#[test]
fn protocol_versions_are_ordered_as_triples() {
    let v100 = ProtocolVersion::V1_0_0();
    assert_eq!(v100, ProtocolVersion::from_parts(1, 0, 0));
    assert!(ProtocolVersion::from_parts(0, 9, 9).lt(&v100));
    assert!(v100.lt(&ProtocolVersion::from_parts(1, 0, 1)));
    assert!(ProtocolVersion::from_parts(1, 2, 0).lt(&ProtocolVersion::from_parts(1, 10, 0)));
    assert!(!v100.lt(&v100));
    assert!(!ProtocolVersion::from_parts(2, 0, 0).lt(&ProtocolVersion::from_parts(1, 9, 9)));
    assert_eq!(ProtocolVersion::from_parts(0, 1, 0).at_least(v100), v100);
    assert_eq!(ProtocolVersion::from_parts(2, 1, 0).at_least(v100), ProtocolVersion::from_parts(2, 1, 0));
}

#[test]
fn protocol_version_codec() {
    let v = ProtocolVersion::from_parts(1, 2, 0x0300);
    assert_eq!(v.to_bytes(), Ok(vec![1, 0, 0, 0, 2, 0, 0, 0, 0, 3, 0, 0]));
    let bytes = v.to_bytes().unwrap();
    let (back, rest) = ProtocolVersion::from_bytes(&bytes).unwrap();
    assert_eq!(back, v);
    assert!(rest.is_empty());
    assert_eq!(ProtocolVersion::from_bytes(&bytes[..11]).unwrap_err(), Error::EarlyEndOfStream);
}

#[test]
fn named_keys_behave_as_a_map() {
    let mut keys = sample_keys();
    assert_eq!(keys.len(), 2);
    assert_eq!(keys.get("Foo"), Some(Key::Hash([7u8; 32])));
    assert_eq!(keys.get("Baz"), None);
    keys.insert("Foo".to_string(), Key::Account([1u8; 20]));
    assert_eq!(keys.len(), 2);
    assert_eq!(keys.get("Foo"), Some(Key::Account([1u8; 20])));
    // The names come out in the order of their bytes.
    assert_eq!(keys.name_at(0), "Bar");
    assert_eq!(keys.name_at(1), "Foo");
    assert_eq!(keys.key_at(1), Key::Account([1u8; 20]));
}

#[test]
fn named_keys_do_not_depend_on_insertion_order() {
    let mut a = NamedKeys::new();
    a.insert("x".to_string(), Key::Hash([1u8; 32]));
    a.insert("y".to_string(), Key::Hash([2u8; 32]));
    a.insert("xa".to_string(), Key::Hash([3u8; 32]));
    let mut b = NamedKeys::new();
    b.insert("xa".to_string(), Key::Hash([3u8; 32]));
    b.insert("y".to_string(), Key::Hash([2u8; 32]));
    b.insert("x".to_string(), Key::Hash([1u8; 32]));
    assert_eq!(a.to_bytes(), b.to_bytes());
    assert_eq!(a.name_at(0), "x");
    assert_eq!(a.name_at(1), "xa");
    assert_eq!(a.name_at(2), "y");
}

#[test]
fn named_keys_append_is_right_biased() {
    let mut left = sample_keys();
    let mut right = NamedKeys::new();
    right.insert("Foo".to_string(), Key::Account([4u8; 20]));
    right.insert("Qux".to_string(), Key::Hash([5u8; 32]));
    left.append(&right);
    assert_eq!(left.len(), 3);
    assert_eq!(left.get("Foo"), Some(Key::Account([4u8; 20])));
    assert_eq!(left.get("Bar"), Some(Key::URef([9u8; 32], AccessRights::READ_WRITE())));
    assert_eq!(left.get("Qux"), Some(Key::Hash([5u8; 32])));
}

#[test]
fn named_keys_codec() {
    let mut keys = NamedKeys::new();
    keys.insert("k".to_string(), Key::Account([1u8; 20]));
    let mut expected = vec![1u8, 0, 0, 0, 1, 0, 0, 0, b'k', 0, 20, 0, 0, 0];
    expected.extend_from_slice(&[1u8; 20]);
    assert_eq!(keys.to_bytes(), Ok(expected));
    assert_eq!(NamedKeys::new().to_bytes(), Ok(vec![0, 0, 0, 0]));

    let keys = sample_keys();
    let mut bytes = keys.to_bytes().unwrap();
    bytes.push(0x55);
    let (back, rest) = NamedKeys::from_bytes(&bytes).unwrap();
    assert_eq!(rest, &[0x55u8][..]);
    assert_eq!(back.len(), 2);
    assert_eq!(back.get("Foo"), Some(Key::Hash([7u8; 32])));
    assert_eq!(back.get("Bar"), Some(Key::URef([9u8; 32], AccessRights::READ_WRITE())));
    assert_eq!(back.to_bytes(), keys.to_bytes());
}

#[test]
fn a_name_that_is_not_utf8_is_a_formatting_error() {
    let mut bytes = vec![1u8, 0, 0, 0, 2, 0, 0, 0, 0xff, 0xfe, 0, 20, 0, 0, 0];
    bytes.extend_from_slice(&[1u8; 20]);
    assert_eq!(NamedKeys::from_bytes(&bytes).err(), Some(Error::FormattingError));
    // The same entry with a name of two letters decodes, under that name.
    bytes[8] = b'o';
    bytes[9] = b'k';
    let (keys, _) = NamedKeys::from_bytes(&bytes).ok().unwrap();
    assert_eq!(keys.get("ok"), Some(Key::Account([1u8; 20])));
    assert_eq!(keys.name_at(0), "ok");
}

#[test]
fn names_may_hold_any_text() {
    let mut keys = NamedKeys::new();
    keys.insert("schlüssel".to_string(), Key::Hash([1u8; 32]));
    keys.insert("鍵".to_string(), Key::Hash([2u8; 32]));
    let bytes = keys.to_bytes().unwrap();
    let (back, rest) = NamedKeys::from_bytes(&bytes).ok().unwrap();
    assert!(rest.is_empty());
    assert_eq!(back.get("schlüssel"), Some(Key::Hash([1u8; 32])));
    assert_eq!(back.get("鍵"), Some(Key::Hash([2u8; 32])));
}

#[test]
fn truncated_named_keys_end_early() {
    let bytes = sample_keys().to_bytes().unwrap();
    assert_eq!(NamedKeys::from_bytes(&bytes[..bytes.len() - 1]).err(), Some(Error::EarlyEndOfStream));
    assert_eq!(NamedKeys::from_bytes(&[2u8, 0, 0, 0]).err(), Some(Error::EarlyEndOfStream));
}

#[test]
fn contract_accessors() {
    let version = ProtocolVersion::from_parts(1, 0, 0);
    let mut contract = Contract::new(vec![1, 2, 3], sample_keys(), version);
    assert_eq!(contract.bytes(), &[1u8, 2, 3][..]);
    assert_eq!(contract.protocol_version(), version);
    assert_eq!(contract.known_keys().len(), 2);
    assert_eq!(contract.known_keys().get("Foo"), Some(Key::Hash([7u8; 32])));

    let mut more = NamedKeys::new();
    more.insert("Foo".to_string(), Key::Account([8u8; 20]));
    more.insert("New".to_string(), Key::Hash([6u8; 32]));
    contract.known_keys_append(&mut more);
    assert_eq!(more.len(), 0);
    assert_eq!(contract.known_keys().len(), 3);
    assert_eq!(contract.known_keys().get("Foo"), Some(Key::Account([8u8; 20])));
    assert_eq!(contract.known_keys().get("New"), Some(Key::Hash([6u8; 32])));

    contract.known_keys_mut().insert("Late".to_string(), Key::Hash([0u8; 32]));
    assert_eq!(contract.known_keys().get("Late"), Some(Key::Hash([0u8; 32])));

    let (bytes, keys, v) = contract.destructure();
    assert_eq!(bytes, vec![1, 2, 3]);
    assert_eq!(keys.len(), 4);
    assert_eq!(v, version);
}

#[test]
fn contract_codec() {
    let mut keys = NamedKeys::new();
    keys.insert("k".to_string(), Key::Account([1u8; 20]));
    let contract = Contract::new(vec![0xca, 0xfe], keys, ProtocolVersion::from_parts(1, 2, 3));
    let mut expected = vec![2u8, 0, 0, 0, 0xca, 0xfe];
    expected.extend_from_slice(&[1u8, 0, 0, 0, 1, 0, 0, 0, b'k', 0, 20, 0, 0, 0]);
    expected.extend_from_slice(&[1u8; 20]);
    expected.extend_from_slice(&[1u8, 0, 0, 0, 2, 0, 0, 0, 3, 0, 0, 0]);
    let mut bytes = contract.to_bytes().unwrap();
    assert_eq!(bytes, expected);

    bytes.push(0x77);
    let (back, rest) = Contract::from_bytes(&bytes).ok().unwrap();
    assert_eq!(rest, &[0x77u8][..]);
    assert_eq!(back.bytes(), &[0xcau8, 0xfe][..]);
    assert_eq!(back.protocol_version(), ProtocolVersion::from_parts(1, 2, 3));
    assert_eq!(back.known_keys().get("k"), Some(Key::Account([1u8; 20])));
    assert_eq!(back.to_bytes().unwrap(), expected);
}

#[test]
fn truncated_contract_ends_early() {
    let contract = Contract::new(vec![1, 2, 3], sample_keys(), ProtocolVersion::V1_0_0());
    let bytes = contract.to_bytes().unwrap();
    for cut in [0usize, 3, 6, 10, bytes.len() - 13, bytes.len() - 1] {
        assert_eq!(Contract::from_bytes(&bytes[..cut]).err(), Some(Error::EarlyEndOfStream));
    }
}

#[test]
fn values_and_stored_values_round_trip() {
    assert_eq!(Value::Int32(-2).to_bytes(), vec![0, 0xfe, 0xff, 0xff, 0xff]);
    assert_eq!(Value::UInt64(3).to_bytes(), vec![1, 3, 0, 0, 0, 0, 0, 0, 0]);
    for v in [Value::Int32(i32::MIN), Value::Int32(-1), Value::Int32(7), Value::UInt64(u64::MAX)] {
        let bytes = v.to_bytes();
        let (back, rest) = Value::from_bytes(&bytes).unwrap();
        assert_eq!(back, v);
        assert!(rest.is_empty());
    }
    assert_eq!(Value::from_bytes(&[2u8, 0, 0, 0, 0]).unwrap_err(), Error::FormattingError);
    assert_eq!(Value::from_bytes(&[1u8, 0, 0, 0, 0]).unwrap_err(), Error::EarlyEndOfStream);

    let stored = StoredValue::Value(Value::UInt64(1000));
    let bytes = stored.to_bytes().unwrap();
    assert_eq!(bytes, vec![2, 1, 0xe8, 3, 0, 0, 0, 0, 0, 0]);
    let (back, rest) = StoredValue::from_bytes(&bytes).ok().unwrap();
    assert!(rest.is_empty());
    assert!(matches!(back, StoredValue::Value(Value::UInt64(1000))));

    let account = StoredValue::Account(Account::new([4u8; 20], sample_keys()));
    let mut bytes = account.to_bytes().unwrap();
    assert_eq!(bytes[0], 0);
    bytes.push(1);
    let (back, rest) = StoredValue::from_bytes(&bytes).ok().unwrap();
    assert_eq!(rest, &[1u8][..]);
    match back {
        StoredValue::Account(a) => {
            assert_eq!(a.address(), [4u8; 20]);
            assert_eq!(a.known_keys().get("Foo"), Some(Key::Hash([7u8; 32])));
        }
        _ => panic!("an account was encoded"),
    }

    let contract = StoredValue::Contract(Contract::new(vec![9], sample_keys(), ProtocolVersion::V1_0_0()));
    let bytes = contract.to_bytes().unwrap();
    assert_eq!(bytes[0], 1);
    let (back, rest) = StoredValue::from_bytes(&bytes).ok().unwrap();
    assert!(rest.is_empty());
    assert_eq!(back.to_bytes().unwrap(), bytes);
    assert_eq!(StoredValue::from_bytes(&[3u8]).err(), Some(Error::FormattingError));
    assert_eq!(StoredValue::from_bytes(&[]).err(), Some(Error::EarlyEndOfStream));
}

#[test]
fn wrapping_addition_per_width() {
    assert_eq!(Value::Int32(i32::MAX).wrapping_add(Value::Int32(1)), Ok(Value::Int32(i32::MIN)));
    assert_eq!(Value::Int32(i32::MIN).wrapping_add(Value::Int32(-1)), Ok(Value::Int32(i32::MAX)));
    assert_eq!(Value::Int32(40).wrapping_add(Value::Int32(2)), Ok(Value::Int32(42)));
    assert_eq!(Value::UInt64(u64::MAX).wrapping_add(Value::UInt64(2)), Ok(Value::UInt64(1)));
    assert_eq!(Value::UInt64(950).wrapping_add(Value::UInt64(50)), Ok(Value::UInt64(1000)));
    assert!(Value::UInt64(1).wrapping_add(Value::Int32(1)).is_err());
    assert_eq!(Value::Int32(5).zero(), Value::Int32(0));
    assert_eq!(Value::UInt64(5).zero(), Value::UInt64(0));
}

#[test]
fn digest_is_blake2b_with_32_bytes() {
    let expected: [u8; 32] = [
        0x0e, 0x57, 0x51, 0xc0, 0x26, 0xe5, 0x43, 0xb2, 0xe8, 0xab, 0x2e, 0xb0, 0x60, 0x99, 0xda,
        0xa1, 0xd1, 0xe5, 0xdf, 0x47, 0x77, 0x8f, 0x77, 0x87, 0xfa, 0xab, 0x45, 0xcd, 0xf1, 0x2f,
        0xe3, 0xa8,
    ];
    assert_eq!(digest_of(&[]), expected);
    assert_ne!(digest_of(&[0u8; 32]), [0u8; 32]);
    assert_ne!(digest_of(b"abc"), digest_of(b"abd"));
    assert_eq!(digest_of(b"abc"), digest_of(b"abc"));
}

#[test]
fn left_over_bytes_are_an_error_where_the_input_must_end() {
    assert_eq!(expect_end(u32_from_bytes(&[1, 0, 0, 0])), Ok(1));
    assert_eq!(expect_end(u32_from_bytes(&[1, 0, 0, 0, 9])), Err(Error::LeftOverBytes));
    assert_eq!(expect_end(u32_from_bytes(&[1, 0, 0])), Err(Error::EarlyEndOfStream));
    let key = Key::Hash([1u8; 32]);
    let mut bytes = key.to_bytes().unwrap();
    assert_eq!(expect_end(Key::from_bytes(&bytes)), Ok(key));
    bytes.push(0);
    assert_eq!(expect_end(Key::from_bytes(&bytes)), Err(Error::LeftOverBytes));
}

#[test]
fn texts_are_length_prefixed_utf8() {
    assert_eq!(string_to_bytes("Foo"), Ok(vec![3, 0, 0, 0, b'F', b'o', b'o']));
    assert_eq!(string_to_bytes(""), Ok(vec![0, 0, 0, 0]));
    assert_eq!(string_to_bytes("é"), Ok(vec![2, 0, 0, 0, 0xc3, 0xa9]));
    let input = [2u8, 0, 0, 0, 0xc3, 0xa9, 7];
    let (text, rest) = string_from_bytes(&input).unwrap();
    assert_eq!(text, "é");
    assert_eq!(rest, &[7u8][..]);
    assert_eq!(string_from_bytes(&[2u8, 0, 0, 0, 0xc3, 0x28]).unwrap_err(), Error::FormattingError);
    assert_eq!(string_from_bytes(&[2u8, 0, 0, 0, 0xc3]).unwrap_err(), Error::EarlyEndOfStream);
}
