use state_engine::byte_map::{compare_bytes, ByteMap, Order};

#[test]
fn byte_strings_compare_lexicographically() {
    assert_eq!(compare_bytes(&[1, 2, 3], &[1, 2, 3]), Order::Equal);
    assert_eq!(compare_bytes(&[1, 2], &[1, 2, 3]), Order::Less);
    assert_eq!(compare_bytes(&[1, 2, 3], &[1, 2]), Order::Greater);
    assert_eq!(compare_bytes(&[1, 9], &[2]), Order::Less);
    assert_eq!(compare_bytes(&[2], &[1, 9, 9]), Order::Greater);
    assert_eq!(compare_bytes(&[], &[]), Order::Equal);
    assert_eq!(compare_bytes(&[], &[0]), Order::Less);
}

#[test]
fn byte_map_keeps_its_identifiers_in_order() {
    let mut map: ByteMap<u32> = ByteMap::new();
    map.insert(vec![3], 30);
    map.insert(vec![1], 10);
    map.insert(vec![2, 0], 20);
    map.insert(vec![1], 11);
    assert_eq!(map.len(), 3);
    assert_eq!(map.id_at(0), &vec![1u8]);
    assert_eq!(map.id_at(1), &vec![2u8, 0]);
    assert_eq!(map.id_at(2), &vec![3u8]);
    assert_eq!(*map.value_at(0), 11);
    assert_eq!(map.get(&[2, 0]), Some(&20));
    assert_eq!(map.get(&[2]), None);
    let copy = map.duplicate();
    assert_eq!(copy.len(), 3);
    assert_eq!(copy.get(&[3]), Some(&30));
}
