//! Field elements, maps, texts and state updates.
use pathfinder::felt::{Felt, OverflowError};
use pathfinder::felt_map::{FeltMap, FeltSet};
use pathfinder::state_apply::FoundStorageValue;
use pathfinder::state_update::{ContractClassUpdate, StateUpdateData};
use pathfinder::storage::codec::{pack, unpack, TrieStorageIndex};
use pathfinder::storage::markers::{decode_marker, encode_marker};
use pathfinder::text::{has_text_prefix, push_decimal, push_hex, push_short_hex, same_text};

#[test]
fn field_elements_are_below_the_modulus() {
    assert_eq!(Felt::from_be_slice(&[0xFF; 32]), Err(OverflowError));
    assert_eq!(Felt::from_be_slice(&[0; 33]), Err(OverflowError));
    // One below the modulus.
    let mut largest = [0u8; 32];
    largest[0] = 0x08;
    largest[7] = 0x11;
    let felt = Felt::from_be_slice(&largest).unwrap();
    assert!(felt.has_more_than_251_bits());
    largest[31] = 1;
    assert_eq!(Felt::from_be_slice(&largest), Err(OverflowError));
    assert_eq!(Felt::from_be_slice(&[1, 2]).unwrap(), Felt::from_u64(0x0102));
    assert!(Felt::new_zero().is_zero());
    assert!(!Felt::from_u64(1).has_more_than_251_bits());
}

#[test]
fn maps_and_sets_hold_each_key_once() {
    let mut map: FeltMap<u64> = FeltMap::new();
    map.insert(Felt::from_u64(1), 10);
    map.insert(Felt::from_u64(1), 11);
    map.insert(Felt::from_u64(2), 20);
    assert_eq!(map.len(), 2);
    assert_eq!(map.get(Felt::from_u64(1)), Some(&11));
    assert_eq!(map.remove(Felt::from_u64(2)), Some(20));
    assert!(!map.contains_key(Felt::from_u64(2)));
    let mut other: FeltMap<u64> = FeltMap::new();
    other.insert(Felt::from_u64(1), 12);
    map.extend(&other);
    assert_eq!(map.copy().get(Felt::from_u64(1)), Some(&12));
    assert_eq!((map.key_at(0), *map.value_at(0)), (Felt::from_u64(1), 12));
    let mut set = FeltSet::new();
    set.insert(Felt::from_u64(5));
    set.insert(Felt::from_u64(5));
    assert_eq!((set.len(), set.item_at(0)), (1, Felt::from_u64(5)));
    assert!(set.copy().contains(Felt::from_u64(5)));
}

#[test]
fn a_later_change_wins() {
    let contract = Felt::from_u64(1);
    let key = Felt::from_u64(2);
    let mut first = StateUpdateData::new();
    first.set_storage(contract, key, Felt::from_u64(3));
    first.set_class(contract, ContractClassUpdate::Deploy(Felt::from_u64(8)));
    first.set_system_storage(Felt::from_u64(1), Felt::from_u64(6), Felt::from_u64(7));
    let mut second = StateUpdateData::new();
    second.set_storage(contract, key, Felt::from_u64(4));
    second.set_class(contract, ContractClassUpdate::Replace(Felt::from_u64(9)));
    let mut both = first.copy();
    both.extend(&second);
    assert!(matches!(
        both.storage_value_with_provenance(contract, key),
        Some(FoundStorageValue::Written(v)) if v == Felt::from_u64(4)
    ));
    assert_eq!(both.contract_class(contract), Some(Felt::from_u64(9)));
    assert_eq!(both.system_contract_updates.len(), 1);
    assert_eq!(both.contract_nonce(contract), None);
    // The first update is as it was.
    assert_eq!(first.contract_class(contract), Some(Felt::from_u64(8)));
    assert_eq!(ContractClassUpdate::Replace(Felt::from_u64(9)).class_hash(), Felt::from_u64(9));
}

#[test]
fn paths_are_packed_into_bytes() {
    let bits: Vec<bool> = (0..11).map(|i| i % 3 == 0).collect();
    let packed = pack(&bits);
    assert_eq!(packed, vec![0b1001_0010, 0b0100_0000]);
    assert_eq!(unpack(&packed, 11), bits);
}

#[test]
fn removal_markers_are_read_back() {
    let indices: Vec<TrieStorageIndex> =
        [0u64, 251, 70_000].iter().map(|i| TrieStorageIndex::new(*i).unwrap()).collect();
    let marker = encode_marker(&indices);
    assert_eq!(
        marker,
        bincode::encode_to_vec(vec![0u64, 251, 70_000], bincode::config::standard()).unwrap()
    );
    assert_eq!(decode_marker(&marker).unwrap(), indices);
    assert!(decode_marker(&marker[..2]).is_err());
    let out_of_range = bincode::encode_to_vec(vec![u64::MAX], bincode::config::standard()).unwrap();
    assert_eq!(
        decode_marker(&out_of_range).unwrap_err().message(),
        "TrieStorageIndex out of range"
    );
}

#[test]
fn numbers_and_hashes_are_written_as_text() {
    let mut s = String::from("n=");
    push_decimal(&mut s, 0);
    push_decimal(&mut s, 18_446_744_073_709_551_615);
    assert_eq!(s, "n=018446744073709551615");
    let mut s = String::new();
    push_hex(&mut s, &[0x0a, 0xff]);
    assert_eq!(s, "0AFF");
    let mut s = String::new();
    push_short_hex(&mut s, &[0x00, 0x0a, 0xff]);
    assert_eq!(s, "0xaff");
    let mut s = String::new();
    push_short_hex(&mut s, &[0x00, 0x00]);
    assert_eq!(s, "0x0");
    assert!(has_text_prefix("file:memdb1", "file:memdb"));
    assert!(!has_text_prefix("file", "file:memdb"));
    assert!(same_text("a", "a") && !same_text("a", "b"));
}
