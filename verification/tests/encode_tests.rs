use sector_proofs::encode::{decode, decode_fr, decode_nodes, encode, encode_fr, encode_nodes};
use sector_proofs::field::Fr;

const MODULUS_LE: [u8; 32] = [
    1, 0, 0, 0, 255, 255, 255, 255, 254, 91, 254, 255, 2, 164, 189, 83, 5, 216, 161, 9, 8, 216, 57,
    51, 72, 125, 157, 41, 83, 167, 237, 115,
];

fn small(value: u64) -> Fr {
    let mut bytes = [0u8; 32];
    bytes[..8].copy_from_slice(&value.to_le_bytes());
    Fr::from_bytes_le(&bytes).unwrap()
}

fn largest() -> Fr {
    let mut bytes = MODULUS_LE;
    bytes[0] = 0;
    Fr::from_bytes_le(&bytes).unwrap()
}

fn scalar(element: Fr) -> blstrs::Scalar {
    blstrs::Scalar::from_bytes_le(&element.to_bytes_le()).unwrap()
}

#[test]
fn from_bytes_accepts_only_canonical_encodings() {
    assert!(Fr::from_bytes_le(&[0u8; 32]).is_some());
    let mut below = MODULUS_LE;
    below[0] = 0;
    assert!(Fr::from_bytes_le(&below).is_some());
    assert!(Fr::from_bytes_le(&MODULUS_LE).is_none());
    assert!(Fr::from_bytes_le(&[255u8; 32]).is_none());
}

#[test]
fn to_bytes_gives_back_the_encoding() {
    let mut bytes = [0u8; 32];
    bytes[0] = 9;
    bytes[31] = 0x12;
    assert_eq!(Fr::from_bytes_le(&bytes).unwrap().to_bytes_le(), bytes);
}

#[test]
fn encode_adds_key_and_value() {
    assert_eq!(encode(small(5), small(7)), small(12));
    assert_ne!(encode(small(5), small(7)), small(5));
    assert_ne!(encode(small(5), small(7)), small(7));
    assert_eq!(encode(small(0), small(0)), small(0));
}

#[test]
fn encode_wraps_at_the_modulus() {
    assert_eq!(encode(largest(), small(2)), small(1));
    assert_eq!(encode(largest(), small(1)), small(0));
    assert_eq!(encode(small(2), largest()), small(1));
}

#[test]
fn decode_subtracts_the_key_from_the_value() {
    assert_eq!(decode(small(5), small(12)), small(7));
    assert_ne!(decode(small(5), small(12)), small(12));
    assert_eq!(decode(small(2), small(1)), largest());
    assert_eq!(decode(small(1), small(0)), largest());
    assert_eq!(decode(small(9), small(9)), small(0));
}

#[test]
fn encode_fr_and_decode_fr_replace_the_key() {
    let mut key = small(40);
    encode_fr(&mut key, small(2));
    assert_eq!(key, small(42));
    let mut key = small(40);
    decode_fr(&mut key, small(42));
    assert_eq!(key, small(2));
}

#[test]
fn encode_agrees_with_the_scalar_field() {
    let pairs = [
        (small(0), small(0)),
        (small(1), largest()),
        (largest(), largest()),
        (small(u64::MAX), small(u64::MAX)),
        (small(123456789), largest()),
    ];
    for (key, value) in pairs {
        assert_eq!(scalar(encode(key, value)), scalar(key) + scalar(value));
        assert_eq!(scalar(decode(key, value)), scalar(value) - scalar(key));
    }
}

#[test]
fn decode_inverts_encode() {
    let elements = [small(0), small(1), small(77), small(u64::MAX), largest()];
    for key in elements {
        for value in elements {
            assert_eq!(decode(key, encode(key, value)), value);
            assert_eq!(encode(key, decode(key, value)), value);
            assert_eq!(
                decode(key, encode(key, value)).to_bytes_le(),
                value.to_bytes_le()
            );
        }
    }
}

#[test]
fn taking_the_data_out_of_an_encoding_leaves_the_key() {
    let elements = [small(0), small(3), small(u64::MAX), largest()];
    for key in elements {
        for value in elements {
            assert_eq!(decode(value, encode(key, value)), key);
        }
    }
}

#[test]
fn encode_nodes_encodes_each_node_under_its_key() {
    let keys = vec![small(1), small(2), largest()];
    let data = vec![small(10), small(20), small(30)];
    let replica = encode_nodes(&keys, &data).unwrap();
    assert_eq!(replica, vec![small(11), small(22), small(29)]);
    assert_eq!(encode_nodes(&Vec::new(), &Vec::new()), Some(Vec::new()));
}

#[test]
fn encode_nodes_needs_a_key_for_each_node() {
    let keys = vec![small(1), small(2)];
    let data = vec![small(10), small(20), small(30)];
    assert_eq!(encode_nodes(&keys, &data), None);
    assert_eq!(encode_nodes(&data, &keys), None);
    assert_eq!(encode_nodes(&Vec::new(), &keys), None);
}

#[test]
fn decode_nodes_needs_a_range_within_the_replica() {
    let keys = vec![small(1), small(2), small(3)];
    let replica = vec![small(10), small(20), small(30)];
    assert_eq!(decode_nodes(&keys, &replica, 0, 4), None);
    assert_eq!(decode_nodes(&keys, &replica, 2, 1), None);
    assert_eq!(decode_nodes(&keys, &replica, 4, 4), None);
    assert_eq!(decode_nodes(&keys[..2].to_vec(), &replica, 0, 2), None);
    assert_eq!(decode_nodes(&keys, &replica, 3, 3), Some(Vec::new()));
    assert_eq!(decode_nodes(&keys, &replica, 1, 2), Some(vec![small(18)]));
}

#[test]
fn decode_nodes_restores_the_full_range() {
    let keys = vec![small(1), small(2), largest(), small(u64::MAX)];
    let data = vec![small(10), largest(), small(30), small(0)];
    let replica = encode_nodes(&keys, &data).unwrap();
    assert_eq!(decode_nodes(&keys, &replica, 0, 4), Some(data));
}

#[test]
fn decode_nodes_restores_every_sub_range() {
    let keys = vec![small(1), small(2), largest(), small(u64::MAX), small(5)];
    let data = vec![small(10), largest(), small(30), small(0), small(99)];
    let replica = encode_nodes(&keys, &data).unwrap();
    for start in 0..=data.len() {
        for end in start..=data.len() {
            assert_eq!(
                decode_nodes(&keys, &replica, start, end),
                Some(data[start..end].to_vec())
            );
        }
    }
}

#[test]
fn updating_a_sector_can_be_undone_either_way() {
    let sector_key = vec![small(7), largest(), small(u64::MAX)];
    let new_piece = vec![small(1000), small(2), largest()];
    let updated = encode_nodes(&sector_key, &new_piece).unwrap();
    assert_eq!(decode_nodes(&sector_key, &updated, 0, 3), Some(new_piece.clone()));
    assert_eq!(decode_nodes(&new_piece, &updated, 0, 3), Some(sector_key.clone()));
    assert_eq!(sector_key, vec![small(7), largest(), small(u64::MAX)]);
}
