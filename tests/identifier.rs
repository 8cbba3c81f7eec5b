use crockford_uuid::codec::{
    canonical_len, canonical_text, checksum_symbol, decode, derive_checksum, encode,
    parse_payload, UuidError,
};
use crockford_uuid::natural::Natural;
use crockford_uuid::uuid::{Bytes, Uuid, BYTE_SIZE};
use num_bigint::BigUint;

fn str_uuid() -> &'static str {
    "4s0y2vz7sf4vghnznytz9gvq6"
}

const SYMBOLS: &str = "0123456789ABCDEFGHJKMNPQRSTVWXYZ";

#[test]
fn generate() {
    let uuid = Uuid::new().unwrap();
    println!("uuid={}", uuid.to_string());
    assert_eq!(uuid.to_string().len(), 25); // 24 char identifier, 1 char checksum
}

#[test]
fn generate_from_string() {
    let result: Uuid = Uuid::from_str(str_uuid()).unwrap();
    assert_eq!(result.to_string().to_lowercase(), str_uuid());
}

#[test]
fn compare_two_uuid_of_same_value() {
    let first: Uuid = Uuid::from_str(str_uuid()).unwrap();
    let second: Uuid = Uuid::from_str(str_uuid()).unwrap();
    assert_eq!(first, second);
}

#[test]
fn compare_two_uuid_of_diff_value() {
    let first: Uuid = Uuid::from_str(str_uuid()).unwrap();
    let second = Uuid::new().unwrap();
    assert_ne!(first, second);
}

#[test]
fn compare_uuid_with_string() {
    let uuid: Uuid = Uuid::from_str(str_uuid()).unwrap();
    assert_eq!(uuid, str_uuid().to_string());
}

#[test]
fn get_uuid_as_integer_value() {
    let uuid: Uuid = Uuid::from_str(str_uuid()).unwrap();
    let int_value: BigUint = BigUint::from_bytes_be(&uuid.to_int().to_be_bytes());
    println!("{}", int_value);
}

#[test]
fn get_uuid_as_byte_value() {
    let uuid: Vec<u8> = Uuid::new().unwrap().to_vec();
    println!("{:?}", uuid);
}

#[test]
fn convert_integer_to_uuid() {
    let int_value: BigUint =
        BigUint::from_bytes_be(&Uuid::from_str(str_uuid()).unwrap().to_int().to_be_bytes());
    let uuid: Uuid = Uuid::from_int(&Natural::from_be_bytes(&int_value.to_bytes_be())).unwrap();
    assert_eq!(uuid, str_uuid().to_string())
}

#[test]
fn checksum_is_value_mod_37() {
    assert_eq!(derive_checksum(&[]), 0);
    assert_eq!(derive_checksum(&[37]), 0);
    assert_eq!(derive_checksum(&[36]), 36);
    assert_eq!(derive_checksum(&[1, 0]), 34);
    assert_eq!(derive_checksum(&[1, 2, 3]), 6);
    assert_eq!(derive_checksum(&[255; 15]), 25);
}

#[test]
fn checksum_stays_below_37() {
    for a in 0..=255u8 {
        for b in [0u8, 1, 17, 200, 255] {
            let c = derive_checksum(&[a, b, a, b, a, b, a, b, a, b, a, b, a, b, a]);
            assert!(c < 37);
            assert_eq!(c, derive_checksum(&[a, b, a, b, a, b, a, b, a, b, a, b, a, b, a]));
        }
    }
}

#[test]
fn checksum_symbols_table() {
    assert_eq!(checksum_symbol(0), '0');
    assert_eq!(checksum_symbol(10), 'A');
    assert_eq!(checksum_symbol(18), 'J');
    assert_eq!(checksum_symbol(31), 'Z');
    assert_eq!(checksum_symbol(32), '*');
    assert_eq!(checksum_symbol(33), '~');
    assert_eq!(checksum_symbol(34), '$');
    assert_eq!(checksum_symbol(35), '=');
    assert_eq!(checksum_symbol(36), 'U');
    let mut seen: Vec<char> = Vec::new();
    for v in 0..37u8 {
        let c = checksum_symbol(v);
        assert!(!seen.contains(&c));
        seen.push(c);
    }
}

#[test]
fn encode_exact_values() {
    assert_eq!(encode(&[0xF8, 0x3E, 0x0F, 0x83, 0xE0]), "Z0Z0Z0Z0");
    assert_eq!(encode(&[0x07, 0xC1, 0xF0, 0x7C, 0x1F]), "0Z0Z0Z0Z");
    assert_eq!(encode(&[]), "");
    assert_eq!(encode(&[0xFF]), "ZW");
}

#[test]
fn decode_exact_values() {
    assert_eq!(decode("Z0Z0Z0Z0"), Ok(vec![0xF8, 0x3E, 0x0F, 0x83, 0xE0]));
    assert_eq!(decode("z0z0z0z0"), Ok(vec![0xF8, 0x3E, 0x0F, 0x83, 0xE0]));
    assert_eq!(decode("ZOZOZOZO"), Ok(vec![0xF8, 0x3E, 0x0F, 0x83, 0xE0]));
    assert_eq!(decode("0i0l"), decode("0101"));
    assert_eq!(decode(""), Ok(vec![]));
}

#[test]
fn decode_rejects_other_characters() {
    assert_eq!(decode("Z0Z0Z0ZU"), Err(UuidError::InvalidEncoding));
    assert_eq!(decode("Z0Z0-0Z0"), Err(UuidError::InvalidEncoding));
    assert_eq!(decode("Z0Z0Z0Z="), Err(UuidError::InvalidEncoding));
    assert_eq!(decode("Z0Z0Z0Zé"), Err(UuidError::InvalidEncoding));
}

#[test]
fn canonical_lengths() {
    assert_eq!(canonical_len(15), 25);
    assert_eq!(canonical_len(20), 33);
    assert_eq!(canonical_len(1), 3);
    assert_eq!(canonical_len(0), 1);
    assert_eq!(Uuid::len(), 25);
}

#[test]
fn generated_identifier_round_trips() {
    for _ in 0..20 {
        let id = Uuid::new().unwrap();
        let text = id.to_string();
        let parsed = Uuid::from_str(&text).unwrap();
        assert_eq!(parsed, id);
        assert_eq!(parsed.to_string(), text);
        assert_eq!(parsed.to_vec(), id.to_vec());
    }
}

#[test]
fn parse_ignores_case() {
    let upper = str_uuid().to_uppercase();
    let a = Uuid::from_str(&upper).unwrap();
    let b = Uuid::from_str(str_uuid()).unwrap();
    assert_eq!(a, b);
    assert_eq!(a.to_string(), upper);
    assert_eq!(Uuid::from_str("4s0y2vz7sf4vghnznytz9gvq5"), Err(UuidError::ChecksumMismatch));
    assert_eq!(Uuid::from_str("4S0Y2VZ7SF4VGHNZNYTZ9GVQ5"), Err(UuidError::ChecksumMismatch));
}

#[test]
fn parse_rejects_wrong_length() {
    assert_eq!(Uuid::from_str(""), Err(UuidError::InvalidLength));
    assert_eq!(Uuid::from_str("4S0Y2VZ7SF4VGHNZNYTZ9GVQ"), Err(UuidError::InvalidLength));
    assert_eq!(Uuid::from_str("4S0Y2VZ7SF4VGHNZNYTZ9GVQ66"), Err(UuidError::InvalidLength));
    assert_eq!(Uuid::from_str("----"), Err(UuidError::InvalidLength));
    assert_eq!(parse_payload("4S0Y2VZ7SF4VGHNZNYTZ9GVQ6", 20), Err(UuidError::InvalidLength));
}

#[test]
fn parse_rejects_bad_body() {
    assert_eq!(Uuid::from_str("4S0Y2VZ7SF4VGHNZNYTZ9GVU6"), Err(UuidError::InvalidEncoding));
    assert_eq!(Uuid::from_str("4S0Y2VZ7SF4VGHNZNYTZ9GV-6"), Err(UuidError::InvalidEncoding));
}

#[test]
fn parse_checks_last_character() {
    assert_eq!(Uuid::from_str("4S0Y2VZ7SF4VGHNZNYTZ9GVQ7"), Err(UuidError::ChecksumMismatch));
    assert_eq!(Uuid::from_str("4S0Y2VZ7SF4VGHNZNYTZ9GVQ*"), Err(UuidError::ChecksumMismatch));
    assert_eq!(Uuid::from_str("4S0Y2VZ7SF4VGHNZNYTZ9GVQ!"), Err(UuidError::ChecksumMismatch));
}

#[test]
fn fifteen_byte_scenario() {
    let text = "4S0Y2VZ7SF4VGHNZNYTZ9GVQ6";
    let id = Uuid::from_str(text).unwrap();
    assert_eq!(id.to_string(), text);
    assert_eq!(id.value(), "4S0Y2VZ7SF4VGHNZNYTZ9GVQ");
    assert_eq!(id.checksum(), 6);
    assert_eq!(
        id.to_vec(),
        vec![0x26, 0x41, 0xe1, 0x6f, 0xe7, 0xcb, 0xc9, 0xb8, 0x46, 0xbf, 0xaf, 0xb5, 0xf4, 0xc3, 0x77]
    );
}

#[test]
fn single_body_edit_never_yields_another_identifier() {
    let text = "4S0Y2VZ7SF4VGHNZNYTZ9GVQ6";
    let unedited = Uuid::from_str(text).unwrap();
    let chars: Vec<char> = text.chars().collect();
    let mut replacements: Vec<char> = SYMBOLS.chars().collect();
    replacements.extend(['U', 'O', 'I', 'L', 'o', 'i', 'l', '-', '*']);
    for pos in 0..chars.len() - 1 {
        for &c in &replacements {
            let mut edited = chars.clone();
            edited[pos] = c;
            let edited: String = edited.into_iter().collect();
            match Uuid::from_str(&edited) {
                Ok(id) => assert_eq!(id, unedited, "accepted {}", edited),
                Err(e) => assert!(
                    e == UuidError::InvalidEncoding || e == UuidError::ChecksumMismatch
                ),
            }
        }
    }
}

#[test]
fn width_twenty_identifier_round_trips() {
    let text = "1FE1EWYB60GVFJ71YD4AQ1QFTZ5DKWKJ2";
    let payload = parse_payload(text, 20).unwrap();
    assert_eq!(payload.len(), 20);
    assert_eq!(canonical_text(&payload), text);
    assert_eq!(canonical_text(&parse_payload(&text.to_lowercase(), 20).unwrap()), text);
    assert_eq!(
        parse_payload("1FE1EWYB60GVFJ71YD4AQ1QFTZ5DKWKJG", 20),
        Err(UuidError::ChecksumMismatch)
    );
}

#[test]
fn integer_form_pads_small_numbers() {
    let mut payload = vec![0u8; BYTE_SIZE];
    payload[BYTE_SIZE - 1] = 9;
    let id = Uuid::from_bytes(Bytes::from_vec(payload.clone()));
    assert_eq!(id.to_int().to_be_bytes(), vec![9]);
    let back = Uuid::from_int(&id.to_int()).unwrap();
    assert_eq!(back.to_vec(), payload);
    assert_eq!(back, id);
    assert_eq!(back.checksum(), 9);
    let nine = Uuid::from_int(&Natural::from_be_bytes(&[9])).unwrap();
    assert_eq!(nine.to_vec(), payload);
    assert_eq!(nine.to_string(), "0000000000000000000000099");
    let zero = Uuid::from_int(&Natural::from_be_bytes(&[])).unwrap();
    assert_eq!(zero.to_vec(), vec![0u8; BYTE_SIZE]);
    assert_eq!(zero.to_string(), "0000000000000000000000000");
    assert_eq!(Uuid::from_int(&Natural::from_be_bytes(&[1u8; 16])), Err(UuidError::InvalidLength));
    assert!(Uuid::from_int(&Natural::from_be_bytes(&[0u8; 16])).is_ok());
    let back = Uuid::from_int(&Natural::from_be_bytes(&[7u8; 15])).unwrap();
    assert_eq!(back.to_vec(), vec![7u8; 15]);
    let big = BigUint::from(38u32);
    let from_big = Uuid::from_int(&Natural::from_be_bytes(&big.to_bytes_be())).unwrap();
    assert_eq!(BigUint::from_bytes_be(&from_big.to_int().to_be_bytes()), big);
    assert_eq!(from_big.checksum(), 1);
}

#[test]
fn natural_shortest_form() {
    assert_eq!(Natural::from_be_bytes(&[0, 0, 5]).to_be_bytes(), vec![5]);
    assert_eq!(Natural::from_be_bytes(&[]).to_be_bytes(), vec![0]);
    assert_eq!(Natural::from_be_bytes(&[0, 0]).to_be_bytes(), vec![0]);
    assert_eq!(Natural::from_be_bytes(&[3, 0]).to_be_bytes(), vec![3, 0]);
    assert_eq!(
        BigUint::from_bytes_be(&Natural::from_be_bytes(&[0, 1, 0]).to_be_bytes()),
        BigUint::from(256u32)
    );
}

#[test]
fn random_payloads_differ() {
    let a = Bytes::new(BYTE_SIZE).unwrap();
    let b = Bytes::new(BYTE_SIZE).unwrap();
    assert_eq!(a.to_vec().len(), BYTE_SIZE);
    assert_ne!(a.to_vec(), b.to_vec());
    assert_eq!(a.to_slice(), &a.to_vec()[..]);
    assert_eq!(Bytes::new(0).unwrap().to_vec(), Vec::<u8>::new());
}

#[test]
fn payload_buffer_keeps_bytes() {
    let b = Bytes::from_vec(vec![1, 2, 3]);
    assert_eq!(b.to_vec(), vec![1, 2, 3]);
    assert_eq!(b.derive_crockford_checksum(), 6);
    assert_eq!(b.to_int().to_be_bytes(), vec![1, 2, 3]);
    let mut payload = vec![0u8; BYTE_SIZE];
    payload[BYTE_SIZE - 3..].copy_from_slice(&[1, 2, 3]);
    let id = Uuid::from_bytes(Bytes::from_vec(payload.clone()));
    assert_eq!(id.checksum(), 6);
    assert_eq!(id.into_bytes().to_vec(), payload);
}

#[test]
fn changed_symbol_always_mismatches() {
    let text = "4S0Y2VZ7SF4VGHNZNYTZ9GVQ6";
    let chars: Vec<char> = text.chars().collect();
    for pos in 0..chars.len() - 1 {
        for c in SYMBOLS.chars() {
            if c == chars[pos] {
                continue;
            }
            let mut edited = chars.clone();
            edited[pos] = c;
            let edited: String = edited.into_iter().collect();
            assert_eq!(Uuid::from_str(&edited), Err(UuidError::ChecksumMismatch));
        }
    }
}

#[test]
fn string_comparison_needs_a_parse() {
    let id = Uuid::from_str(str_uuid()).unwrap();
    assert_ne!(id, "not an identifier".to_string());
    assert_ne!(id, "4S0Y2VZ7SF4VGHNZNYTZ9GVQ7".to_string());
    assert_eq!(id, "4S0Y2VZ7SF4VGHNZNYTZ9GVQ6".to_string());
    assert_eq!(id, "4SOY2VZ7SF4VGHNZNYTZ9GVQ6".to_string());
}
