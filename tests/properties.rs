use b58uuid::alphabet::{symbol_of, ReverseTable};
use b58uuid::{
    decode, decode_to_uuid, encode, encode_uuid, generate, generate_from, mark_version4,
    B58UUIDError,
};

#[test]
fn round_trip_on_assorted_values() {
    let cases: Vec<[u8; 16]> = vec![
        [0u8; 16],
        [0xFF; 16],
        [0, 0, 0, 0, 0, 0, 0, 0, 0, 0, 0, 0, 0, 0, 0, 57],
        [0, 0, 0, 0, 0, 0, 0, 0, 0, 0, 0, 0, 0, 0, 0, 58],
        [0x80, 0, 0, 0, 0, 0, 0, 0, 0, 0, 0, 0, 0, 0, 0, 0],
        [0, 0, 0x01, 0, 0, 0, 0, 0, 0, 0, 0, 0, 0, 0, 0, 0],
        [9, 8, 7, 6, 5, 4, 3, 2, 1, 0, 1, 2, 3, 4, 5, 6],
    ];
    for b in cases {
        let text = encode(&b);
        assert_eq!(text.len(), 22);
        assert_eq!(decode(&text).unwrap(), b);
    }
}

#[test]
fn small_values_pad_with_zero_symbols() {
    let mut b = [0u8; 16];
    b[15] = 57;
    assert_eq!(encode(&b), "111111111111111111111z");
    b[15] = 58;
    assert_eq!(encode(&b), "1111111111111111111121");
}

#[test]
fn all_zero_decodes_back() {
    assert_eq!(decode("1111111111111111111111").unwrap(), [0u8; 16]);
}

#[test]
fn known_vector_both_ways() {
    assert_eq!(
        encode_uuid("550e8400-e29b-41d4-a716-446655440000").unwrap(),
        "BWBeN28Vb7cMEx7Ym8AUzs"
    );
    assert_eq!(
        decode_to_uuid("BWBeN28Vb7cMEx7Ym8AUzs").unwrap(),
        "550e8400-e29b-41d4-a716-446655440000"
    );
}

#[test]
fn sequential_bytes_decode() {
    let expected = [
        0x01, 0x02, 0x03, 0x04, 0x05, 0x06, 0x07, 0x08, 0x09, 0x0a, 0x0b, 0x0c, 0x0d, 0x0e, 0x0f,
        0x10,
    ];
    assert_eq!(decode("18DfbjXLth7APvt3qQPgtf").unwrap(), expected);
}

#[test]
fn overflow_comes_before_a_later_bad_character() {
    assert_eq!(decode("zzzzzzzzzzzzzzzzzzzzzz0"), Err(B58UUIDError::Overflow));
    assert_eq!(decode("zzzzzzzzzzzzzzzzzzzzzzz"), Err(B58UUIDError::Overflow));
}

#[test]
fn largest_value_plus_one_overflows() {
    // "YcVfxkQb6JRzqk5kF2tNLv" is 2^128 - 1; its successor ends in 'w'.
    assert_eq!(decode("YcVfxkQb6JRzqk5kF2tNLw"), Err(B58UUIDError::Overflow));
}

#[test]
fn empty_input_message() {
    assert_eq!(
        decode(""),
        Err(B58UUIDError::InvalidBase58("Empty Base58 string".to_string()))
    );
}

#[test]
fn invalid_character_message_names_position_and_character() {
    assert_eq!(
        decode("BWBeN28Vb7cMEx7Ym8AU0"),
        Err(B58UUIDError::InvalidBase58(
            "Invalid character at position 20: 0".to_string()
        ))
    );
    assert_eq!(
        decode("11O"),
        Err(B58UUIDError::InvalidBase58(
            "Invalid character at position 2: O".to_string()
        ))
    );
    assert_eq!(
        decode("l"),
        Err(B58UUIDError::InvalidBase58(
            "Invalid character at position 0: l".to_string()
        ))
    );
    assert_eq!(
        decode("2I"),
        Err(B58UUIDError::InvalidBase58(
            "Invalid character at position 1: I".to_string()
        ))
    );
    assert_eq!(
        decode("2\u{e9}"),
        Err(B58UUIDError::InvalidBase58(
            "Invalid character at position 1: \u{e9}".to_string()
        ))
    );
}

#[test]
fn twenty_three_ones_message() {
    assert_eq!(
        decode(&"1".repeat(23)),
        Err(B58UUIDError::InvalidBase58(
            "Too many leading '1' characters".to_string()
        ))
    );
    assert_eq!(
        decode(&format!("{}0", "1".repeat(23))),
        Err(B58UUIDError::InvalidBase58(
            "Too many leading '1' characters".to_string()
        ))
    );
}

#[test]
fn twenty_two_ones_then_a_symbol_is_read_as_a_value() {
    let mut expected = [0u8; 16];
    expected[15] = 1;
    assert_eq!(decode(&format!("{}2", "1".repeat(22))).unwrap(), expected);
    assert_eq!(decode(&"1".repeat(22)).unwrap(), [0u8; 16]);
    assert_eq!(
        decode(&format!("{}0", "1".repeat(22))),
        Err(B58UUIDError::InvalidBase58(
            "Invalid character at position 22: 0".to_string()
        ))
    );
}

#[test]
fn uuid_text_ignores_hyphens_and_case() {
    let a = encode_uuid("DEADBEEF-CAFE-BABE-0123-456789ABCDEF").unwrap();
    let b = encode_uuid("deadbeefcafebabe0123456789abcdef").unwrap();
    let c = encode_uuid("-dead-BEEF-cafe--babe-0123-4567-89ab-CDEF-").unwrap();
    assert_eq!(a, "UVqy39vS4tbfPzthw5VEKg");
    assert_eq!(a, b);
    assert_eq!(a, c);
}

#[test]
fn wrong_length_reports_counts() {
    assert_eq!(
        encode_uuid("550e8400"),
        Err(B58UUIDError::InvalidLength {
            expected: 32,
            got: 8
        })
    );
    assert_eq!(
        encode_uuid(""),
        Err(B58UUIDError::InvalidLength {
            expected: 32,
            got: 0
        })
    );
}

#[test]
fn bad_hex_reports_group_position() {
    assert_eq!(
        encode_uuid("550e8400-e29b-41d4-a716-44665544000g"),
        Err(B58UUIDError::InvalidUUID(
            "Invalid hex at position 30".to_string()
        ))
    );
    assert_eq!(
        encode_uuid("x50e8400-e29b-41d4-a716-446655440000"),
        Err(B58UUIDError::InvalidUUID(
            "Invalid hex at position 0".to_string()
        ))
    );
    assert_eq!(
        encode_uuid("+f0e8400-e29b-41d4-a716-446655440000"),
        Err(B58UUIDError::InvalidUUID(
            "Invalid hex at position 0".to_string()
        ))
    );
}

#[test]
fn decoded_uuid_text_shape() {
    let text = decode_to_uuid("YcVfxkQb6JRzqk5kF2tNLv").unwrap();
    assert_eq!(text, "ffffffff-ffff-ffff-ffff-ffffffffffff");
    let text = decode_to_uuid("UVqy39vS4tbfPzthw5VEKg").unwrap();
    assert_eq!(text, "deadbeef-cafe-babe-0123-456789abcdef");
    assert_eq!(decode_to_uuid(""), decode("").map(|_| String::new()));
}

#[test]
fn decode_to_uuid_passes_errors_on() {
    assert_eq!(
        decode_to_uuid("zzzzzzzzzzzzzzzzzzzzzz"),
        Err(B58UUIDError::Overflow)
    );
}

#[test]
fn version_marks_are_set_exactly() {
    let m = mark_version4(&[0xFF; 16]);
    assert_eq!(m[6], 0x4F);
    assert_eq!(m[8], 0xBF);
    assert_eq!(m[0], 0xFF);
    let m = mark_version4(&[0u8; 16]);
    assert_eq!(m[6], 0x40);
    assert_eq!(m[8], 0x80);
    assert_eq!(m[7], 0);
}

#[test]
fn generate_from_marks_then_encodes() {
    let text = generate_from(&[0u8; 16]);
    let mut expected = [0u8; 16];
    expected[6] = 0x40;
    expected[8] = 0x80;
    assert_eq!(text, encode(&expected));
    assert_eq!(decode(&text).unwrap(), expected);
}

#[test]
fn generated_texts_differ_and_are_marked() {
    let mut seen: Vec<String> = Vec::new();
    for _ in 0..200 {
        let text = generate().unwrap();
        assert_eq!(text.len(), 22);
        let b = decode(&text).unwrap();
        assert_eq!(b[6] >> 4, 4);
        assert_eq!(b[8] >> 6, 2);
        assert!(!seen.contains(&text));
        seen.push(text);
    }
}

#[test]
fn length_message_with_larger_numbers() {
    let e = B58UUIDError::InvalidLength {
        expected: 32,
        got: 1234,
    };
    assert_eq!(e.message(), "Invalid length: expected 32, got 1234");
    let e = B58UUIDError::InvalidLength {
        expected: 0,
        got: 100,
    };
    assert_eq!(e.message(), "Invalid length: expected 0, got 100");
}

#[test]
fn reverse_table_inverts_the_alphabet() {
    let alphabet = "123456789ABCDEFGHJKLMNPQRSTUVWXYZabcdefghijkmnopqrstuvwxyz";
    let table = ReverseTable::new();
    for (d, c) in alphabet.chars().enumerate() {
        assert_eq!(table.digit_of(c), Some(d as u8));
        assert_eq!(symbol_of(d as u8), c);
    }
    for c in ['0', 'O', 'I', 'l', '!', ' ', '\u{e9}', '\u{4e2d}'] {
        assert_eq!(table.digit_of(c), None);
    }
}
