use mcc::payload::decode_payload;

#[test]
fn hex_pair_equals_letter_expansion() {
    let hex = decode_payload("FA0000").unwrap();
    let letter = decode_payload("G").unwrap();
    assert_eq!(hex, vec![0xFA, 0x00, 0x00]);
    assert_eq!(hex, letter);
}

#[test]
fn letters_concatenate_in_order() {
    let bytes = decode_payload("GHI").unwrap();
    assert_eq!(bytes.len(), 3 + 6 + 9);
    let mut expected: Vec<u8> = Vec::new();
    for _ in 0..6 {
        expected.extend([0xFA, 0x00, 0x00]);
    }
    assert_eq!(bytes, expected);
}

#[test]
fn hex_and_letters_mix_freely() {
    let bytes = decode_payload("80G94").unwrap();
    assert_eq!(bytes, vec![0x80, 0xFA, 0x00, 0x00, 0x94]);
}

#[test]
fn odd_leftover_character_fails() {
    assert_eq!(decode_payload("8"), None);
    assert_eq!(decode_payload("G8"), None);
    assert_eq!(decode_payload("FA00008"), None);
}

#[test]
fn character_outside_both_token_kinds_fails() {
    assert_eq!(decode_payload("V0"), None);
    assert_eq!(decode_payload("G!!"), None);
    assert_eq!(decode_payload("xy"), None);
}

#[test]
fn empty_payload_decodes_to_nothing() {
    assert_eq!(decode_payload(""), Some(Vec::new()));
}

#[test]
fn hex_is_case_insensitive() {
    assert_eq!(decode_payload("ff"), Some(vec![0xFF]));
    assert_eq!(decode_payload("aB"), Some(vec![0xAB]));
    assert_eq!(decode_payload("0e"), Some(vec![0x0E]));
}

#[test]
fn expansion_table() {
    let fa = |n: usize| {
        let mut v: Vec<u8> = Vec::new();
        for _ in 0..n {
            v.extend([0xFA, 0x00, 0x00]);
        }
        v
    };
    assert_eq!(decode_payload("G").unwrap(), fa(1));
    assert_eq!(decode_payload("H").unwrap(), fa(2));
    assert_eq!(decode_payload("I").unwrap(), fa(3));
    assert_eq!(decode_payload("J").unwrap(), fa(4));
    assert_eq!(decode_payload("K").unwrap(), fa(5));
    assert_eq!(decode_payload("L").unwrap(), fa(6));
    assert_eq!(decode_payload("M").unwrap(), fa(7));
    assert_eq!(decode_payload("N").unwrap(), fa(8));
    assert_eq!(decode_payload("O").unwrap(), fa(9));
    assert_eq!(decode_payload("P").unwrap(), vec![0xFB, 0x80, 0x80]);
    assert_eq!(decode_payload("Q").unwrap(), vec![0xFC, 0x80, 0x80]);
    assert_eq!(decode_payload("R").unwrap(), vec![0xFD, 0x80, 0x80]);
    assert_eq!(decode_payload("S").unwrap(), vec![0x96, 0x69]);
    assert_eq!(decode_payload("T").unwrap(), vec![0x61, 0x01]);
    assert_eq!(decode_payload("U").unwrap(), vec![0xE1, 0x00, 0x00, 0x00]);
    assert_eq!(decode_payload("Z").unwrap(), vec![0x00]);
}
