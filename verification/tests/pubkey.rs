use monad_monitor::pubkey::{decode_pubkey, HexError};

#[test]
fn mark_is_stripped_and_digits_decoded() {
    assert_eq!(decode_pubkey("0x02Ff").unwrap(), vec![0x02, 0xff]);
    assert_eq!(decode_pubkey("02fF").unwrap(), vec![0x02, 0xff]);
    assert_eq!(decode_pubkey("0x0x0xab").unwrap(), vec![0xab]);
    assert_eq!(decode_pubkey("").unwrap(), Vec::<u8>::new());
    assert_eq!(decode_pubkey("0x").unwrap(), Vec::<u8>::new());
}

#[test]
fn odd_length_is_refused() {
    assert!(matches!(decode_pubkey("0x123"), Err(HexError::OddLength)));
    assert!(matches!(decode_pubkey("0"), Err(HexError::OddLength)));
}

#[test]
fn first_bad_character_is_named() {
    assert!(matches!(
        decode_pubkey("0x12g4z6"),
        Err(HexError::InvalidHexCharacter { c: 'g', index: 2 })
    ));
    assert!(matches!(
        decode_pubkey("0X12"),
        Err(HexError::InvalidHexCharacter { c: 'X', index: 1 })
    ));
    assert!(matches!(
        decode_pubkey("\u{e9}"),
        Err(HexError::InvalidHexCharacter { c: '\u{c3}', index: 0 })
    ));
}
