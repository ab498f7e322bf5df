use prefixed_id::alphabet::{is_alphabet_symbol, is_letter_symbol, symbol, uppercase};
use prefixed_id::checksum::truncate;
use prefixed_id::identifier::{embed, generate_with_entropy, seal};
use prefixed_id::layout::{
    CHECKSUM_LENGTH, DATA_LENGTH, DIGEST_LENGTH, IDENTIFIER_LENGTH, PREFIX_CAPACITY, TOTAL_LENGTH,
};
use prefixed_id::prefix::{all_symbols, decode_head, decode_prefix, fold_and_pad};
use prefixed_id::GenerateError;

const ENTROPY: [u8; 12] = [
    0xa0, 0xa1, 0xa2, 0xa3, 0xa4, 0xa5, 0xa6, 0xa7, 0xa8, 0xa9, 0xaa, 0xab,
];

#[test]
fn sizes_fit_together() {
    assert_eq!(DATA_LENGTH, 12);
    assert_eq!(CHECKSUM_LENGTH, 8);
    assert_eq!(TOTAL_LENGTH, 20);
    assert_eq!(DIGEST_LENGTH, 32);
    assert_eq!(IDENTIFIER_LENGTH, (TOTAL_LENGTH * 8 + 4) / 5);
    assert_eq!(PREFIX_CAPACITY, DATA_LENGTH * 8 / 5);
}

#[test]
fn alphabet_runs_from_a_to_seven() {
    let symbols: Vec<u8> = (0..32).map(symbol).collect();
    assert_eq!(symbols, b"ABCDEFGHIJKLMNOPQRSTUVWXYZ234567".to_vec());
}

#[test]
fn only_the_thirty_two_symbols_are_symbols() {
    for byte in 0..=255u8 {
        let expected = b"ABCDEFGHIJKLMNOPQRSTUVWXYZ234567".contains(&byte);
        assert_eq!(is_alphabet_symbol(byte), expected, "{}", byte);
        assert_eq!(is_letter_symbol(byte), byte.is_ascii_uppercase(), "{}", byte);
    }
}

#[test]
fn uppercase_folds_ascii_letters_only() {
    for byte in 0..=255u8 {
        assert_eq!(uppercase(byte), byte.to_ascii_uppercase(), "{}", byte);
    }
}

#[test]
fn padding_fills_up_to_whole_bytes() {
    assert_eq!(fold_and_pad(b""), b"".to_vec());
    assert_eq!(fold_and_pad(b"x"), b"XA".to_vec());
    assert_eq!(fold_and_pad(b"aa"), b"AAAA".to_vec());
    assert_eq!(fold_and_pad(b"foo"), b"FOOA".to_vec());
    assert_eq!(fold_and_pad(b"user"), b"USERA".to_vec());
    assert_eq!(fold_and_pad(b"users"), b"USERSAA".to_vec());
    assert_eq!(fold_and_pad(b"foobar"), b"FOOBARA".to_vec());
    assert_eq!(fold_and_pad(b"account"), b"ACCOUNTA".to_vec());
    assert_eq!(fold_and_pad(b"accounts"), b"ACCOUNTS".to_vec());
    assert_eq!(fold_and_pad(b"accounts2"), b"ACCOUNTS2A".to_vec());
}

#[test]
fn padding_leaves_other_bytes_alone() {
    assert_eq!(fold_and_pad(b"a=1"), b"A=1A".to_vec());
    assert_eq!(fold_and_pad(b"2Up"), b"2UPA".to_vec());
}

#[test]
fn all_symbols_looks_at_every_byte() {
    assert!(all_symbols(b""));
    assert!(all_symbols(b"ABCDEFGHIJKLMNOPQRSTUVWXYZ234567"));
    assert!(!all_symbols(b"abc"));
    assert!(!all_symbols(b"ABC1"));
    assert!(!all_symbols(b"=ABC"));
    assert!(!all_symbols(b"AB C"));
}

#[test]
fn decode_head_decodes_short_text_whole() {
    assert_eq!(decode_head(b""), Vec::<u8>::new());
    assert_eq!(decode_head(b"FOOA"), vec![0x2b, 0x9c]);
    assert_eq!(decode_head(b"FOOBARA"), vec![0x2b, 0x9c, 0x10, 0x44]);
    assert_eq!(decode_head(b"XA"), vec![0xb8]);
    assert_eq!(decode_head(b"77777777"), vec![0xff; 5]);
}

#[test]
fn decode_head_stops_at_twelve_bytes() {
    assert_eq!(
        decode_head(b"ABCDEFGHIJKLMNOPQRSA"),
        vec![0x00, 0x44, 0x32, 0x14, 0xc7, 0x42, 0x54, 0xb6, 0x35, 0xcf, 0x84, 0x64]
    );
    assert_eq!(
        decode_head(b"TOOLONGTOEVENFITINTHEGENERATEDPACKAGEIDBUTWHOCARESITSHOULDBETRIMMEDA"),
        vec![0x9b, 0x9c, 0xb7, 0x34, 0xd3, 0x71, 0x2a, 0x46, 0x95, 0x13, 0x43, 0x66]
    );
    assert_eq!(
        decode_head(b"USER2345USERABCDEFGHA"),
        vec![0xa4, 0x89, 0x1d, 0x6f, 0x9d, 0xa4, 0x89, 0x10, 0x04, 0x43, 0x21, 0x4c]
    );
}

#[test]
fn decode_prefix_gives_the_leading_bytes() {
    assert_eq!(decode_prefix(""), Ok(vec![]));
    assert_eq!(decode_prefix("foo"), Ok(vec![0x2b, 0x9c]));
    assert_eq!(decode_prefix("FOO"), Ok(vec![0x2b, 0x9c]));
    assert_eq!(decode_prefix("foobar"), Ok(vec![0x2b, 0x9c, 0x10, 0x44]));
    assert_eq!(
        decode_prefix("toolongtoevenfitinthegeneratedpackageidbutwhocaresitshouldbetrimmed"),
        Ok(vec![0x9b, 0x9c, 0xb7, 0x34, 0xd3, 0x71, 0x2a, 0x46, 0x95, 0x13, 0x43, 0x66])
    );
}

#[test]
fn decode_prefix_reports_each_error() {
    assert_eq!(decode_prefix("a1"), Err(GenerateError::InvalidCharacter));
    assert_eq!(decode_prefix("a="), Err(GenerateError::InvalidCharacter));
    assert_eq!(decode_prefix("caf\u{e9}"), Err(GenerateError::InvalidCharacter));
    assert_eq!(decode_prefix("2a"), Err(GenerateError::InvalidFirstCharacter));
    assert_eq!(decode_prefix("21"), Err(GenerateError::InvalidCharacter));
}

#[test]
fn embed_overwrites_the_leading_bytes_only() {
    assert_eq!(embed(&[], ENTROPY), ENTROPY);
    assert_eq!(
        embed(&[0x2b, 0x9c], ENTROPY),
        [0x2b, 0x9c, 0xa2, 0xa3, 0xa4, 0xa5, 0xa6, 0xa7, 0xa8, 0xa9, 0xaa, 0xab]
    );
    assert_eq!(
        embed(&[1, 2, 3, 4, 5, 6, 7, 8, 9, 10, 11, 12], ENTROPY),
        [1, 2, 3, 4, 5, 6, 7, 8, 9, 10, 11, 12]
    );
    assert_eq!(
        embed(&[1, 2, 3, 4, 5, 6, 7, 8, 9, 10, 11, 12, 13, 14], ENTROPY),
        [1, 2, 3, 4, 5, 6, 7, 8, 9, 10, 11, 12]
    );
}

#[test]
fn truncate_keeps_the_first_eight_bytes() {
    let mut digest = [0u8; 32];
    for (i, byte) in digest.iter_mut().enumerate() {
        *byte = 0xf0 + i as u8;
    }
    assert_eq!(truncate(&digest), [0xf0, 0xf1, 0xf2, 0xf3, 0xf4, 0xf5, 0xf6, 0xf7]);
}

#[test]
fn seal_encodes_payload_and_checksum_in_lowercase() {
    let payload = [1, 2, 3, 4, 5, 6, 7, 8, 9, 10, 11, 12];
    let digest = [
        32, 100, 2, 202, 179, 69, 65, 87, 22, 217, 163, 52, 105, 254, 186, 87, 169, 13, 194, 0,
        192, 100, 188, 1, 144, 180, 25, 26, 240, 88, 176, 235,
    ];
    assert_eq!(seal(&payload, &digest), "aebagbafaydqqcikbmgcazaczkzukqkx");
}

#[test]
fn seal_takes_the_digest_as_given() {
    assert_eq!(seal(&[0; 12], &[0; 32]), "aaaaaaaaaaaaaaaaaaaaaaaaaaaaaaaa");
    assert_eq!(seal(&[0xff; 12], &[0xff; 32]), "77777777777777777777777777777777");
    assert_eq!(seal(&[0; 12], &[0xff; 32]), "aaaaaaaaaaaaaaaaaaap777777777777");
}

#[test]
fn generate_with_entropy_is_exact() {
    assert_eq!(
        generate_with_entropy("", ENTROPY),
        Ok("ucq2fi5euwtkpkfjvkvwmvut7nf4pk6v".to_string())
    );
    assert_eq!(
        generate_with_entropy("foo", ENTROPY),
        Ok("fookfi5euwtkpkfjvkvz5npvczqdfmli".to_string())
    );
    assert_eq!(
        generate_with_entropy("foobar", ENTROPY),
        Ok("foobarfeuwtkpkfjvkv375dmlqhum2an".to_string())
    );
    assert_eq!(
        generate_with_entropy("X", ENTROPY),
        Ok("xcq2fi5euwtkpkfjvkvz7lobk2s6wuvs".to_string())
    );
    assert_eq!(
        generate_with_entropy("aa", ENTROPY),
        Ok("aaakfi5euwtkpkfjvkvwjdmarb2gbyww".to_string())
    );
}

#[test]
fn generate_with_entropy_truncates_a_long_prefix() {
    assert_eq!(
        generate_with_entropy(
            "toolongtoevenfitinthegeneratedpackageidbutwhocaresitshouldbetrimmed",
            ENTROPY
        ),
        Ok("toolongtoevenfitintjkjx7efsvwsev".to_string())
    );
    assert_eq!(
        generate_with_entropy("abcdefghijklmnopqrs", ENTROPY),
        Ok("abcdefghijklmnopqrsf4flpy3pdlfhn".to_string())
    );
    assert_eq!(
        generate_with_entropy("abcdefghijklmnopqr", ENTROPY),
        Ok("abcdefghijklmnopqrapxi2qxkswnczm".to_string())
    );
}

#[test]
fn twentieth_character_comes_from_the_checksum() {
    assert_eq!(
        generate_with_entropy("aaaaaaaaaaaaaaaaaaaa", ENTROPY),
        Ok("aaaaaaaaaaaaaaaaaaabl3d36c2qomvu".to_string())
    );
    assert_eq!(
        generate_with_entropy("user2345userabcdefgh", ENTROPY),
        Ok("user2345userabcdefgaaqs5qrjftj2v".to_string())
    );
}

#[test]
fn a_full_payload_leaves_nothing_to_the_entropy() {
    let other = [0x11; 12];
    assert_eq!(
        generate_with_entropy("abcdefghijklmnopqrs", ENTROPY),
        generate_with_entropy("abcdefghijklmnopqrs", other)
    );
}

#[test]
fn entropy_after_the_prefix_shows_in_the_identifier() {
    let mut other = ENTROPY;
    other[11] ^= 1;
    let first = generate_with_entropy("foo", ENTROPY).unwrap();
    let second = generate_with_entropy("foo", other).unwrap();
    assert_ne!(first, second);
    let mut covered = ENTROPY;
    covered[0] ^= 0xff;
    assert_eq!(generate_with_entropy("foo", covered).unwrap(), first);
}

#[test]
fn generate_with_entropy_reports_errors_whatever_the_entropy() {
    for entropy in [[0u8; 12], ENTROPY, [0xff; 12]] {
        assert_eq!(
            generate_with_entropy("2isnotavalidfirstcharacter", entropy),
            Err(GenerateError::InvalidFirstCharacter)
        );
        assert_eq!(
            generate_with_entropy("thereisno1inbase32", entropy),
            Err(GenerateError::InvalidCharacter)
        );
        assert_eq!(
            generate_with_entropy("dontpad=", entropy),
            Err(GenerateError::InvalidCharacter)
        );
    }
}
