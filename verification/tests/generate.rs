use prefixed_id::{generate_with_prefix, GenerateError};

fn is_identifier_char(c: char) -> bool {
    ('a'..='z').contains(&c) || ('2'..='7').contains(&c)
}

#[test]
fn test_generate() {
    for case in ["", "aa", "x", "X", "foo", "foobar"] {
        match generate_with_prefix(case) {
            Ok(generated) => {
                assert_eq!(&case.to_ascii_lowercase(), &generated[0..case.len()]);
            }
            Err(err) => {
                panic!("Failed to generate for: {:?} Error: {:?}", case, err);
            }
        }
    }
}

#[test]
fn test_generate_too_long() {
    let generated = generate_with_prefix(
        "toolongtoevenfitinthegeneratedpackageidbutwhocaresitshouldbetrimmed",
    )
    .unwrap();
    let actual_prefix = "toolongtoevenfitint";
    assert_eq!(&generated[0..actual_prefix.len()], actual_prefix);
}

#[test]
fn test_failures() {
    assert_eq!(
        generate_with_prefix("2isnotavalidfirstcharacter"),
        Err(GenerateError::InvalidFirstCharacter)
    );
    assert_eq!(
        generate_with_prefix("thereisno1inbase32"),
        Err(GenerateError::InvalidCharacter)
    );
    assert_eq!(
        generate_with_prefix("dontpad="),
        Err(GenerateError::InvalidCharacter)
    );
}

#[test]
fn every_identifier_has_thirty_two_allowed_characters() {
    for case in [
        "",
        "a",
        "Zz",
        "user",
        "ACCT22",
        "abcdefghijklmnopqrs",
        "abcdefghijklmnopqrstuvwxyz234567",
    ] {
        let generated = generate_with_prefix(case).unwrap();
        assert_eq!(generated.len(), 32);
        assert!(generated.chars().all(is_identifier_char), "{}", generated);
    }
}

#[test]
fn prefix_of_every_length_up_to_nineteen_is_kept() {
    let full = "abcdefghijklmnopqrs";
    for len in 0..=full.len() {
        let case = &full[..len];
        let generated = generate_with_prefix(case).unwrap();
        assert_eq!(&generated[..len], case);
    }
}

#[test]
fn mixed_case_prefix_is_kept_in_lowercase() {
    let generated = generate_with_prefix("UsEr7").unwrap();
    assert_eq!(&generated[..5], "user7");
}

#[test]
fn longer_prefix_keeps_its_first_nineteen_characters() {
    for case in [
        "abcdefghijklmnopqrst",
        "abcdefghijklmnopqrstu",
        "zyxwvutsrqponmlkjihgfedcba765432",
    ] {
        let generated = generate_with_prefix(case).unwrap();
        assert_eq!(&generated[..19], &case[..19]);
        assert_eq!(generated.len(), 32);
    }
}

#[test]
fn empty_prefix_gives_an_identifier() {
    let generated = generate_with_prefix("").unwrap();
    assert_eq!(generated.len(), 32);
    assert!(generated.chars().all(is_identifier_char));
}

#[test]
fn the_same_refused_prefix_is_refused_alike_each_time() {
    for _ in 0..8 {
        assert_eq!(generate_with_prefix("7up"), Err(GenerateError::InvalidFirstCharacter));
        assert_eq!(generate_with_prefix("no good"), Err(GenerateError::InvalidCharacter));
    }
}

#[test]
fn a_refused_character_is_reported_before_a_leading_digit() {
    assert_eq!(generate_with_prefix("2bad!"), Err(GenerateError::InvalidCharacter));
    assert_eq!(generate_with_prefix("1"), Err(GenerateError::InvalidCharacter));
    assert_eq!(generate_with_prefix("234567"), Err(GenerateError::InvalidFirstCharacter));
    assert_eq!(generate_with_prefix("7"), Err(GenerateError::InvalidFirstCharacter));
}

#[test]
fn characters_outside_the_alphabet_are_refused() {
    for case in [
        "0", "a0", "a1", "a8", "a9", "a b", "a-b", "a_b", "a=", "=", "caf\u{e9}", "\u{e9}",
        "a\u{1f600}", "a\n",
    ] {
        assert_eq!(
            generate_with_prefix(case),
            Err(GenerateError::InvalidCharacter),
            "{:?}",
            case
        );
    }
}

#[test]
fn two_identifiers_of_one_prefix_differ() {
    let first = generate_with_prefix("user").unwrap();
    let second = generate_with_prefix("user").unwrap();
    assert_ne!(first, second);
    assert_eq!(&first[..4], &second[..4]);
}

#[test]
fn error_messages_name_the_rule() {
    assert_eq!(
        GenerateError::InvalidCharacter.message(),
        "Prefix can include only valid base32 characters (a-z, 2-7)"
    );
    assert_eq!(
        GenerateError::InvalidFirstCharacter.message(),
        "Prefix has to start with a letter"
    );
}
