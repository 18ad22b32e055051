use long_shot_rs::text::{
    chars_of, has_prefix, parse_int, push_decimal, push_signed, same_text, space, split_fields,
    split_words, string_of, trim_to_string, IntError,
};

#[test]
fn decimals_are_written() {
    let mut text = String::from("n=");
    push_decimal(&mut text, 0);
    push_decimal(&mut text, 18446744073709551615);
    assert_eq!(text, "n=018446744073709551615");
    let mut text = String::new();
    push_signed(&mut text, i64::MIN);
    push_signed(&mut text, 7);
    assert_eq!(text, "-92233720368547758087");
}

#[test]
fn written_integers_are_read_back() {
    for n in [0i64, 1, -1, 9, 10, 2147483647, -2147483648] {
        let mut text = String::new();
        push_signed(&mut text, n);
        assert_eq!(parse_int(&chars_of(&text), true, -2147483648, 2147483647), Ok(n));
    }
    assert_eq!(parse_int(&chars_of("12x"), true, 0, 5), Err(IntError::PosOverflow));
    assert_eq!(parse_int(&chars_of("4x"), true, 0, 5), Err(IntError::InvalidDigit));
}

#[test]
fn words_and_fields_are_split() {
    let words = split_words(&chars_of("  ab \u{2028}c\td "));
    assert_eq!(words, vec![vec!['a', 'b'], vec!['c'], vec!['d']]);
    let fields = split_fields(&chars_of(",a,,b"), ',');
    assert_eq!(fields, vec![vec![], vec!['a'], vec![], vec!['b']]);
    assert_eq!(split_fields(&[], ',').len(), 1);
}

#[test]
fn texts_are_trimmed_and_compared() {
    assert_eq!(trim_to_string(&chars_of(" \u{a0}é x\n")), "é x");
    assert_eq!(string_of(&['a', '帧']), "a帧");
    assert!(same_text("wl_shm", "wl_shm"));
    assert!(!same_text("wl_shm", "wl_shm2"));
    assert!(!same_text("wl_shm", "wl_shn"));
    assert!(has_prefix("event12", "event"));
    assert!(!has_prefix("even", "event"));
    assert!(!has_prefix("mouse0", "event"));
}

#[test]
fn white_space_is_that_of_the_standard_library() {
    for u in 0..=0x3001u32 {
        if let Some(c) = char::from_u32(u) {
            assert_eq!(space(c), c.is_whitespace(), "{:x}", u);
        }
    }
}
