use morse::alphabet::{lookup_by_char, lookup_by_letter};
use morse::{Letter, Symbol};

fn letter(code: &str) -> Letter {
    let mut l = Letter::new();
    for c in code.chars() {
        l = if c == '-' { l.dash() } else { l.dot() };
    }
    l
}

const TABLE: [(u8, &str); 36] = [
    (b'A', ".-"),
    (b'B', "-..."),
    (b'C', "-.-."),
    (b'D', "-.."),
    (b'E', "."),
    (b'F', "..-."),
    (b'G', "--."),
    (b'H', "...."),
    (b'I', ".."),
    (b'J', ".---"),
    (b'K', "-.-"),
    (b'L', ".-.."),
    (b'M', "--"),
    (b'N', "-."),
    (b'O', "---"),
    (b'P', ".--."),
    (b'Q', "--.-"),
    (b'R', ".-."),
    (b'S', "..."),
    (b'T', "-"),
    (b'U', "..-"),
    (b'V', "...-"),
    (b'W', ".--"),
    (b'X', "-..-"),
    (b'Y', "-.--"),
    (b'Z', "--.."),
    (b'1', ".----"),
    (b'2', "..---"),
    (b'3', "...--"),
    (b'4', "....-"),
    (b'5', "....."),
    (b'6', "-...."),
    (b'7', "--..."),
    (b'8', "---.."),
    (b'9', "----."),
    (b'0', "-----"),
];

#[test]
fn new_letter_is_empty() {
    assert_eq!(Letter::new().len(), 0);
    assert!(Letter::new().iter().is_empty());
}

#[test]
fn symbols_come_out_in_transmission_order() {
    let l = Letter::new().dash().dot().dot().dash();
    assert_eq!(l.iter(), vec![Symbol::Dash, Symbol::Dot, Symbol::Dot, Symbol::Dash]);
    assert_eq!(l.len(), 4);
}

#[test]
fn and_appends_the_symbol() {
    let l = Letter::new().and(Symbol::Dot).and(Symbol::Dash);
    assert_eq!(l, Letter::new().dot().dash());
    assert_eq!(l.iter(), vec![Symbol::Dot, Symbol::Dash]);
}

#[test]
fn letters_are_equal_when_symbols_and_length_are() {
    assert_eq!(letter(".-"), letter(".-"));
    assert_ne!(letter(".-"), letter("-."));
    assert_ne!(letter("."), letter(".."));
    assert_ne!(letter(""), letter("."));
    assert_ne!(letter("-"), letter("-."));
}

#[test]
fn letter_holds_eight_symbols() {
    let l = letter("-.-.-.-.");
    assert_eq!(l.len(), 8);
    assert_eq!(
        l.iter(),
        vec![
            Symbol::Dash,
            Symbol::Dot,
            Symbol::Dash,
            Symbol::Dot,
            Symbol::Dash,
            Symbol::Dot,
            Symbol::Dash,
            Symbol::Dot
        ]
    );
    let all = letter("--------");
    assert_eq!(all.iter(), vec![Symbol::Dash; 8]);
}

#[test]
fn alphabet_is_international_morse() {
    for (byte, code) in TABLE {
        assert_eq!(lookup_by_char(byte), Some(letter(code)), "{}", byte as char);
    }
}

#[test]
fn alphabet_maps_back() {
    for (byte, code) in TABLE {
        assert_eq!(lookup_by_letter(&letter(code)), Some(byte));
        assert_eq!(lookup_by_letter(&lookup_by_char(byte).unwrap()), Some(byte));
    }
}

#[test]
fn alphabet_has_thirty_six_entries() {
    let mut found = Vec::new();
    for b in 0..=255u8 {
        if let Some(l) = lookup_by_char(b) {
            assert!(b.is_ascii_uppercase() || b.is_ascii_digit());
            assert!(!found.contains(&l));
            found.push(l);
        }
    }
    assert_eq!(found.len(), 36);
}

#[test]
fn no_entry_is_longer_than_five() {
    for b in 0..=255u8 {
        if let Some(l) = lookup_by_char(b) {
            assert!(1 <= l.len() && l.len() <= 5);
        }
    }
}

#[test]
fn bytes_outside_the_alphabet_have_no_letter() {
    for b in [b' ', b'@', b'a', b'z', b'/', b':', b'[', 0u8, 255u8] {
        assert_eq!(lookup_by_char(b), None);
    }
}

#[test]
fn letters_outside_the_alphabet_have_no_byte() {
    for code in ["", ".-.-", "......", "--------", "----", "..--"] {
        assert_eq!(lookup_by_letter(&letter(code)), None, "{}", code);
    }
}
