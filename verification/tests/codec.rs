use morse::decoder::MorseDecoderError;
use morse::encoder::{is_separator, letter_of, Encoder};
use morse::{decode, encode, Letter, TextEncoder};

fn ascii(text: &str) -> Option<String> {
    let mut encoder = TextEncoder::ascii();
    encode(&mut encoder, text)?;
    Some(encoder.encoded().to_string())
}

fn unicode(text: &str) -> Option<String> {
    let mut encoder = TextEncoder::unicode();
    encode(&mut encoder, text)?;
    Some(encoder.encoded().to_string())
}

#[test]
fn sos_exact_text() {
    assert_eq!(ascii("SOS").unwrap(), ". . .   --- --- ---   . . .");
}

#[test]
fn sos_decodes() {
    assert_eq!(decode(". . .   --- --- ---   . . .").unwrap(), "SOS");
}

#[test]
fn sos_in_unicode() {
    let text = unicode("SOS").unwrap();
    assert_eq!(
        text,
        "\u{25cf} \u{25cf} \u{25cf}   \u{2586}\u{2586}\u{2586} \u{2586}\u{2586}\u{2586} \u{2586}\u{2586}\u{2586}   \u{25cf} \u{25cf} \u{25cf}"
    );
    assert_eq!(decode(&text).unwrap(), "SOS");
}

#[test]
fn hello_world_round_trip() {
    let encoded = ascii("HELLO WORLD").unwrap();
    assert_eq!(decode(&encoded).unwrap(), "HELLO WORLD");
}

#[test]
fn hello_world_exact_text() {
    assert_eq!(
        ascii("HELLO WORLD").unwrap(),
        ". . . .   .   . --- . .   . --- . .   --- --- ---       . --- ---   --- --- ---   . --- .   . --- . .   --- . ."
    );
}

#[test]
fn words_are_seven_apart() {
    assert_eq!(ascii("E T").unwrap(), ".       ---");
}

#[test]
fn letters_are_three_apart() {
    assert_eq!(ascii("ET").unwrap(), ".   ---");
}

#[test]
fn round_trip_of_plain_texts() {
    let texts = [
        "",
        "E",
        "0",
        "THE QUICK BROWN FOX JUMPS OVER THE LAZY DOG",
        "0123456789",
        "A B C D E F G H I J K L M N O P Q R S T U V W X Y Z",
        "ABCDEFGHIJKLMNOPQRSTUVWXYZ0123456789",
        "1 22 333 4444",
    ];
    for text in texts {
        assert_eq!(decode(&ascii(text).unwrap()).unwrap(), text);
        assert_eq!(decode(&unicode(text).unwrap()).unwrap(), text);
    }
}

#[test]
fn encoding_twice_gives_the_same_text() {
    let first = ascii("MORSE CODE 73").unwrap();
    let second = ascii("MORSE CODE 73").unwrap();
    assert_eq!(first.as_bytes(), second.as_bytes());
}

#[test]
fn small_letters_count_as_capitals() {
    assert_eq!(ascii("sos").unwrap(), ascii("SOS").unwrap());
    assert_eq!(decode(&ascii("Hello").unwrap()).unwrap(), "HELLO");
}

#[test]
fn whitespace_only_separates_words() {
    assert_eq!(ascii("  E \t\n T  ").unwrap(), ".       ---");
    assert_eq!(ascii("E\u{a0}T").unwrap(), ".       ---");
    assert_eq!(ascii("E\u{3000}T").unwrap(), ".       ---");
}

#[test]
fn empty_line_encodes_to_nothing() {
    assert_eq!(ascii("").unwrap(), "");
    assert_eq!(ascii("   ").unwrap(), "");
}

#[test]
fn at_sign_is_unsupported() {
    assert!(ascii("@").is_none());
    assert!(ascii("A@B").is_none());
    assert!(ascii("HELLO W@RLD").is_none());
}

#[test]
fn other_characters_are_unsupported() {
    assert!(ascii("E.").is_none());
    assert!(ascii("\u{e9}").is_none());
    assert!(ascii("A-B").is_none());
    assert!(ascii("[").is_none());
    assert!(ascii("`").is_none());
    assert!(ascii("{").is_none());
    assert!(ascii("/").is_none());
    assert!(ascii(":").is_none());
}

#[test]
fn failure_keeps_what_came_before() {
    let mut encoder = TextEncoder::ascii();
    assert!(encode(&mut encoder, "E T@E").is_none());
    assert_eq!(encoder.encoded(), ".       ---   ");
    let mut encoder = TextEncoder::ascii();
    assert!(encode(&mut encoder, "E @").is_none());
    assert_eq!(encoder.encoded(), ".       ");
}

#[test]
fn encode_appends_to_what_the_sink_holds() {
    let mut encoder = TextEncoder::ascii();
    encode(&mut encoder, "E").unwrap();
    encode(&mut encoder, "T").unwrap();
    assert_eq!(encoder.encoded(), ".---");
}

#[test]
fn empty_line_removes_seven_units_of_what_was_there() {
    let mut encoder = TextEncoder::ascii();
    encode(&mut encoder, "SOS").unwrap();
    encode(&mut encoder, "").unwrap();
    assert_eq!(encoder.encoded(), ". . .   --- --- --- ");
    let mut encoder = TextEncoder::ascii();
    encode(&mut encoder, "E").unwrap();
    encode(&mut encoder, " ").unwrap();
    assert_eq!(encoder.encoded(), "");
}

#[test]
fn clear_forgets_the_text() {
    let mut encoder = TextEncoder::unicode();
    encode(&mut encoder, "SOS").unwrap();
    encoder.clear();
    assert_eq!(encoder.encoded(), "");
    encode(&mut encoder, "E").unwrap();
    assert_eq!(encoder.encoded(), "\u{25cf}");
}

#[test]
fn text_sink_operations() {
    let mut encoder = TextEncoder::ascii();
    encoder.dash();
    encoder.space();
    encoder.dot();
    assert_eq!(encoder.encoded(), "--- .");
    encoder.pop();
    assert_eq!(encoder.encoded(), "--- ");
    encoder.pop();
    encoder.pop();
    assert_eq!(encoder.encoded(), "--");
    encoder.pop();
    encoder.pop();
    encoder.pop();
    assert_eq!(encoder.encoded(), "");
}

#[test]
fn unicode_sink_pop_removes_one_character() {
    let mut encoder = TextEncoder::unicode();
    encoder.dash();
    encoder.pop();
    assert_eq!(encoder.encoded(), "\u{2586}\u{2586}");
}

#[test]
fn separator_is_unicode_whitespace() {
    let mut c = 0u32;
    while c <= 0x10ffff {
        if let Some(ch) = char::from_u32(c) {
            assert_eq!(is_separator(ch), ch.is_whitespace(), "U+{:04X}", c);
        }
        c += 1;
    }
}

#[test]
fn words_are_what_std_splits() {
    let texts = ["A B", " A  B ", "A\tB\nC", "AB\u{2003}CD", "\u{85}E\u{1680}E\u{205f}"];
    for text in texts {
        let joined = text.split_whitespace().collect::<Vec<_>>().join(" ");
        assert_eq!(ascii(text).unwrap(), ascii(&joined).unwrap());
    }
}

#[test]
fn letter_of_character() {
    assert_eq!(letter_of('a'), Some(Letter::new().dot().dash()));
    assert_eq!(letter_of('A'), Some(Letter::new().dot().dash()));
    assert_eq!(letter_of('z'), Some(Letter::new().dash().dash().dot().dot()));
    assert_eq!(letter_of('7'), Some(Letter::new().dash().dash().dot().dot().dot()));
    assert_eq!(letter_of(' '), None);
    assert_eq!(letter_of('@'), None);
    assert_eq!(letter_of('\u{c1}'), None);
    assert_eq!(letter_of('\u{141}'), None);
}

#[test]
fn empty_line_decodes_to_empty_text() {
    assert_eq!(decode("").unwrap(), "");
}

#[test]
fn two_space_gap_is_unexpected() {
    match decode(".  .") {
        Err(MorseDecoderError::UnexpectedToken(t)) => assert_eq!(t, "  "),
        other => panic!("{:?}", other),
    }
}

#[test]
fn gaps_of_four_five_six_are_unexpected() {
    for n in [2usize, 4, 5, 6] {
        let gap = " ".repeat(n);
        let text = format!(".{}---", gap);
        match decode(&text) {
            Err(MorseDecoderError::UnexpectedToken(t)) => assert_eq!(t, gap),
            other => panic!("{:?}", other),
        }
    }
}

#[test]
fn glyph_where_gap_is_due_is_unexpected() {
    match decode(".---") {
        Err(MorseDecoderError::UnexpectedToken(t)) => assert_eq!(t, "---"),
        other => panic!("{:?}", other),
    }
}

#[test]
fn token_that_is_no_symbol_is_unexpected() {
    for (text, token) in [("x", "x"), ("--", "--"), ("..", ".."), (" .", " "), (". ----", "----"), (".   xx", "xx")] {
        match decode(text) {
            Err(MorseDecoderError::UnexpectedToken(t)) => assert_eq!(t, token),
            other => panic!("{:?}", other),
        }
    }
}

#[test]
fn long_run_is_unknown_symbol() {
    match decode("--------") {
        Err(MorseDecoderError::UnknownSymbol(t)) => assert_eq!(t, "-------"),
        other => panic!("{:?}", other),
    }
    match decode(".         .") {
        Err(MorseDecoderError::UnknownSymbol(t)) => assert_eq!(t, "       "),
        other => panic!("{:?}", other),
    }
}

#[test]
fn pattern_outside_alphabet_is_unknown_morse() {
    match decode(". --- . ---   .") {
        Err(MorseDecoderError::UnknownMorse(l)) => {
            assert_eq!(l, Letter::new().dot().dash().dot().dash())
        }
        other => panic!("{:?}", other),
    }
    match decode(". . . . . .") {
        Err(MorseDecoderError::UnknownMorse(l)) => assert_eq!(l.len(), 6),
        other => panic!("{:?}", other),
    }
}

#[test]
fn letter_of_nine_symbols_is_unknown_morse() {
    match decode(". . . . . . . . .") {
        Err(MorseDecoderError::UnknownMorse(l)) => {
            assert_eq!(l.len(), 8);
            assert_eq!(l, Letter::new().dot().dot().dot().dot().dot().dot().dot().dot());
        }
        other => panic!("{:?}", other),
    }
}

#[test]
fn input_that_ends_in_a_gap_is_end_of_input() {
    for text in [". ", ".   ", ".       ", ". . .   "] {
        match decode(text) {
            Err(MorseDecoderError::EOF) => {}
            other => panic!("{:?}", other),
        }
    }
}

#[test]
fn first_error_is_reported() {
    match decode(".  . --------") {
        Err(MorseDecoderError::UnexpectedToken(t)) => assert_eq!(t, "  "),
        other => panic!("{:?}", other),
    }
}

#[test]
fn mixed_renderings_decode() {
    assert_eq!(decode("\u{25cf} ---   \u{2586}\u{2586}\u{2586} .").unwrap(), "AN");
}

#[test]
fn word_gap_gives_one_space() {
    assert_eq!(decode(".       .   .").unwrap(), "E EE");
}

#[test]
fn error_messages() {
    assert_eq!(MorseDecoderError::EOF.message(), "unexpected end of input");
    assert_eq!(
        MorseDecoderError::UnknownSymbol("-------".to_string()).message(),
        "unknown symbol -------"
    );
    assert_eq!(
        MorseDecoderError::UnexpectedToken("  ".to_string()).message(),
        "unexpected token   "
    );
    assert_eq!(
        MorseDecoderError::UnknownMorse(Letter::new().dot().dash().dot().dash()).message(),
        "unknown morse .-.-"
    );
    assert_eq!(decode(". --- --- --- --- ---").unwrap_err().message(), "unknown morse .-----");
}
