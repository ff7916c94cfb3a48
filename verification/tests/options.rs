use morse::options::{encoding_from_str, Encoding};

#[test]
fn encoding_names() {
    assert_eq!(encoding_from_str("a"), Ok(Encoding::Ascii));
    assert_eq!(encoding_from_str("ascii"), Ok(Encoding::Ascii));
    assert_eq!(encoding_from_str("u"), Ok(Encoding::Unicode));
    assert_eq!(encoding_from_str("unicode"), Ok(Encoding::Unicode));
}

#[test]
fn unknown_encoding_name() {
    assert_eq!(encoding_from_str("utf8"), Err("unrecognized encoding utf8".to_string()));
    assert_eq!(encoding_from_str(""), Err("unrecognized encoding ".to_string()));
    assert_eq!(encoding_from_str("ASCII"), Err("unrecognized encoding ASCII".to_string()));
}
