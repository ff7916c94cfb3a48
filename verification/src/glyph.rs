use vstd::prelude::*;

verus! {

/// The dot of the ASCII rendering.
pub const ASCII_DOT: &'static str = ".";

/// The dot of the Unicode rendering, a black circle.
pub const UNICODE_DOT: &'static str = "\u{25cf}";

/// The dash of the ASCII rendering.
pub const ASCII_DASH: &'static str = "---";

/// The dash of the Unicode rendering, three lower three-quarters blocks.
pub const UNICODE_DASH: &'static str = "\u{2586}\u{2586}\u{2586}";

/// The character that separates symbols, letters and words.
pub const SEPARATOR: char = ' ';

/// The character a dot is written with.
pub open spec fn dot_char(unicode: bool) -> char {
    if unicode {
        '\u{25cf}'
    } else {
        '.'
    }
}

/// The character a dash is written with, three times over.
pub open spec fn dash_char(unicode: bool) -> char {
    if unicode {
        '\u{2586}'
    } else {
        '-'
    }
}

/// `n` copies of the character `c`.
pub open spec fn repeat(c: char, n: nat) -> Seq<char> {
    Seq::new(n, |i: int| c)
}

/// A token that stands for a dot, in either rendering.
pub open spec fn is_dot_glyph(tok: Seq<char>) -> bool {
    tok == repeat(dot_char(false), 1) || tok == repeat(dot_char(true), 1)
}

/// A token that stands for a dash, in either rendering.
pub open spec fn is_dash_glyph(tok: Seq<char>) -> bool {
    tok == repeat(dash_char(false), 3) || tok == repeat(dash_char(true), 3)
}

/// A token made of `n` separator characters.
pub open spec fn is_gap(tok: Seq<char>, n: nat) -> bool {
    tok == repeat(SEPARATOR, n)
}

} // verus!
