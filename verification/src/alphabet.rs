use crate::letter::Symbol::{Dash, Dot};
use crate::letter::{lemma_equal_views, Letter, Symbol};
use vstd::prelude::*;

verus! {

/// International Morse code: the symbols of each byte `'A'..='Z'` and
/// `'0'..='9'`, given by its ASCII value, and `None` for any other byte.
pub open spec fn code_of(b: u8) -> Option<Seq<Symbol>> {
    match b {
        65 => Some(seq![Dot, Dash]),  // A
        66 => Some(seq![Dash, Dot, Dot, Dot]),  // B
        67 => Some(seq![Dash, Dot, Dash, Dot]),  // C
        68 => Some(seq![Dash, Dot, Dot]),  // D
        69 => Some(seq![Dot]),  // E
        70 => Some(seq![Dot, Dot, Dash, Dot]),  // F
        71 => Some(seq![Dash, Dash, Dot]),  // G
        72 => Some(seq![Dot, Dot, Dot, Dot]),  // H
        73 => Some(seq![Dot, Dot]),  // I
        74 => Some(seq![Dot, Dash, Dash, Dash]),  // J
        75 => Some(seq![Dash, Dot, Dash]),  // K
        76 => Some(seq![Dot, Dash, Dot, Dot]),  // L
        77 => Some(seq![Dash, Dash]),  // M
        78 => Some(seq![Dash, Dot]),  // N
        79 => Some(seq![Dash, Dash, Dash]),  // O
        80 => Some(seq![Dot, Dash, Dash, Dot]),  // P
        81 => Some(seq![Dash, Dash, Dot, Dash]),  // Q
        82 => Some(seq![Dot, Dash, Dot]),  // R
        83 => Some(seq![Dot, Dot, Dot]),  // S
        84 => Some(seq![Dash]),  // T
        85 => Some(seq![Dot, Dot, Dash]),  // U
        86 => Some(seq![Dot, Dot, Dot, Dash]),  // V
        87 => Some(seq![Dot, Dash, Dash]),  // W
        88 => Some(seq![Dash, Dot, Dot, Dash]),  // X
        89 => Some(seq![Dash, Dot, Dash, Dash]),  // Y
        90 => Some(seq![Dash, Dash, Dot, Dot]),  // Z
        49 => Some(seq![Dot, Dash, Dash, Dash, Dash]),  // 1
        50 => Some(seq![Dot, Dot, Dash, Dash, Dash]),  // 2
        51 => Some(seq![Dot, Dot, Dot, Dash, Dash]),  // 3
        52 => Some(seq![Dot, Dot, Dot, Dot, Dash]),  // 4
        53 => Some(seq![Dot, Dot, Dot, Dot, Dot]),  // 5
        54 => Some(seq![Dash, Dot, Dot, Dot, Dot]),  // 6
        55 => Some(seq![Dash, Dash, Dot, Dot, Dot]),  // 7
        56 => Some(seq![Dash, Dash, Dash, Dot, Dot]),  // 8
        57 => Some(seq![Dash, Dash, Dash, Dash, Dot]),  // 9
        48 => Some(seq![Dash, Dash, Dash, Dash, Dash]),  // 0
        _ => None,
    }
}

/// The byte whose Morse code is `code`, if there is one.
pub open spec fn byte_of(code: Seq<Symbol>) -> Option<u8> {
    if exists|b: u8| code_of(b) == Some(code) {
        Some(choose|b: u8| code_of(b) == Some(code))
    } else {
        None
    }
}

/// The bytes that have a Morse code: ASCII capital letters and digits.
pub open spec fn in_alphabet(b: u8) -> bool {
    (0x41 <= b <= 0x5a) || (0x30 <= b <= 0x39)
}

/// The Morse letter of the byte `b`.
pub fn lookup_by_char(b: u8) -> (r: Option<Letter>)
    ensures
        match r {
            Some(l) => l.wf() && code_of(b) == Some(l@),
            None => code_of(b) is None,
        },
{
    match b {
        65 => Some(Letter::new().dot().dash()),
        66 => Some(Letter::new().dash().dot().dot().dot()),
        67 => Some(Letter::new().dash().dot().dash().dot()),
        68 => Some(Letter::new().dash().dot().dot()),
        69 => Some(Letter::new().dot()),
        70 => Some(Letter::new().dot().dot().dash().dot()),
        71 => Some(Letter::new().dash().dash().dot()),
        72 => Some(Letter::new().dot().dot().dot().dot()),
        73 => Some(Letter::new().dot().dot()),
        74 => Some(Letter::new().dot().dash().dash().dash()),
        75 => Some(Letter::new().dash().dot().dash()),
        76 => Some(Letter::new().dot().dash().dot().dot()),
        77 => Some(Letter::new().dash().dash()),
        78 => Some(Letter::new().dash().dot()),
        79 => Some(Letter::new().dash().dash().dash()),
        80 => Some(Letter::new().dot().dash().dash().dot()),
        81 => Some(Letter::new().dash().dash().dot().dash()),
        82 => Some(Letter::new().dot().dash().dot()),
        83 => Some(Letter::new().dot().dot().dot()),
        84 => Some(Letter::new().dash()),
        85 => Some(Letter::new().dot().dot().dash()),
        86 => Some(Letter::new().dot().dot().dot().dash()),
        87 => Some(Letter::new().dot().dash().dash()),
        88 => Some(Letter::new().dash().dot().dot().dash()),
        89 => Some(Letter::new().dash().dot().dash().dash()),
        90 => Some(Letter::new().dash().dash().dot().dot()),
        49 => Some(Letter::new().dot().dash().dash().dash().dash()),
        50 => Some(Letter::new().dot().dot().dash().dash().dash()),
        51 => Some(Letter::new().dot().dot().dot().dash().dash()),
        52 => Some(Letter::new().dot().dot().dot().dot().dash()),
        53 => Some(Letter::new().dot().dot().dot().dot().dot()),
        54 => Some(Letter::new().dash().dot().dot().dot().dot()),
        55 => Some(Letter::new().dash().dash().dot().dot().dot()),
        56 => Some(Letter::new().dash().dash().dash().dot().dot()),
        57 => Some(Letter::new().dash().dash().dash().dash().dot()),
        48 => Some(Letter::new().dash().dash().dash().dash().dash()),
        _ => None,
    }
}

/// The byte whose Morse letter is `l`.
pub fn lookup_by_letter(l: &Letter) -> (r: Option<u8>)
    requires
        l.wf(),
    ensures
        r == byte_of(l@),
{
    let mut b: u8 = 0x30;
    while b <= 0x5a
        invariant
            l.wf(),
            0x30 <= b <= 0x5b,
            forall|c: u8| 0x30 <= c < b ==> code_of(c) != Some(l@),
        decreases 0x5b - b,
    {
        match lookup_by_char(b) {
            Some(m) => {
                if m == *l {
                    proof {
                        lemma_code_unique(b, choose|c: u8| code_of(c) == Some(l@));
                    }
                    return Some(b);
                }
                proof {
                    if m@ == l@ {
                        lemma_equal_views(m, *l);
                    }
                }
            },
            None => {},
        }
        b = b + 1;
    }
    None
}

/// A number that tells the Morse codes of the alphabet apart: the length, and
/// above it one binary digit for each of the first five symbols.
spec fn fingerprint(code: Seq<Symbol>) -> int {
    code.len() * 32 + dash_digit(code, 0) + 2 * dash_digit(code, 1) + 4 * dash_digit(code, 2) + 8
        * dash_digit(code, 3) + 16 * dash_digit(code, 4)
}

spec fn dash_digit(code: Seq<Symbol>, i: int) -> int {
    if i < code.len() && code[i] == Dash {
        1
    } else {
        0
    }
}

/// The fingerprint of the code of each byte of the alphabet.
spec fn fingerprint_of(b: u8) -> int {
    match b {
        65 => 66,
        66 => 129,
        67 => 133,
        68 => 97,
        69 => 32,
        70 => 132,
        71 => 99,
        72 => 128,
        73 => 64,
        74 => 142,
        75 => 101,
        76 => 130,
        77 => 67,
        78 => 65,
        79 => 103,
        80 => 134,
        81 => 139,
        82 => 98,
        83 => 96,
        84 => 33,
        85 => 100,
        86 => 136,
        87 => 102,
        88 => 137,
        89 => 141,
        90 => 131,
        49 => 190,
        50 => 188,
        51 => 184,
        52 => 176,
        53 => 160,
        54 => 161,
        55 => 163,
        56 => 167,
        57 => 175,
        48 => 191,
        _ => 0,
    }
}

proof fn lemma_fingerprint(b: u8)
    requires
        code_of(b) is Some,
    ensures
        fingerprint(code_of(b)->0) == fingerprint_of(b),
{
}

/// No two bytes share a Morse code.
pub proof fn lemma_code_unique(a: u8, b: u8)
    requires
        code_of(a) is Some,
        code_of(a) == code_of(b),
    ensures
        a == b,
{
    lemma_fingerprint(a);
    lemma_fingerprint(b);
}

/// The alphabet is a bijection between the bytes `'A'..='Z'`, `'0'..='9'` and
/// their Morse codes: exactly these bytes have a code, and the byte found for
/// the code of `b` is `b` again.
pub proof fn lemma_alphabet_bijection(b: u8)
    ensures
        code_of(b) is Some <==> in_alphabet(b),
        in_alphabet(b) ==> byte_of(code_of(b)->0) == Some(b),
{
    if in_alphabet(b) {
        let code = code_of(b)->0;
        assert(code_of(b) == Some(code));
        lemma_code_unique(b, choose|c: u8| code_of(c) == Some(code));
    }
}

/// Every code that has a byte is the code of that byte.
pub proof fn lemma_byte_of_inverse(code: Seq<Symbol>)
    requires
        byte_of(code) is Some,
    ensures
        code_of(byte_of(code)->0) == Some(code),
{
}

/// No Morse code of the alphabet is longer than five symbols, and none is
/// empty.
pub proof fn lemma_code_length(b: u8)
    requires
        code_of(b) is Some,
    ensures
        1 <= (code_of(b)->0).len() <= 5,
{
}

} // verus!
