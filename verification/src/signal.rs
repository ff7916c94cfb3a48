use crate::alphabet::code_of;
use crate::letter::Symbol;
use vstd::prelude::*;

verus! {

/// One elementary unit of Morse signal: a dot, a third of a dash, or silence.
pub enum Mark {
    Dot,
    Dash,
    Gap,
}

/// The characters that separate words: those that Unicode marks as
/// White_Space.
pub open spec fn is_whitespace(c: char) -> bool {
    ||| '\u{9}' <= c <= '\u{d}'
    ||| c == ' '
    ||| c == '\u{85}'
    ||| c == '\u{a0}'
    ||| c == '\u{1680}'
    ||| '\u{2000}' <= c <= '\u{200a}'
    ||| c == '\u{2028}'
    ||| c == '\u{2029}'
    ||| c == '\u{202f}'
    ||| c == '\u{205f}'
    ||| c == '\u{3000}'
}

/// The byte with an ASCII small letter turned into its capital.
pub open spec fn uppercase(b: u8) -> u8 {
    if 0x61 <= b <= 0x7a {
        (b - 0x20) as u8
    } else {
        b
    }
}

/// The Morse code of a character: that of its capital for an ASCII letter,
/// its own for an ASCII digit, none for any other character.
pub open spec fn char_code(c: char) -> Option<Seq<Symbol>> {
    if (c as u32) < 0x80 {
        code_of(uppercase(c as u8))
    } else {
        None
    }
}

/// A text ends inside a word when its last character is no whitespace.
pub open spec fn in_word(s: Seq<char>) -> bool {
    s.len() > 0 && !is_whitespace(s.last())
}

/// The words of a text: its maximal runs of characters that are no
/// whitespace. A whitespace character adds nothing; any other character
/// extends the word before it or, after whitespace or at the start, begins
/// a new word.
pub open spec fn words(s: Seq<char>) -> Seq<Seq<char>>
    decreases s.len(),
{
    if s.len() == 0 {
        seq![]
    } else {
        let before = words(s.drop_last());
        if is_whitespace(s.last()) {
            before
        } else if in_word(s.drop_last()) {
            before.drop_last().push(before.last().push(s.last()))
        } else {
            before.push(seq![s.last()])
        }
    }
}

/// A word is never empty and holds no whitespace, and a text that ends
/// inside a word ends with the last character of its last word.
pub proof fn lemma_words_shape(s: Seq<char>)
    ensures
        forall|i: int|
            0 <= i < words(s).len() ==> (#[trigger] words(s)[i]).len() > 0 && forall|j: int|
                0 <= j < words(s)[i].len() ==> !is_whitespace(#[trigger] words(s)[i][j]),
        in_word(s) ==> words(s).len() > 0 && words(s).last().last() == s.last(),
    decreases s.len(),
{
    if s.len() > 0 {
        let p = s.drop_last();
        lemma_words_shape(p);
        let before = words(p);
        let c = s.last();
        if !is_whitespace(c) {
            let n = words(s).len() - 1;
            assert forall|i: int| 0 <= i < words(s).len() implies (#[trigger] words(s)[i]).len() > 0
                && forall|j: int|
                0 <= j < words(s)[i].len() ==> !is_whitespace(#[trigger] words(s)[i][j]) by {
                if i < n {
                    assert(words(s)[i] == before[i]);
                } else if in_word(p) {
                    let w = before.last();
                    assert(words(s)[i] == w.push(c));
                    assert forall|j: int| 0 <= j < w.push(c).len() implies !is_whitespace(
                        #[trigger] w.push(c)[j],
                    ) by {
                        if j < w.len() {
                            assert(w.push(c)[j] == w[j]);
                        }
                    }
                } else {
                    assert(words(s)[i] == seq![c]);
                }
            }
        }
    }
}

/// `n` silent units.
pub open spec fn gaps(n: nat) -> Seq<Mark> {
    Seq::new(n, |i: int| Mark::Gap)
}

/// The units during which a symbol sounds: one for a dot, three for a dash.
pub open spec fn symbol_marks(s: Symbol) -> Seq<Mark> {
    match s {
        Symbol::Dot => seq![Mark::Dot],
        Symbol::Dash => seq![Mark::Dash, Mark::Dash, Mark::Dash],
    }
}

/// The signal of a run of symbols: each symbol followed by one silent unit.
pub open spec fn symbols_signal(code: Seq<Symbol>) -> Seq<Mark>
    decreases code.len(),
{
    if code.len() == 0 {
        seq![]
    } else {
        symbols_signal(code.drop_last()) + symbol_marks(code.last()) + gaps(1)
    }
}

/// The signal of a letter: its symbols, then two more silent units, which
/// with the one after the last symbol make the gap of three between letters.
pub open spec fn letter_signal(code: Seq<Symbol>) -> Seq<Mark> {
    symbols_signal(code) + gaps(2)
}

/// The signal of the letters of a word, one after the other.
pub open spec fn letters_signal(word: Seq<char>) -> Seq<Mark>
    decreases word.len(),
{
    if word.len() == 0 {
        seq![]
    } else {
        letters_signal(word.drop_last()) + match char_code(word.last()) {
            Some(code) => letter_signal(code),
            None => seq![],
        }
    }
}

/// The signal of a word: its letters, then four more silent units, which
/// with the three after the last letter make the gap of seven between words.
pub open spec fn word_signal(word: Seq<char>) -> Seq<Mark> {
    letters_signal(word) + gaps(4)
}

/// The signal of a list of words, one after the other.
pub open spec fn words_signal(ws: Seq<Seq<char>>) -> Seq<Mark>
    decreases ws.len(),
{
    if ws.len() == 0 {
        seq![]
    } else {
        words_signal(ws.drop_last()) + word_signal(ws.last())
    }
}

/// The signal of a text, each word with its closing gap.
pub open spec fn signal(s: Seq<char>) -> Seq<Mark> {
    words_signal(words(s))
}

/// The signal of a text as far as its last character gives it: where the
/// text ends inside a word, that word is not closed yet.
pub open spec fn open_signal(s: Seq<char>) -> Seq<Mark> {
    if in_word(s) {
        words_signal(words(s).drop_last()) + letters_signal(words(s).last())
    } else {
        signal(s)
    }
}

/// A character that the encoder accepts: whitespace, or one with a code.
pub open spec fn encodable(c: char) -> bool {
    is_whitespace(c) || char_code(c) is Some
}

/// Every character of the text is accepted.
pub open spec fn supported(s: Seq<char>) -> bool {
    forall|i: int| 0 <= i < s.len() ==> encodable(#[trigger] s[i])
}

/// `k` is the place of the first character of the text that is not accepted.
pub open spec fn first_unsupported(s: Seq<char>, k: int) -> bool {
    &&& 0 <= k < s.len()
    &&& !encodable(s[k])
    &&& supported(s.take(k))
}

} // verus!
