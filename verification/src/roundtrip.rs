use crate::alphabet::{byte_of, lemma_alphabet_bijection, lemma_code_length};
use crate::decoder::{decode_spec, runs, scan, step, DecodeFailure, Scan};
use crate::encoder::{
    encoded_units, lemma_open_signal_push, rendered, text_unit, trimmed, Encoder, TextEncoder,
};
use crate::glyph::{dash_char, dot_char, repeat, SEPARATOR};
use crate::letter::Symbol;
use crate::signal::{
    char_code, encodable, gaps, in_word, is_whitespace, open_signal, signal, supported,
    symbol_marks, symbols_signal, Mark,
};
use vstd::prelude::*;

verus! {

/// The text that a text sink writes for a signal.
pub open spec fn written(unicode: bool, marks: Seq<Mark>) -> Seq<char> {
    marks.map_values(|m: Mark| text_unit(unicode, m))
}

/// The Morse text of a line: its signal as a text sink writes it, less the
/// seven separators at its end.
pub open spec fn morse_text(unicode: bool, s: Seq<char>) -> Seq<char> {
    trimmed(written(unicode, signal(s)), 7)
}

/// A capital letter or a digit.
pub open spec fn plain_char(c: char) -> bool {
    ('A' <= c <= 'Z') || ('0' <= c <= '9')
}

/// A text of capital letters, digits and single spaces between them.
pub open spec fn plain_prefix(s: Seq<char>) -> bool {
    &&& forall|i: int| 0 <= i < s.len() ==> plain_char(#[trigger] s[i]) || s[i] == ' '
    &&& s.len() > 0 ==> s[0] != ' '
    &&& forall|i: int| 0 <= i < s.len() - 1 ==> !(#[trigger] s[i] == ' ' && s[i + 1] == ' ')
}

/// A text of capital letters, digits and spaces that neither begins nor
/// ends with a space and has no two spaces in a row.
pub open spec fn plain_text(s: Seq<char>) -> bool {
    &&& plain_prefix(s)
    &&& s.len() > 0 ==> s.last() != ' '
}

/// A fresh text sink holds the Morse text of a line after the line has been
/// sent to it.
pub proof fn lemma_text_encoding(e: &TextEncoder, s: Seq<char>)
    requires
        e.units() == Seq::<char>::empty(),
        supported(s),
    ensures
        encoded_units(e, s) == morse_text(e.is_unicode(), s),
{
    assert(rendered(e, signal(s)) =~= written(e.is_unicode(), signal(s)));
    assert(e.units() + rendered(e, signal(s)) =~= written(e.is_unicode(), signal(s)));
}

/// Writing goes mark by mark.
proof fn lemma_written_add(u: bool, a: Seq<Mark>, b: Seq<Mark>)
    ensures
        written(u, a + b) == written(u, a) + written(u, b),
{
    assert(written(u, a + b) =~= written(u, a) + written(u, b));
}

/// What is written for a gap and for each symbol.
proof fn lemma_written_pieces(u: bool, n: nat)
    ensures
        written(u, gaps(n)) == repeat(SEPARATOR, n),
        written(u, symbol_marks(Symbol::Dot)) == repeat(dot_char(u), 1),
        written(u, symbol_marks(Symbol::Dash)) == repeat(dash_char(u), 3),
{
    assert(written(u, gaps(n)) =~= repeat(SEPARATOR, n));
    assert(written(u, symbol_marks(Symbol::Dot)) =~= repeat(dot_char(u), 1));
    assert(written(u, symbol_marks(Symbol::Dash)) =~= repeat(dash_char(u), 3));
}

/// A run of a character that the text does not end with is one more token.
proof fn lemma_runs_append(x: Seq<char>, c: char, n: nat)
    requires
        n >= 1,
        x.len() == 0 || x.last() != c,
    ensures
        runs(x + repeat(c, n)) == runs(x).push(repeat(c, n)),
    decreases n,
{
    let y = x + repeat(c, n);
    assert(y.last() == c);
    if n == 1 {
        assert(y.drop_last() =~= x);
        assert(repeat(c, 1) =~= seq![c]);
    } else {
        let shorter = x + repeat(c, (n - 1) as nat);
        lemma_runs_append(x, c, (n - 1) as nat);
        assert(y.drop_last() =~= shorter);
        assert(y[y.len() - 2] == c);
        let before = runs(shorter);
        assert(before.drop_last() =~= runs(x));
        assert(before.last().push(c) =~= repeat(c, n));
    }
}

/// The decoder's state after a text.
spec fn state_after(x: Seq<char>) -> Scan {
    scan(runs(x))
}

/// After one more token the decoder is one step further.
proof fn lemma_state_append(x: Seq<char>, c: char, n: nat)
    requires
        n >= 1,
        x.len() == 0 || x.last() != c,
    ensures
        state_after(x + repeat(c, n)) == step(state_after(x), repeat(c, n)),
{
    lemma_runs_append(x, c, n);
    let toks = runs(x).push(repeat(c, n));
    assert(toks.drop_last() =~= runs(x));
}

/// The symbols of a letter with one silent unit between them.
spec fn sounding(code: Seq<Symbol>) -> Seq<Mark> {
    symbols_signal(code.drop_last()) + symbol_marks(code.last())
}

/// What is written for a symbol is a dot or a dash token that does not
/// contain the separator.
proof fn lemma_glyph(u: bool, sym: Symbol, letter: Seq<Symbol>, text: Seq<char>)
    ensures
        written(u, symbol_marks(sym)) == repeat(
            if sym == Symbol::Dot {
                dot_char(u)
            } else {
                dash_char(u)
            },
            if sym == Symbol::Dot {
                1
            } else {
                3
            },
        ),
        letter.len() < 8 ==> step(
            Scan::ReadingSymbol { letter, text },
            written(u, symbol_marks(sym)),
        ) == (Scan::ReadingGap { letter: letter.push(sym), text }),
{
    lemma_written_pieces(u, 1);
    let tok = written(u, symbol_marks(sym));
    assert(repeat('.', 1)[0] == '.');
    assert(repeat('\u{25cf}', 1)[0] == '\u{25cf}');
    assert(repeat('-', 3)[0] == '-');
    assert(repeat('\u{2586}', 3)[0] == '\u{2586}');
    assert(tok.len() == 1 || tok.len() == 3);
}

/// Read after a text that ends a gap, the symbols of a letter leave the
/// decoder with that letter in progress.
proof fn lemma_symbols(u: bool, x: Seq<char>, t: Seq<char>, code: Seq<Symbol>)
    requires
        x.len() == 0 || x.last() == SEPARATOR,
        state_after(x) == (Scan::ReadingSymbol { letter: seq![], text: t }),
        1 <= code.len() <= 8,
    ensures
        state_after(x + written(u, sounding(code))) == (Scan::ReadingGap { letter: code, text: t }),
        (x + written(u, sounding(code))).len() > 0,
        (x + written(u, sounding(code))).last() != SEPARATOR,
    decreases code.len(),
{
    let sym = code.last();
    let glyph = written(u, symbol_marks(sym));
    let gc = if sym == Symbol::Dot {
        dot_char(u)
    } else {
        dash_char(u)
    };
    let gn: nat = if sym == Symbol::Dot {
        1
    } else {
        3
    };
    lemma_glyph(u, sym, seq![], t);
    assert(glyph == repeat(gc, gn));
    if code.len() == 1 {
        assert(code.drop_last() =~= Seq::<Symbol>::empty());
        assert(symbols_signal(Seq::<Symbol>::empty()) == Seq::<Mark>::empty());
        assert(sounding(code) =~= symbol_marks(sym));
        lemma_state_append(x, gc, gn);
        assert(Seq::<Symbol>::empty().push(sym) =~= code);
    } else {
        let head = code.drop_last();
        lemma_symbols(u, x, t, head);
        let y = x + written(u, sounding(head));
        assert(symbols_signal(head) == sounding(head) + gaps(1));
        assert(sounding(code) =~= sounding(head) + gaps(1) + symbol_marks(sym));
        lemma_written_add(u, sounding(head) + gaps(1), symbol_marks(sym));
        lemma_written_add(u, sounding(head), gaps(1));
        lemma_written_pieces(u, 1);
        let z = y + repeat(SEPARATOR, 1);
        assert(x + written(u, sounding(code)) =~= z + glyph);
        lemma_state_append(y, SEPARATOR, 1);
        assert(state_after(z) == (Scan::ReadingSymbol { letter: head, text: t }));
        lemma_glyph(u, sym, head, t);
        assert(z.last() == SEPARATOR);
        lemma_state_append(z, gc, gn);
        assert(head.push(sym) =~= code);
    }
}

/// What the alphabet gives for a capital letter or a digit.
proof fn lemma_plain_char(c: char)
    requires
        plain_char(c),
    ensures
        !is_whitespace(c),
        char_code(c) is Some,
        1 <= (char_code(c)->0).len() <= 5,
        byte_of(char_code(c)->0) == Some(c as u8),
        (c as u8) as char == c,
{
    lemma_alphabet_bijection(c as u8);
    lemma_code_length(c as u8);
}

/// The signal of a text that ends inside a word, without the three silent
/// units at its end.
spec fn body(q: Seq<char>) -> Seq<Mark> {
    open_signal(q.drop_last()) + sounding(char_code(q.last())->0)
}

/// Where the decoder stands after the Morse text of the beginning of a
/// line: it has read the beginning itself. Before the gap that ends the
/// last letter, it has that letter in progress.
proof fn lemma_prefix(u: bool, q: Seq<char>)
    requires
        plain_prefix(q),
    ensures
        state_after(written(u, open_signal(q))) == (Scan::ReadingSymbol { letter: seq![], text: q }),
        written(u, open_signal(q)).len() == 0 || written(u, open_signal(q)).last() == SEPARATOR,
        in_word(q) ==> {
            &&& open_signal(q) == body(q) + gaps(3)
            &&& state_after(written(u, body(q))) == (Scan::ReadingGap {
                letter: char_code(q.last())->0,
                text: q.drop_last(),
            })
            &&& written(u, body(q)).len() > 0
            &&& written(u, body(q)).last() != SEPARATOR
        },
    decreases q.len(),
{
    if q.len() == 0 {
        assert(open_signal(q) =~= Seq::<Mark>::empty());
        assert(written(u, open_signal(q)) =~= Seq::<char>::empty());
        assert(q =~= Seq::<char>::empty());
    } else {
        let c = q.last();
        let q0 = q.drop_last();
        assert(q0.push(c) =~= q);
        assert(plain_prefix(q0)) by {
            assert forall|i: int| 0 <= i < q0.len() implies plain_char(#[trigger] q0[i]) || q0[i]
                == ' ' by {
                assert(q0[i] == q[i]);
            }
            assert forall|i: int| 0 <= i < q0.len() - 1 implies !(#[trigger] q0[i] == ' ' && q0[i
                + 1] == ' ') by {
                assert(q0[i] == q[i] && q0[i + 1] == q[i + 1]);
            }
        }
        lemma_prefix(u, q0);
        lemma_open_signal_push(q0, c);
        assert(plain_char(c) || c == ' ');
        if c == ' ' {
            assert(q0.len() > 0);
            let d = q0.last();
            assert(d == q[q.len() - 2]);
            assert(d != ' ');
            assert(plain_char(d));
            lemma_plain_char(d);
            assert(in_word(q0));
            let code = char_code(d)->0;
            assert(open_signal(q) =~= body(q0) + gaps(7)) by {
                assert(gaps(3) + gaps(4) =~= gaps(7));
            }
            lemma_written_add(u, body(q0), gaps(7));
            lemma_written_pieces(u, 7);
            let y = written(u, body(q0));
            lemma_state_append(y, SEPARATOR, 7);
            assert(repeat(SEPARATOR, 7).len() == 7);
            assert(repeat(SEPARATOR, 1).len() == 1);
            assert(repeat(SEPARATOR, 3).len() == 3);
            assert(q0.drop_last().push(d) =~= q0);
        } else {
            lemma_plain_char(c);
            let code = char_code(c)->0;
            let x0 = written(u, open_signal(q0));
            lemma_symbols(u, x0, q0, code);
            assert(symbols_signal(code) == sounding(code) + gaps(1));
            assert(open_signal(q) =~= body(q) + gaps(3)) by {
                assert(gaps(1) + gaps(2) =~= gaps(3));
            }
            lemma_written_add(u, open_signal(q0), sounding(code));
            lemma_written_add(u, body(q), gaps(3));
            lemma_written_pieces(u, 3);
            let y = written(u, body(q));
            lemma_state_append(y, SEPARATOR, 3);
            assert(repeat(SEPARATOR, 3).len() == 3);
            assert(repeat(SEPARATOR, 1).len() == 1);
            assert(repeat(SEPARATOR, 7).len() == 7);
        }
    }
}

/// Decoding the Morse text of a plain text gives the text back, in the ASCII
/// rendering and in the Unicode one.
pub proof fn lemma_round_trip(unicode: bool, s: Seq<char>)
    requires
        plain_text(s),
    ensures
        supported(s),
        decode_spec(morse_text(unicode, s)) == Ok::<Seq<char>, DecodeFailure>(s),
{
    assert forall|i: int| 0 <= i < s.len() implies encodable(#[trigger] s[i]) by {
        if s[i] != ' ' {
            lemma_plain_char(s[i]);
        }
    }
    if s.len() == 0 {
        assert(signal(s) =~= Seq::<Mark>::empty());
        assert(morse_text(unicode, s) =~= Seq::<char>::empty());
        assert(s =~= Seq::<char>::empty());
    } else {
        let c = s.last();
        assert(plain_char(c));
        lemma_plain_char(c);
        lemma_prefix(unicode, s);
        lemma_open_signal_push(s, ' ');
        assert(signal(s) =~= body(s) + gaps(7)) by {
            assert(gaps(3) + gaps(4) =~= gaps(7));
        }
        lemma_written_add(unicode, body(s), gaps(7));
        lemma_written_pieces(unicode, 7);
        let y = written(unicode, body(s));
        assert(morse_text(unicode, s) =~= y);
        assert(s.drop_last().push(c) =~= s);
    }
}

} // verus!
