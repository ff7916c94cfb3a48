use crate::alphabet::lookup_by_char;
use crate::glyph::{
    dash_char, dot_char, repeat, ASCII_DASH, ASCII_DOT, SEPARATOR, UNICODE_DASH, UNICODE_DOT,
};
use crate::letter::{Letter, Symbol};
use crate::signal::{
    char_code, first_unsupported, gaps, in_word, is_whitespace, letter_signal, letters_signal,
    open_signal, signal, supported, symbol_marks, symbols_signal, words, Mark,
};
use crate::strings::remove_last;
use vstd::prelude::*;
use vstd::string::StringExecFns;

verus! {

/// A consumer of Morse signal. It keeps what it was given as a sequence of
/// units of its own kind, one for each elementary unit of time: a dot is one
/// unit, a dash three, a space one.
pub trait Encoder: Sized {
    /// What the sink stores for one elementary unit.
    type Unit;

    /// What the methods of a sink leave as it is: how it was set up, and
    /// whatever else it holds beside its units.
    type Fixed;

    /// The sink is in a state that its methods accept and keep.
    spec fn wf(&self) -> bool;

    /// Everything the sink holds, oldest unit first.
    spec fn units(&self) -> Seq<Self::Unit>;

    /// The part of the sink that appending and removing units do not change.
    spec fn fixed(&self) -> Self::Fixed;

    /// What a sink with the fixed part `fixed` stores for the mark `m`.
    spec fn unit_of(fixed: Self::Fixed, m: Mark) -> Self::Unit;

    /// Appends a dash: three dash units.
    fn dash(&mut self)
        requires
            old(self).wf(),
        ensures
            final(self).wf(),
            final(self).fixed() == old(self).fixed(),
            final(self).units() == old(self).units() + seq![
                Self::unit_of(old(self).fixed(), Mark::Dash),
                Self::unit_of(old(self).fixed(), Mark::Dash),
                Self::unit_of(old(self).fixed(), Mark::Dash),
            ],
    ;

    /// Appends a dot: one dot unit.
    fn dot(&mut self)
        requires
            old(self).wf(),
        ensures
            final(self).wf(),
            final(self).fixed() == old(self).fixed(),
            final(self).units() == old(self).units() + seq![
                Self::unit_of(old(self).fixed(), Mark::Dot),
            ],
    ;

    /// Appends one silent unit.
    fn space(&mut self)
        requires
            old(self).wf(),
        ensures
            final(self).wf(),
            final(self).fixed() == old(self).fixed(),
            final(self).units() == old(self).units() + seq![
                Self::unit_of(old(self).fixed(), Mark::Gap),
            ],
    ;

    /// Removes the unit appended last, if there is one.
    fn pop(&mut self)
        requires
            old(self).wf(),
        ensures
            final(self).wf(),
            final(self).fixed() == old(self).fixed(),
            final(self).units() == trimmed(old(self).units(), 1),
    ;
}

/// The marks as the sink `e` stores them.
pub open spec fn rendered<E: Encoder>(e: &E, marks: Seq<Mark>) -> Seq<E::Unit> {
    marks.map_values(|m: Mark| E::unit_of(e.fixed(), m))
}

/// The sink `post` holds what `pre` held, followed by `marks`.
pub open spec fn appended<E: Encoder>(pre: &E, post: &E, marks: Seq<Mark>) -> bool {
    &&& post.wf()
    &&& post.fixed() == pre.fixed()
    &&& post.units() == pre.units() + rendered(pre, marks)
}

/// The sequence without its last `n` elements, or without any where it has
/// fewer.
pub open spec fn trimmed<T>(s: Seq<T>, n: nat) -> Seq<T> {
    if s.len() >= n {
        s.take(s.len() - n)
    } else {
        Seq::empty()
    }
}

/// Rendering goes mark by mark: what two signals give one after the other
/// is what their concatenation gives.
pub proof fn lemma_rendered_add<E: Encoder>(e: &E, a: Seq<Mark>, b: Seq<Mark>)
    ensures
        rendered(e, a + b) == rendered(e, a) + rendered(e, b),
{
    assert(rendered(e, a + b) =~= rendered(e, a) + rendered(e, b));
}

/// Appending `a` and then `b` appends `a + b`.
proof fn lemma_appended_twice<E: Encoder>(e0: &E, e1: &E, e2: &E, a: Seq<Mark>, b: Seq<Mark>)
    requires
        appended(e0, e1, a),
        appended(e1, e2, b),
    ensures
        appended(e0, e2, a + b),
{
    lemma_rendered_add(e0, a, b);
    assert(rendered(e1, b) =~= rendered(e0, b));
    assert(e2.units() =~= e0.units() + rendered(e0, a + b));
}

/// Tells whether the character separates words.
pub fn is_separator(c: char) -> (r: bool)
    ensures
        r == is_whitespace(c),
{
    ('\u{9}' <= c && c <= '\u{d}') || c == ' ' || c == '\u{85}' || c == '\u{a0}' || c
        == '\u{1680}' || ('\u{2000}' <= c && c <= '\u{200a}') || c == '\u{2028}' || c
        == '\u{2029}' || c == '\u{202f}' || c == '\u{205f}' || c == '\u{3000}'
}

/// The Morse letter of a character, whatever its case.
pub fn letter_of(c: char) -> (r: Option<Letter>)
    ensures
        match r {
            Some(l) => l.wf() && char_code(c) == Some(l@),
            None => char_code(c) is None,
        },
{
    let n: u32 = c as u32;
    if n >= 0x80 {
        return None;
    }
    let b: u8 = n as u8;
    let upper: u8 = if 0x61 <= b && b <= 0x7a {
        b - 0x20
    } else {
        b
    };
    lookup_by_char(upper)
}

/// Hands `n` silent units to the sink.
fn put_spaces<E: Encoder>(encoder: &mut E, n: usize)
    requires
        old(encoder).wf(),
    ensures
        appended(old(encoder), final(encoder), gaps(n as nat)),
{
    let ghost start = *encoder;
    let mut i: usize = 0;
    proof {
        assert(encoder.units() =~= start.units() + rendered(&start, gaps(0)));
    }
    while i < n
        invariant
            i <= n,
            appended(&start, encoder, gaps(i as nat)),
        decreases n - i,
    {
        let ghost before = *encoder;
        encoder.space();
        proof {
            assert(rendered(&before, seq![Mark::Gap]) =~= seq![E::unit_of(before.fixed(), Mark::Gap)]);
            lemma_appended_twice(&start, &before, encoder, gaps(i as nat), seq![Mark::Gap]);
            assert(gaps(i as nat) + seq![Mark::Gap] =~= gaps((i + 1) as nat));
        }
        i = i + 1;
    }
}

/// Hands a letter to the sink: each symbol with the silent unit after it,
/// then the two units that complete the gap between letters.
fn put_letter<E: Encoder>(encoder: &mut E, letter: &Letter)
    requires
        old(encoder).wf(),
        letter.wf(),
    ensures
        appended(old(encoder), final(encoder), letter_signal(letter@)),
{
    let ghost start = *encoder;
    let symbols = letter.iter();
    let mut i: usize = 0;
    proof {
        assert(encoder.units() =~= start.units() + rendered(&start, symbols_signal(seq![])));
        assert(symbols@.take(0) =~= seq![]);
    }
    while i < symbols.len()
        invariant
            i <= symbols.len(),
            appended(&start, encoder, symbols_signal(symbols@.take(i as int))),
        decreases symbols.len() - i,
    {
        let ghost before = *encoder;
        match symbols[i] {
            Symbol::Dash => encoder.dash(),
            Symbol::Dot => encoder.dot(),
        }
        let ghost sounded = *encoder;
        encoder.space();
        proof {
            let done = symbols@.take(i as int);
            let next = symbols@.take(i + 1);
            assert(next.drop_last() =~= done);
            assert(next.last() == symbols@[i as int]);
            let sound = symbol_marks(symbols@[i as int]);
            assert(rendered(&before, sound) =~= sounded.units().skip(before.units().len() as int));
            assert(sounded.units() =~= before.units() + rendered(&before, sound));
            assert(rendered(&sounded, gaps(1)) =~= seq![E::unit_of(sounded.fixed(), Mark::Gap)]);
            lemma_appended_twice(&before, &sounded, encoder, sound, gaps(1));
            lemma_appended_twice(&start, &before, encoder, symbols_signal(done), sound + gaps(1));
            assert(symbols_signal(done) + (sound + gaps(1)) =~= symbols_signal(next));
        }
        i = i + 1;
    }
    let ghost before = *encoder;
    put_spaces(encoder, 2);
    proof {
        assert(symbols@.take(i as int) =~= letter@);
        lemma_appended_twice(&start, &before, encoder, symbols_signal(letter@), gaps(2));
    }
}

/// The words of a text with one more character, as `words` defines them.
proof fn lemma_words_push(p: Seq<char>, c: char)
    ensures
        is_whitespace(c) ==> words(p.push(c)) == words(p),
        !is_whitespace(c) && in_word(p) ==> words(p.push(c)) == words(p).drop_last().push(
            words(p).last().push(c),
        ),
        !is_whitespace(c) && !in_word(p) ==> words(p.push(c)) == words(p).push(seq![c]),
        in_word(p) ==> words(p).len() > 0,
    decreases p.len(),
{
    assert(p.push(c).drop_last() =~= p);
    if in_word(p) {
        lemma_words_push(p.drop_last(), p.last());
        assert(p.drop_last().push(p.last()) =~= p);
    }
}

/// What one more character adds to the open signal of a text: whitespace
/// closes a word that was open, and any other character adds its letter.
pub proof fn lemma_open_signal_push(p: Seq<char>, c: char)
    ensures
        is_whitespace(c) && in_word(p) ==> open_signal(p.push(c)) == open_signal(p) + gaps(4),
        is_whitespace(c) && !in_word(p) ==> open_signal(p.push(c)) == open_signal(p),
        !is_whitespace(c) && char_code(c) is Some ==> open_signal(p.push(c)) == open_signal(p)
            + letter_signal(char_code(c)->0),
        in_word(p) ==> signal(p) == open_signal(p) + gaps(4),
        !in_word(p) ==> signal(p) == open_signal(p),
{
    lemma_words_push(p, c);
    let w = words(p);
    if !is_whitespace(c) && char_code(c) is Some {
        let w2 = words(p.push(c));
        if in_word(p) {
            assert(w2.drop_last() =~= w.drop_last());
            assert(w2.last().drop_last() =~= w.last());
        } else {
            assert(w2.drop_last() =~= w);
            assert(w2.last() == seq![c]);
            assert(seq![c].drop_last() =~= Seq::<char>::empty());
            assert(seq![c].last() == c);
            assert(letters_signal(Seq::<char>::empty()) == Seq::<Mark>::empty());
            assert(letters_signal(seq![c]) =~= letter_signal(char_code(c)->0));
        }
    }
}

/// Removing `a` elements from the end and then `b` more removes `a + b`.
pub proof fn lemma_trimmed_twice<T>(s: Seq<T>, a: nat, b: nat)
    ensures
        trimmed(trimmed(s, a), b) == trimmed(s, a + b),
{
    assert(trimmed(trimmed(s, a), b) =~= trimmed(s, a + b));
}

/// The place of the first character of a text that is not accepted, where
/// there is one.
pub open spec fn unsupported_index(s: Seq<char>) -> int {
    choose|k: int| first_unsupported(s, k)
}

/// What a sink holds after a text has been sent to it. Where every
/// character is accepted, that is what it held, then the signal of the
/// text, less the last seven units. Otherwise it is what it held, then the
/// signal of the text before the first character that is not accepted.
pub open spec fn encoded_units<E: Encoder>(e: &E, text: Seq<char>) -> Seq<E::Unit> {
    if supported(text) {
        trimmed(e.units() + rendered(e, signal(text)), 7)
    } else {
        e.units() + rendered(e, open_signal(text.take(unsupported_index(text))))
    }
}

/// Only one place is that of the first character that is not accepted.
proof fn lemma_first_unsupported_unique(s: Seq<char>, k: int)
    requires
        first_unsupported(s, k),
    ensures
        !supported(s),
        unsupported_index(s) == k,
{
    let j = unsupported_index(s);
    assert(first_unsupported(s, j));
    if j < k {
        assert(s.take(k)[j] == s[j]);
    }
    if k < j {
        assert(s.take(j)[k] == s[k]);
    }
}

/// Encoding is a function of the text, of what the sink held and of its
/// fixed part: two sinks that agree in both hold the same after the same
/// text.
pub proof fn lemma_encode_deterministic<E: Encoder>(a: &E, b: &E, text: Seq<char>)
    requires
        a.units() == b.units(),
        a.fixed() == b.fixed(),
    ensures
        encoded_units(a, text) == encoded_units(b, text),
{
}

/// Sends a line of text to the sink as Morse signal. Words are what
/// whitespace separates; small letters count as their capitals. Each symbol
/// is followed by one silent unit, each letter by three, each word by
/// seven, and the last seven units are removed again at the end. A character
/// that is neither whitespace nor in the alphabet ends the work at once:
/// the sink keeps what it was given up to that character.
pub fn encode<E: Encoder>(encoder: &mut E, corpus: &str) -> (r: Option<()>)
    requires
        old(encoder).wf(),
    ensures
        final(encoder).wf(),
        final(encoder).fixed() == old(encoder).fixed(),
        r is Some <==> supported(corpus@),
        final(encoder).units() == encoded_units(old(encoder), corpus@),
{
    let ghost start = *encoder;
    let ghost text = corpus@;
    let mut inside = false;
    proof {
        assert(text.take(0) =~= Seq::<char>::empty());
        assert(encoder.units() =~= start.units() + rendered(&start, seq![]));
    }
    for c in it: corpus.chars()
        invariant
            it.seq() == text,
            text == corpus@,
            start == *old(encoder),
            supported(text.take(it.index() as int)),
            inside == in_word(text.take(it.index() as int)),
            appended(&start, encoder, open_signal(text.take(it.index() as int))),
    {
        let ghost k = it.index() as int;
        let ghost p = text.take(k);
        let ghost before = *encoder;
        proof {
            assert(text.take(k + 1) =~= p.push(c));
            lemma_open_signal_push(p, c);
        }
        if is_separator(c) {
            if inside {
                put_spaces(encoder, 4);
                proof {
                    lemma_appended_twice(&start, &before, encoder, open_signal(p), gaps(4));
                }
                inside = false;
            }
        } else {
            match letter_of(c) {
                Some(letter) => {
                    put_letter(encoder, &letter);
                    proof {
                        lemma_appended_twice(
                            &start,
                            &before,
                            encoder,
                            open_signal(p),
                            letter_signal(letter@),
                        );
                    }
                    inside = true;
                },
                None => {
                    proof {
                        assert(first_unsupported(text, k));
                        lemma_first_unsupported_unique(text, k);
                    }
                    return None;
                },
            }
        }
    }
    proof {
        let k = text.len() as int;
        assert(text.take(k) =~= text);
        lemma_open_signal_push(text, ' ');
    }
    if inside {
        let ghost before = *encoder;
        put_spaces(encoder, 4);
        proof {
            lemma_appended_twice(&start, &before, encoder, open_signal(text), gaps(4));
        }
    }
    let ghost full = encoder.units();
    let mut i: usize = 0;
    proof {
        assert(trimmed(full, 0) =~= full);
    }
    while i < 7
        invariant
            i <= 7,
            start == *old(encoder),
            encoder.wf(),
            encoder.fixed() == start.fixed(),
            encoder.units() == trimmed(full, i as nat),
        decreases 7 - i,
    {
        encoder.pop();
        proof {
            lemma_trimmed_twice(full, i as nat, 1);
        }
        i = i + 1;
    }
    Some(())
}

/// The character that the text rendering writes for a mark.
pub open spec fn text_unit(unicode: bool, m: Mark) -> char {
    match m {
        Mark::Dot => dot_char(unicode),
        Mark::Dash => dash_char(unicode),
        Mark::Gap => SEPARATOR,
    }
}

/// A sink that writes the signal as text: a string for a dot, one for a
/// dash, one for a silent unit.
pub struct TextEncoder {
    dot: &'static str,
    dash: &'static str,
    space: &'static str,
    encoded_text: String,
}

impl TextEncoder {
    /// Whether the sink writes the Unicode rendering.
    pub closed spec fn is_unicode(&self) -> bool {
        self.dot@ == repeat(dot_char(true), 1)
    }

    /// A sink that writes `.` for a dot and `---` for a dash.
    pub fn ascii() -> (r: TextEncoder)
        ensures
            r.wf(),
            !r.is_unicode(),
            r.units() == Seq::<char>::empty(),
    {
        proof {
            reveal_strlit(".");
            reveal_strlit("---");
            reveal_strlit(" ");
            assert(ASCII_DOT@ =~= repeat(dot_char(false), 1));
            assert(repeat(dot_char(false), 1)[0] != repeat(dot_char(true), 1)[0]);
            assert(ASCII_DASH@ =~= repeat(dash_char(false), 3));
            assert(" "@ =~= repeat(SEPARATOR, 1));
        }
        TextEncoder { dot: ASCII_DOT, dash: ASCII_DASH, space: " ", encoded_text: String::new() }
    }

    /// A sink that writes a black circle for a dot and three blocks for a
    /// dash.
    pub fn unicode() -> (r: TextEncoder)
        ensures
            r.wf(),
            r.is_unicode(),
            r.units() == Seq::<char>::empty(),
    {
        proof {
            reveal_strlit("\u{25cf}");
            reveal_strlit("\u{2586}\u{2586}\u{2586}");
            reveal_strlit(" ");
            assert(UNICODE_DOT@ =~= repeat(dot_char(true), 1));
            assert(UNICODE_DASH@ =~= repeat(dash_char(true), 3));
            assert(" "@ =~= repeat(SEPARATOR, 1));
        }
        TextEncoder {
            dot: UNICODE_DOT,
            dash: UNICODE_DASH,
            space: " ",
            encoded_text: String::new(),
        }
    }

    /// The text written so far.
    pub fn encoded(&self) -> (r: &str)
        ensures
            r@ == self.units(),
    {
        self.encoded_text.as_str()
    }

    /// Forgets the text written so far.
    pub fn clear(&mut self)
        requires
            old(self).wf(),
        ensures
            final(self).wf(),
            final(self).is_unicode() == old(self).is_unicode(),
            final(self).units() == Seq::<char>::empty(),
    {
        self.encoded_text.clear()
    }
}

impl Encoder for TextEncoder {
    type Unit = char;

    type Fixed = bool;

    closed spec fn wf(&self) -> bool {
        &&& self.dot@ == repeat(dot_char(self.is_unicode()), 1)
        &&& self.dash@ == repeat(dash_char(self.is_unicode()), 3)
        &&& self.space@ == repeat(SEPARATOR, 1)
    }

    closed spec fn units(&self) -> Seq<char> {
        self.encoded_text@
    }

    open spec fn fixed(&self) -> bool {
        self.is_unicode()
    }

    open spec fn unit_of(fixed: bool, m: Mark) -> char {
        text_unit(fixed, m)
    }

    fn dash(&mut self) {
        self.encoded_text.append(self.dash);
        proof {
            let c = dash_char(self.is_unicode());
            assert(repeat(c, 3) =~= seq![c, c, c]);
        }
    }

    fn dot(&mut self) {
        self.encoded_text.append(self.dot);
        proof {
            let c = dot_char(self.is_unicode());
            assert(repeat(c, 1) =~= seq![c]);
        }
    }

    fn space(&mut self) {
        self.encoded_text.append(self.space);
        proof {
            assert(repeat(SEPARATOR, 1) =~= seq![SEPARATOR]);
        }
    }

    fn pop(&mut self) {
        remove_last(&mut self.encoded_text);
        proof {
            assert(self.units() =~= trimmed(old(self).units(), 1));
        }
    }
}

} // verus!
