use crate::alphabet::{byte_of, lookup_by_letter};
use crate::glyph::{is_dash_glyph, is_dot_glyph, is_gap, repeat, SEPARATOR};
use crate::letter::{Letter, Symbol, MAX_SYMBOLS};
use itertools::Itertools;
use vstd::prelude::*;
use vstd::string::{StrSliceExecFns, StringExecFns};

verus! {

/// Why a line of Morse text could not be decoded.
#[derive(Debug)]
pub enum MorseDecoderError {
    /// A run of more than seven equal characters; holds its first seven.
    UnknownSymbol(String),
    /// A token that is no dot or dash where a symbol is due, or no gap of
    /// one, three or seven separators where a gap is due.
    UnexpectedToken(String),
    /// A letter whose symbols are no entry of the alphabet.
    UnknownMorse(Letter),
    /// The input ended where a symbol was due.
    EOF,
}

/// What a `MorseDecoderError` holds, as plain sequences.
pub enum DecodeFailure {
    UnknownSymbol(Seq<char>),
    UnexpectedToken(Seq<char>),
    UnknownMorse(Seq<Symbol>),
    EndOfInput,
}

impl View for MorseDecoderError {
    type V = DecodeFailure;

    open spec fn view(&self) -> DecodeFailure {
        match self {
            MorseDecoderError::UnknownSymbol(s) => DecodeFailure::UnknownSymbol(s@),
            MorseDecoderError::UnexpectedToken(s) => DecodeFailure::UnexpectedToken(s@),
            MorseDecoderError::UnknownMorse(l) => DecodeFailure::UnknownMorse(l@),
            MorseDecoderError::EOF => DecodeFailure::EndOfInput,
        }
    }
}

/// The character that stands for a symbol in a message.
pub open spec fn symbol_char(s: Symbol) -> char {
    match s {
        Symbol::Dash => '-',
        Symbol::Dot => '.',
    }
}

/// The message of a failure, as a person reads it.
pub open spec fn message_of(e: DecodeFailure) -> Seq<char> {
    match e {
        DecodeFailure::EndOfInput => "unexpected end of input"@,
        DecodeFailure::UnknownSymbol(s) => "unknown symbol "@ + s,
        DecodeFailure::UnexpectedToken(t) => "unexpected token "@ + t,
        DecodeFailure::UnknownMorse(m) => "unknown morse "@ + m.map_values(
            |s: Symbol| symbol_char(s),
        ),
    }
}

impl MorseDecoderError {
    /// The letter an `UnknownMorse` holds is well formed.
    pub open spec fn wf(&self) -> bool {
        match self {
            MorseDecoderError::UnknownMorse(l) => l.wf(),
            _ => true,
        }
    }

    /// The error as a line of text.
    pub fn message(&self) -> (r: String)
        requires
            self.wf(),
        ensures
            r@ == message_of(self@),
    {
        match self {
            MorseDecoderError::EOF => String::from_str("unexpected end of input"),
            MorseDecoderError::UnknownSymbol(s) => String::from_str("unknown symbol ").concat(
                s.as_str(),
            ),
            MorseDecoderError::UnexpectedToken(t) => String::from_str("unexpected token ").concat(
                t.as_str(),
            ),
            MorseDecoderError::UnknownMorse(m) => {
                let symbols = m.iter();
                let mut out = String::from_str("unknown morse ");
                let ghost head = out@;
                let mut i: usize = 0;
                while i < symbols.len()
                    invariant
                        i <= symbols.len(),
                        out@ == head + symbols@.take(i as int).map_values(
                            |s: Symbol| symbol_char(s),
                        ),
                    decreases symbols.len() - i,
                {
                    let c = match symbols[i] {
                        Symbol::Dash => '-',
                        Symbol::Dot => '.',
                    };
                    out.push(c);
                    proof {
                        assert(symbols@.take(i + 1).map_values(|s: Symbol| symbol_char(s))
                            =~= symbols@.take(i as int).map_values(|s: Symbol| symbol_char(s)).push(
                            c,
                        ));
                    }
                    i = i + 1;
                }
                proof {
                    assert(symbols@.take(i as int) =~= symbols@);
                }
                out
            },
        }
    }
}

/// The tokens of a text: its maximal runs of one repeated character, in
/// order. Each character either continues the run of the character before
/// it or starts a new run.
pub open spec fn runs(s: Seq<char>) -> Seq<Seq<char>>
    decreases s.len(),
{
    if s.len() == 0 {
        seq![]
    } else {
        let before = runs(s.drop_last());
        if s.len() >= 2 && s[s.len() - 2] == s.last() {
            before.drop_last().push(before.last().push(s.last()))
        } else {
            before.push(seq![s.last()])
        }
    }
}

/// The longest token the decoder reads: the gap between two words.
pub const MAX_TOKEN: usize = 7;

/// Where the decoder stands between two tokens.
pub enum Scan {
    /// A dot or a dash is due. `letter` holds the symbols read of the letter
    /// in progress, `text` the characters decoded so far.
    ReadingSymbol { letter: Seq<Symbol>, text: Seq<char> },
    /// A dot or a dash has just been read and a gap is due.
    ReadingGap { letter: Seq<Symbol>, text: Seq<char> },
    /// Decoding has failed; later tokens are not looked at.
    Failed(DecodeFailure),
}

/// The letter in progress with one more symbol, or the failure of a letter
/// that is full.
pub open spec fn with_symbol(letter: Seq<Symbol>, text: Seq<char>, s: Symbol) -> Scan {
    if letter.len() >= MAX_SYMBOLS {
        Scan::Failed(DecodeFailure::UnknownMorse(letter))
    } else {
        Scan::ReadingGap { letter: letter.push(s), text }
    }
}

/// The text with the letter in progress resolved and appended, followed by a
/// space where a word ends, or the failure of a letter the alphabet lacks.
pub open spec fn with_letter(letter: Seq<Symbol>, text: Seq<char>, end_of_word: bool) -> Scan {
    match byte_of(letter) {
        None => Scan::Failed(DecodeFailure::UnknownMorse(letter)),
        Some(b) => Scan::ReadingSymbol {
            letter: seq![],
            text: if end_of_word {
                text.push(b as char).push(' ')
            } else {
                text.push(b as char)
            },
        },
    }
}

/// One step of the decoder: the state after reading the token `tok`.
pub open spec fn step(state: Scan, tok: Seq<char>) -> Scan {
    match state {
        Scan::Failed(e) => Scan::Failed(e),
        Scan::ReadingSymbol { letter, text } => {
            if tok.len() > MAX_TOKEN {
                Scan::Failed(DecodeFailure::UnknownSymbol(tok.take(MAX_TOKEN as int)))
            } else if is_dash_glyph(tok) {
                with_symbol(letter, text, Symbol::Dash)
            } else if is_dot_glyph(tok) {
                with_symbol(letter, text, Symbol::Dot)
            } else {
                Scan::Failed(DecodeFailure::UnexpectedToken(tok))
            }
        },
        Scan::ReadingGap { letter, text } => {
            if tok.len() > MAX_TOKEN {
                Scan::Failed(DecodeFailure::UnknownSymbol(tok.take(MAX_TOKEN as int)))
            } else if is_gap(tok, 1) {
                Scan::ReadingSymbol { letter, text }
            } else if is_gap(tok, 3) {
                with_letter(letter, text, false)
            } else if is_gap(tok, 7) {
                with_letter(letter, text, true)
            } else {
                Scan::Failed(DecodeFailure::UnexpectedToken(tok))
            }
        },
    }
}

/// The state of the decoder after reading the tokens `toks` from the start.
pub open spec fn scan(toks: Seq<Seq<char>>) -> Scan
    decreases toks.len(),
{
    if toks.len() == 0 {
        Scan::ReadingSymbol { letter: seq![], text: seq![] }
    } else {
        step(scan(toks.drop_last()), toks.last())
    }
}

/// What the end of the input makes of the decoder's state. After a symbol
/// the letter in progress is resolved and ends the text. Where a symbol is
/// due the input has ended too early.
pub open spec fn finish(state: Scan) -> Result<Seq<char>, DecodeFailure> {
    match state {
        Scan::Failed(e) => Err(e),
        Scan::ReadingSymbol { letter, text } => Err(DecodeFailure::EndOfInput),
        Scan::ReadingGap { letter, text } => match byte_of(letter) {
            None => Err(DecodeFailure::UnknownMorse(letter)),
            Some(b) => Ok(text.push(b as char)),
        },
    }
}

/// The text that a line of Morse code stands for, or why it stands for
/// none. The empty line stands for the empty text.
pub open spec fn decode_spec(input: Seq<char>) -> Result<Seq<char>, DecodeFailure> {
    if input.len() == 0 {
        Ok(seq![])
    } else {
        finish(scan(runs(input)))
    }
}

/// Every token is a run: it is not empty and repeats one character.
pub proof fn lemma_runs_uniform(s: Seq<char>)
    ensures
        s.len() > 0 ==> runs(s).len() > 0 && runs(s).last().last() == s.last(),
        s.len() == 0 ==> runs(s).len() == 0,
        forall|i: int|
            0 <= i < runs(s).len() ==> (#[trigger] runs(s)[i]).len() > 0 && runs(s)[i] == repeat(
                runs(s)[i][0],
                runs(s)[i].len(),
            ),
    decreases s.len(),
{
    if s.len() > 0 {
        let p = s.drop_last();
        lemma_runs_uniform(p);
        let before = runs(p);
        assert forall|i: int| 0 <= i < runs(s).len() implies (#[trigger] runs(s)[i]).len() > 0
            && runs(s)[i] == repeat(runs(s)[i][0], runs(s)[i].len()) by {
            if i < runs(s).len() - 1 {
                assert(runs(s)[i] == before[i]);
            } else if s.len() >= 2 && s[s.len() - 2] == s.last() {
                assert(p.last() == s[s.len() - 2]);
                let r = before.last();
                assert(r == repeat(r[0], r.len()));
                assert(r.last() == r[0]);
                assert(runs(s)[i] == r.push(s.last()));
                assert(r.push(s.last()) =~= repeat(r[0], r.len() + 1));
            } else {
                assert(runs(s)[i] =~= repeat(s.last(), 1));
            }
        }
    }
}

/// Once decoding has failed, further tokens change nothing.
pub proof fn lemma_failed_stays(toks: Seq<Seq<char>>, n: int)
    requires
        0 <= n <= toks.len(),
        scan(toks.take(n)) is Failed,
    ensures
        scan(toks) == scan(toks.take(n)),
    decreases toks.len(),
{
    if n < toks.len() {
        assert(toks.drop_last().take(n) =~= toks.take(n));
        lemma_failed_stays(toks.drop_last(), n);
    } else {
        assert(toks.take(n) =~= toks);
    }
}

/// A gap of two, four, five or six separators after a symbol is an
/// unexpected token, whatever follows it.
pub proof fn lemma_malformed_gap(input: Seq<char>, n: int, k: nat)
    requires
        0 <= n < runs(input).len(),
        scan(runs(input).take(n)) is ReadingGap,
        runs(input)[n] == repeat(SEPARATOR, k),
        k == 2 || k == 4 || k == 5 || k == 6,
    ensures
        decode_spec(input) == Err::<Seq<char>, DecodeFailure>(
            DecodeFailure::UnexpectedToken(repeat(SEPARATOR, k)),
        ),
{
    let toks = runs(input);
    lemma_runs_uniform(input);
    assert(toks.take(n + 1).drop_last() =~= toks.take(n));
    assert(toks.take(n + 1).last() == toks[n]);
    assert(repeat(SEPARATOR, k).len() == k);
    assert(repeat(SEPARATOR, 1).len() == 1);
    assert(repeat(SEPARATOR, 3).len() == 3);
    assert(repeat(SEPARATOR, 7).len() == 7);
    lemma_failed_stays(toks, n + 1);
}

/// Splits a text into its runs of one repeated character with itertools'
/// `Itertools::group_by`, keyed by the character itself, which puts
/// consecutive elements with equal keys into one group, and collects each
/// group into a `String`. The contract claims that the groups are the runs
/// of the text, in order.
#[verifier::external_body]
fn tokens(input: &str) -> (r: Vec<String>)
    ensures
        r@.len() == runs(input@).len(),
        forall|i: int| 0 <= i < r@.len() ==> (#[trigger] r@[i])@ == runs(input@)[i],
{
    input.chars().group_by(|c| *c).into_iter().map(|(_, run)| run.collect()).collect()
}

/// The decoder's state as the loop of `decode` holds it.
spec fn state_of(after_symbol: bool, letter: Seq<Symbol>, text: Seq<char>) -> Scan {
    if after_symbol {
        Scan::ReadingGap { letter, text }
    } else {
        Scan::ReadingSymbol { letter, text }
    }
}

/// The character of the letter in progress, or the error that the alphabet
/// has no such letter.
fn resolve(letter: Letter) -> (r: Result<char, MorseDecoderError>)
    requires
        letter.wf(),
    ensures
        match r {
            Ok(c) => byte_of(letter@) is Some && c == byte_of(letter@)->0 as char,
            Err(e) => byte_of(letter@) is None && e == MorseDecoderError::UnknownMorse(letter),
        },
{
    match lookup_by_letter(&letter) {
        Some(b) => Ok(b as char),
        None => Err(MorseDecoderError::UnknownMorse(letter)),
    }
}

/// Decodes one line of Morse text: dots and dashes in the ASCII or the
/// Unicode rendering, one separator between the symbols of a letter, three
/// between letters and seven between words.
pub fn decode(input: &str) -> (r: Result<String, MorseDecoderError>)
    ensures
        match r {
            Ok(text) => decode_spec(input@) == Ok::<Seq<char>, DecodeFailure>(text@),
            Err(e) => e.wf() && decode_spec(input@) == Err::<Seq<char>, DecodeFailure>(e@),
        },
{
    let toks = tokens(input);
    let ghost all = runs(input@);
    proof {
        lemma_runs_uniform(input@);
    }
    let mut out = String::new();
    if toks.len() == 0 {
        return Ok(out);
    }
    let mut current = Letter::new();
    let mut after_symbol = false;
    let mut i: usize = 0;
    while i < toks.len()
        invariant
            all == runs(input@),
            toks@.len() == all.len(),
            forall|k: int| 0 <= k < toks@.len() ==> (#[trigger] toks@[k])@ == all[k],
            forall|k: int|
                0 <= k < all.len() ==> (#[trigger] all[k]).len() > 0 && all[k] == repeat(
                    all[k][0],
                    all[k].len(),
                ),
            i <= toks.len(),
            current.wf(),
            scan(all.take(i as int)) == state_of(after_symbol, current@, out@),
        decreases toks.len() - i,
    {
        let tok = &toks[i];
        let ghost run = all[i as int];
        proof {
            assert(all.take(i + 1).drop_last() =~= all.take(i as int));
            assert(all.take(i + 1).last() == run);
            assert(tok@ == run);
            assert(scan(all.take(i + 1)) == step(scan(all.take(i as int)), run));
        }
        let n = tok.as_str().unicode_len();
        let c = tok.as_str().get_char(0);
        if n > MAX_TOKEN {
            let head = tok.as_str().substring_char(0, MAX_TOKEN).to_owned();
            proof {
                assert(head@ =~= run.take(MAX_TOKEN as int));
                lemma_failed_stays(all, i + 1);
            }
            return Err(MorseDecoderError::UnknownSymbol(head));
        }
        if !after_symbol {
            let dash = n == 3 && (c == '-' || c == '\u{2586}');
            let dot = n == 1 && (c == '.' || c == '\u{25cf}');
            proof {
                assert(dash == is_dash_glyph(run)) by {
                    if is_dash_glyph(run) {
                        assert(repeat('-', 3)[0] == '-');
                        assert(repeat('\u{2586}', 3)[0] == '\u{2586}');
                    }
                }
                assert(dot == is_dot_glyph(run)) by {
                    if is_dot_glyph(run) {
                        assert(repeat('.', 1)[0] == '.');
                        assert(repeat('\u{25cf}', 1)[0] == '\u{25cf}');
                    }
                }
            }
            if !(dash || dot) {
                proof {
                    lemma_failed_stays(all, i + 1);
                }
                return Err(MorseDecoderError::UnexpectedToken(tok.clone()));
            }
            if current.len() >= MAX_SYMBOLS as usize {
                proof {
                    lemma_failed_stays(all, i + 1);
                }
                return Err(MorseDecoderError::UnknownMorse(current));
            }
            current = if dash {
                current.dash()
            } else {
                current.dot()
            };
            after_symbol = true;
        } else {
            let gap = c == SEPARATOR;
            proof {
                assert(repeat(SEPARATOR, 1)[0] == SEPARATOR);
                assert(repeat(SEPARATOR, 3)[0] == SEPARATOR);
                assert(repeat(SEPARATOR, 7)[0] == SEPARATOR);
                assert(gap && n == 1 <==> is_gap(run, 1));
                assert(gap && n == 3 <==> is_gap(run, 3));
                assert(gap && n == 7 <==> is_gap(run, 7));
            }
            if gap && n == 1 {
                after_symbol = false;
            } else if gap && (n == 3 || n == 7) {
                match resolve(current) {
                    Ok(ch) => {
                        out.push(ch);
                        if n == 7 {
                            out.push(SEPARATOR);
                        }
                        current = Letter::new();
                        after_symbol = false;
                    },
                    Err(e) => {
                        proof {
                            lemma_failed_stays(all, i + 1);
                        }
                        return Err(e);
                    },
                }
            } else {
                proof {
                    lemma_failed_stays(all, i + 1);
                }
                return Err(MorseDecoderError::UnexpectedToken(tok.clone()));
            }
        }
        i = i + 1;
    }
    proof {
        assert(all.take(i as int) =~= all);
    }
    if !after_symbol {
        return Err(MorseDecoderError::EOF);
    }
    match resolve(current) {
        Ok(ch) => {
            out.push(ch);
            Ok(out)
        },
        Err(e) => Err(e),
    }
}

} // verus!
