use vstd::prelude::*;

verus! {

/// One element of a Morse letter.
#[derive(Debug, Clone, Copy, Hash, PartialEq, Eq, Structural)]
pub enum Symbol {
    Dot,
    Dash,
}

/// A Morse letter: up to eight symbols in transmission order, packed into one
/// byte. Bit `i` of `symbols` is set when the `i`-th symbol is a dash.
#[derive(Debug, Clone, Copy, Hash, PartialEq, Eq, Structural)]
pub struct Letter {
    symbols: u8,
    len: u8,
}

/// The largest number of symbols a `Letter` can hold.
pub const MAX_SYMBOLS: u8 = 8;

/// The symbol stored at position `i` of the packed byte `bits`.
pub open spec fn symbol_at(bits: u8, i: int) -> Symbol {
    if (bits >> (i as u8)) & 1u8 == 1u8 {
        Symbol::Dash
    } else {
        Symbol::Dot
    }
}

impl View for Letter {
    type V = Seq<Symbol>;

    /// The symbols of the letter, first transmitted first.
    closed spec fn view(&self) -> Seq<Symbol> {
        Seq::new(self.len as nat, |i: int| symbol_at(self.symbols, i))
    }
}

impl Letter {
    /// The packing invariant: at most eight symbols, and no bit set at or
    /// above the length, so that equal symbol sequences are equal values.
    pub closed spec fn wf(&self) -> bool {
        &&& self.len <= MAX_SYMBOLS
        &&& (self.len < MAX_SYMBOLS ==> self.symbols >> self.len == 0u8)
    }

    /// The letter without symbols.
    pub fn new() -> (r: Letter)
        ensures
            r.wf(),
            r@ == Seq::<Symbol>::empty(),
    {
        let r = Letter { symbols: 0, len: 0 };
        assert(0u8 >> 0u8 == 0u8) by (bit_vector);
        assert(r@ =~= Seq::<Symbol>::empty());
        r
    }

    /// The number of symbols.
    pub fn len(&self) -> (n: usize)
        ensures
            n == self@.len(),
    {
        self.len as usize
    }

    /// The symbols of the letter in transmission order.
    pub fn iter(&self) -> (r: Vec<Symbol>)
        requires
            self.wf(),
        ensures
            r@ == self@,
    {
        let mut out: Vec<Symbol> = Vec::new();
        let mut i: u8 = 0;
        while i < self.len
            invariant
                self.wf(),
                i <= self.len,
                out@.len() == i,
                forall|k: int| 0 <= k < i ==> out@[k] == symbol_at(self.symbols, k),
            decreases self.len - i,
        {
            let bit: u8 = (self.symbols >> i) & 1;
            let s = if bit == 1 {
                Symbol::Dash
            } else {
                Symbol::Dot
            };
            out.push(s);
            i = i + 1;
        }
        assert(out@ =~= self@);
        out
    }

    /// This letter followed by a dash.
    pub fn dash(self) -> (r: Letter)
        requires
            self.wf(),
            self@.len() < MAX_SYMBOLS,
        ensures
            r.wf(),
            r@ == self@.push(Symbol::Dash),
    {
        self.and(Symbol::Dash)
    }

    /// This letter followed by a dot.
    pub fn dot(self) -> (r: Letter)
        requires
            self.wf(),
            self@.len() < MAX_SYMBOLS,
        ensures
            r.wf(),
            r@ == self@.push(Symbol::Dot),
    {
        self.and(Symbol::Dot)
    }

    /// This letter followed by the symbol `s`.
    pub fn and(self, s: Symbol) -> (r: Letter)
        requires
            self.wf(),
            self@.len() < MAX_SYMBOLS,
        ensures
            r.wf(),
            r@ == self@.push(s),
    {
        let bit: u8 = match s {
            Symbol::Dot => 0,
            Symbol::Dash => 1,
        };
        let old_bits = self.symbols;
        let n = self.len;
        let bits: u8 = old_bits | (bit << n);
        let r = Letter { symbols: bits, len: n + 1 };
        proof {
            lemma_append_bit(old_bits, n, bit);
            assert forall|k: int| 0 <= k < n + 1 implies #[trigger] r@[k] == self@.push(s)[k] by {
                if k < n {
                    assert((bits >> (k as u8)) & 1u8 == (old_bits >> (k as u8)) & 1u8);
                }
            }
            assert(r@ =~= self@.push(s));
        }
        r
    }
}

/// Setting bit `n` of a byte that has no bit at or above `n` keeps the bits
/// below `n`, stores the new bit at `n`, and leaves none above it.
proof fn lemma_append_bit(a: u8, n: u8, bit: u8)
    requires
        n < 8,
        a >> n == 0u8,
        bit == 0u8 || bit == 1u8,
    ensures
        (((a | (bit << n)) >> n) & 1u8) == bit,
        n < 7 ==> (a | (bit << n)) >> ((n + 1) as u8) == 0u8,
        forall|k: u8| k < n ==> #[trigger] (((a | (bit << n)) >> k) & 1u8) == ((a >> k) & 1u8),
{
    assert((((a | (bit << n)) >> n) & 1u8) == bit) by (bit_vector)
        requires
            n < 8,
            a >> n == 0u8,
            bit == 0u8 || bit == 1u8,
    ;
    assert(n < 7 ==> (a | (bit << n)) >> ((n + 1) as u8) == 0u8) by (bit_vector)
        requires
            n < 8,
            a >> n == 0u8,
            bit == 0u8 || bit == 1u8,
    ;
    assert forall|k: u8| k < n implies #[trigger] (((a | (bit << n)) >> k) & 1u8) == ((a >> k)
        & 1u8) by {
        assert((((a | (bit << n)) >> k) & 1u8) == ((a >> k) & 1u8)) by (bit_vector)
            requires
                k < n,
                n < 8,
                bit == 0u8 || bit == 1u8,
        ;
    }
}

/// Two well-formed letters with the same symbols are the same value: the
/// packing stores each symbol sequence in exactly one way.
pub proof fn lemma_equal_views(a: Letter, b: Letter)
    requires
        a.wf(),
        b.wf(),
        a@ == b@,
    ensures
        a == b,
{
    assert(a@.len() == a.len && b@.len() == b.len);
    let n = a.len;
    let x = a.symbols;
    let y = b.symbols;
    assert forall|k: u8| k < n implies #[trigger] ((x >> k) & 1u8) == ((y >> k) & 1u8) by {
        assert(a@[k as int] == b@[k as int]);
        assert(a@[k as int] == symbol_at(x, k as int));
        assert(b@[k as int] == symbol_at(y, k as int));
        assert(((x >> k) & 1u8) == 0u8 || ((x >> k) & 1u8) == 1u8) by (bit_vector);
        assert(((y >> k) & 1u8) == 0u8 || ((y >> k) & 1u8) == 1u8) by (bit_vector);
    }
    assert(x == y) by (bit_vector)
        requires
            n <= 8,
            n < 8 ==> x >> n == 0u8 && y >> n == 0u8,
            0 < n ==> ((x >> 0u8) & 1u8) == ((y >> 0u8) & 1u8),
            1 < n ==> ((x >> 1u8) & 1u8) == ((y >> 1u8) & 1u8),
            2 < n ==> ((x >> 2u8) & 1u8) == ((y >> 2u8) & 1u8),
            3 < n ==> ((x >> 3u8) & 1u8) == ((y >> 3u8) & 1u8),
            4 < n ==> ((x >> 4u8) & 1u8) == ((y >> 4u8) & 1u8),
            5 < n ==> ((x >> 5u8) & 1u8) == ((y >> 5u8) & 1u8),
            6 < n ==> ((x >> 6u8) & 1u8) == ((y >> 6u8) & 1u8),
            7 < n ==> ((x >> 7u8) & 1u8) == ((y >> 7u8) & 1u8),
    ;
}

} // verus!
