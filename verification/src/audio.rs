use crate::encoder::{trimmed, Encoder};
use crate::signal::Mark;
use vstd::arithmetic::div_mod::{lemma_basic_div, lemma_fundamental_div_mod_converse};
use vstd::arithmetic::power2::{lemma2_to64, lemma_pow2_strictly_increases, pow2};
use vstd::bits::lemma_u32_shr_is_div;
use vstd::prelude::*;

verus! {

/// One elementary unit of the timeline: sound or silence.
#[derive(Debug, Clone, Copy, PartialEq, Eq, Structural)]
pub enum Beep {
    Off,
    On,
}

/// The number of units that one block of a `BeepVec` holds.
pub const NODE_LEN: usize = 32;

/// The unit that bit `k` of the block `word` stands for.
pub open spec fn beep_at(word: u32, k: int) -> Beep {
    if (word >> (k as u32)) & 1u32 == 1u32 {
        Beep::On
    } else {
        Beep::Off
    }
}

/// A sequence of units that grows and shrinks at its end, packed 32 to a
/// block. `last_node_len` counts the units in use of the last block.
pub struct BeepVec {
    data: Vec<u32>,
    last_node_len: usize,
}

impl View for BeepVec {
    type V = Seq<Beep>;

    /// The units, oldest first.
    closed spec fn view(&self) -> Seq<Beep> {
        Seq::new(self.count(), |i: int| beep_at(self.data@[i / 32], i % 32))
    }
}

impl BeepVec {
    /// The number of units held.
    closed spec fn count(&self) -> nat {
        if self.data@.len() == 0 {
            0
        } else {
            ((self.data@.len() - 1) * 32 + self.last_node_len) as nat
        }
    }

    /// The last block is never empty; without blocks the fill level stands
    /// at a full block, so that the next unit opens a new one.
    pub closed spec fn wf(&self) -> bool {
        &&& 1 <= self.last_node_len <= NODE_LEN
        &&& self.data@.len() == 0 ==> self.last_node_len == NODE_LEN
    }

    /// The empty sequence.
    pub fn new() -> (r: BeepVec)
        ensures
            r.wf(),
            r@ == Seq::<Beep>::empty(),
    {
        let r = BeepVec { data: Vec::new(), last_node_len: NODE_LEN };
        assert(r@ =~= Seq::<Beep>::empty());
        r
    }

    /// Appends the unit `b`.
    pub fn push(&mut self, b: Beep)
        requires
            old(self).wf(),
        ensures
            final(self).wf(),
            final(self)@ == old(self)@.push(b),
    {
        if self.last_node_len >= NODE_LEN {
            self.data.push(0);
            self.last_node_len = 0;
        }
        let last = self.data.len() - 1;
        let k: u32 = self.last_node_len as u32;
        let bit: u32 = match b {
            Beep::Off => 0,
            Beep::On => 1,
        };
        let word = self.data[last];
        let stored: u32 = (word & !(1u32 << k)) | (bit << k);
        self.data.set(last, stored);
        self.last_node_len = self.last_node_len + 1;
        proof {
            assert(((stored >> k) & 1u32) == bit) by (bit_vector)
                requires
                    k < 32,
                    bit == 0u32 || bit == 1u32,
                    stored == (word & !(1u32 << k)) | (bit << k),
            ;
            assert forall|j: u32| j < k implies #[trigger] ((stored >> j) & 1u32) == ((word >> j)
                & 1u32) by {
                assert(((stored >> j) & 1u32) == ((word >> j) & 1u32)) by (bit_vector)
                    requires
                        j < k,
                        k < 32,
                        bit == 0u32 || bit == 1u32,
                        stored == (word & !(1u32 << k)) | (bit << k),
                ;
            }
            let n = old(self)@.len() as int;
            assert(self@.len() == n + 1);
            assert forall|i: int| 0 <= i < n + 1 implies #[trigger] self@[i] == old(self)@.push(
                b,
            )[i] by {
                if i < n {
                    if i / 32 == last {
                        assert(((stored >> ((i % 32) as u32)) & 1u32) == ((word >> ((i % 32) as u32))
                            & 1u32));
                    }
                } else {
                    assert(i / 32 == last && i % 32 == k);
                }
            }
            assert(self@ =~= old(self)@.push(b));
        }
    }

    /// Removes the last unit, if there is one.
    pub fn pop(&mut self)
        requires
            old(self).wf(),
        ensures
            final(self).wf(),
            final(self)@ == trimmed(old(self)@, 1),
    {
        if self.data.len() == 0 {
            assert(self@ =~= trimmed(old(self)@, 1));
            return ;
        }
        self.last_node_len = self.last_node_len - 1;
        if self.last_node_len == 0 {
            self.data.pop();
            self.last_node_len = NODE_LEN;
        }
        assert(self@ =~= trimmed(old(self)@, 1));
    }

    /// The unit at position `i`, if there is one.
    pub fn get(&self, i: usize) -> (r: Option<Beep>)
        requires
            self.wf(),
        ensures
            r == (if i < self@.len() {
                Some(self@[i as int])
            } else {
                None
            }),
    {
        self.get_at(i / NODE_LEN, i % NODE_LEN)
    }

    /// The unit at place `offset` of the block `node`, if there is one. Where
    /// there is one, a block follows or could follow: `node` is not the
    /// largest number.
    pub fn get_at(&self, node: usize, offset: usize) -> (r: Option<Beep>)
        requires
            self.wf(),
            offset < NODE_LEN,
        ensures
            r == (if node * 32 + offset < self@.len() {
                Some(self@[node * 32 + offset])
            } else {
                None
            }),
            r is Some ==> node < usize::MAX,
    {
        if node >= self.data.len() {
            return None;
        }
        if node == self.data.len() - 1 && offset >= self.last_node_len {
            return None;
        }
        let word = self.data[node];
        let bit: u32 = (word >> (offset as u32)) & 1;
        if bit == 1 {
            Some(Beep::On)
        } else {
            Some(Beep::Off)
        }
    }
}

/// The number of samples in a second of output.
pub const FRAME_RATE: u32 = 48000;

/// The number of samples that one unit lasts at a speed level: the frame
/// rate divided by two to the power of the level plus one.
pub open spec fn unit_samples(speed: u8) -> int {
    FRAME_RATE as int / pow2((speed + 1) as nat) as int
}

/// The number of samples that one unit lasts at the speed level `speed`.
/// Each level halves it; from level 15 on it is zero.
pub fn samples_per_symbol(speed: u8) -> (r: u32)
    ensures
        r == unit_samples(speed),
{
    proof {
        lemma2_to64();
    }
    if speed >= 16 {
        proof {
            lemma_pow2_strictly_increases(16, (speed + 1) as nat);
            lemma_basic_div(FRAME_RATE as int, pow2((speed + 1) as nat) as int);
        }
        0
    } else {
        let shift: u32 = speed as u32 + 1;
        proof {
            lemma_u32_shr_is_div(FRAME_RATE, shift);
            assert(shift as nat == (speed + 1) as nat);
            assert(FRAME_RATE as nat / pow2(shift as nat) == FRAME_RATE as int / pow2(
                shift as nat,
            ) as int);
        }
        FRAME_RATE >> shift
    }
}

/// One sample of the waveform, before it is turned into an amplitude.
#[derive(Debug, Clone, Copy, PartialEq, Eq, Structural)]
pub enum Sample {
    /// A sample of a silent unit: amplitude zero.
    Silence,
    /// A sample of a sounding unit. `step` counts the samples since the unit
    /// began; divided by the samples of a unit it is the place within the
    /// unit at which the sine wave is taken.
    Tone { step: u32 },
}

/// The sample with number `k` of a timeline played at `rate` samples to the
/// unit.
pub open spec fn sample_at(units: Seq<Beep>, rate: int, k: int) -> Sample {
    match units[k / rate] {
        Beep::Off => Sample::Silence,
        Beep::On => Sample::Tone { step: (k % rate) as u32 },
    }
}

/// The samples of a timeline played at `rate` samples to the unit: as many
/// as the units times the rate.
pub open spec fn waveform(units: Seq<Beep>, rate: int) -> Seq<Sample> {
    Seq::new((units.len() * rate) as nat, |k: int| sample_at(units, rate, k))
}

/// A timeline of `n` units gives `n` times the rate samples, each unit the
/// samples from its number times the rate on, and the first sample of a
/// silent unit is silence.
pub proof fn lemma_waveform(units: Seq<Beep>, rate: int, u: int)
    requires
        rate > 0,
        0 <= u < units.len(),
    ensures
        waveform(units, rate).len() == units.len() * rate,
        0 <= u * rate < waveform(units, rate).len(),
        units[u] == Beep::Off ==> waveform(units, rate)[u * rate] == Sample::Silence,
        units[u] == Beep::On ==> waveform(units, rate)[u * rate] == (Sample::Tone { step: 0 }),
{
    assert(0 <= u * rate < units.len() * rate) by (nonlinear_arith)
        requires
            rate > 0,
            0 <= u < units.len(),
    ;
    lemma_fundamental_div_mod_converse(u * rate, rate, u, 0);
}

/// How far a timeline has been played, and how fast it is played.
pub struct Playback {
    /// The number of samples that each unit lasts.
    pub rate: int,
    /// The number of samples handed out so far.
    pub position: int,
}

/// A sink that keeps the signal as a timeline of units, and a generator
/// that plays the timeline sample by sample.
pub struct AudioSource {
    sounds: BeepVec,
    current_node: usize,
    current_offset: usize,
    sample: u32,
    samples_per_symbol: u32,
}

impl AudioSource {
    /// The number of samples that each unit lasts.
    pub closed spec fn rate(&self) -> int {
        self.samples_per_symbol as int
    }

    /// The number of samples handed out so far.
    pub closed spec fn position(&self) -> int {
        (self.current_node * 32 + self.current_offset) * self.samples_per_symbol + self.sample
    }

    /// All the samples of the timeline, those handed out already too.
    pub open spec fn samples(&self) -> Seq<Sample> {
        waveform(self.units(), self.rate())
    }

    /// An empty timeline played at `samples_per_symbol` samples to the unit.
    pub fn new(samples_per_symbol: u32) -> (r: AudioSource)
        requires
            samples_per_symbol > 0,
        ensures
            r.wf(),
            r.units() == Seq::<Beep>::empty(),
            r.rate() == samples_per_symbol,
            r.position() == 0,
    {
        let r = AudioSource {
            samples_per_symbol,
            current_node: 0,
            current_offset: 0,
            sample: 0,
            sounds: BeepVec::new(),
        };
        assert(0int * (samples_per_symbol as int) == 0) by (nonlinear_arith);
        r
    }

    /// The next sample, or `None` when every unit of the timeline has been
    /// played: each unit gives as many samples as the rate says, so a
    /// timeline of `n` units gives `n` times the rate in all.
    pub fn next(&mut self) -> (r: Option<Sample>)
        requires
            old(self).wf(),
        ensures
            final(self).wf(),
            final(self).units() == old(self).units(),
            final(self).rate() == old(self).rate(),
            0 <= old(self).position(),
            r == (if old(self).position() < old(self).samples().len() {
                Some(old(self).samples()[old(self).position()])
            } else {
                None
            }),
            final(self).position() == (if r is Some {
                old(self).position() + 1
            } else {
                old(self).position()
            }),
    {
        let ghost rate = self.samples_per_symbol as int;
        let ghost unit = self.current_node * 32 + self.current_offset;
        let ghost step = self.sample as int;
        let ghost count = self.sounds@.len() as int;
        proof {
            lemma_fundamental_div_mod_converse(unit * rate + step, rate, unit, step);
            if unit < count {
                assert(unit * rate + step < count * rate) by (nonlinear_arith)
                    requires
                        unit + 1 <= count,
                        0 <= step < rate,
                ;
            } else {
                assert(unit * rate + step >= count * rate) by (nonlinear_arith)
                    requires
                        unit >= count,
                        0 <= step,
                        0 < rate,
                ;
            }
            assert(0 <= unit * rate) by (nonlinear_arith)
                requires
                    0 <= unit,
                    0 < rate,
            ;
        }
        match self.sounds.get_at(self.current_node, self.current_offset) {
            None => None,
            Some(beep) => {
                let r = match beep {
                    Beep::Off => Sample::Silence,
                    Beep::On => Sample::Tone { step: self.sample },
                };
                if self.sample + 1 < self.samples_per_symbol {
                    self.sample = self.sample + 1;
                } else {
                    self.sample = 0;
                    if self.current_offset + 1 < NODE_LEN {
                        self.current_offset = self.current_offset + 1;
                    } else {
                        self.current_offset = 0;
                        self.current_node = self.current_node + 1;
                    }
                    proof {
                        assert((unit + 1) * rate == unit * rate + rate) by (nonlinear_arith);
                    }
                }
                Some(r)
            },
        }
    }
}

impl Encoder for AudioSource {
    type Unit = Beep;

    type Fixed = Playback;

    closed spec fn wf(&self) -> bool {
        &&& self.sounds.wf()
        &&& self.samples_per_symbol > 0
        &&& self.sample < self.samples_per_symbol
        &&& self.current_offset < NODE_LEN
    }

    closed spec fn units(&self) -> Seq<Beep> {
        self.sounds@
    }

    open spec fn fixed(&self) -> Playback {
        Playback { rate: self.rate(), position: self.position() }
    }

    open spec fn unit_of(fixed: Playback, m: Mark) -> Beep {
        match m {
            Mark::Gap => Beep::Off,
            _ => Beep::On,
        }
    }

    fn dash(&mut self) {
        self.sounds.push(Beep::On);
        self.sounds.push(Beep::On);
        self.sounds.push(Beep::On);
        proof {
            assert(self.units() =~= old(self).units() + seq![Beep::On, Beep::On, Beep::On]);
        }
    }

    fn dot(&mut self) {
        self.sounds.push(Beep::On);
        proof {
            assert(self.units() =~= old(self).units() + seq![Beep::On]);
        }
    }

    fn space(&mut self) {
        self.sounds.push(Beep::Off);
        proof {
            assert(self.units() =~= old(self).units() + seq![Beep::Off]);
        }
    }

    fn pop(&mut self) {
        self.sounds.pop();
    }
}

} // verus!
