//! The unit catalog: polymorphic per-sample computation units.
//!
//! Every unit consumes zero or more input buffers of `FRAME` samples and
//! produces one output buffer per call, mutating its internal state. Zero
//! inputs mean free running with the constructed parameter; one input drives
//! the modulatable parameter, with the sample-and-hold rule: an input sample
//! of exactly zero means "no new value", the unit keeps the held value. Any
//! other input count leaves both the state and the output buffer untouched.

use vstd::prelude::*;
use crate::fx::{
    UNIT, UNIT_U, sat64, abs_int, sat_add, mul_scaled, mul_scaled_spec,
};

verus! {

/// Samples per processing frame.
pub const FRAME: usize = 64;

/// Ticks in one oscillator cycle at sample rate `sr`: phase is held in
/// fixed-point "ticks", `sr * UNIT` of which make one full cycle, so that a
/// per-sample advance of `freq * UNIT` ticks is exact.
pub open spec fn cycle_of(sr: u64) -> int {
    sr as int * UNIT_U as int
}

/// Clips `v` into `[lo, hi]`.
pub open spec fn clamp_spec(v: int, lo: int, hi: int) -> int {
    if v < lo {
        lo
    } else if v > hi {
        hi
    } else {
        v
    }
}

/// Clips a sample value into `[lo, hi]`.
pub fn clamp(v: i64, lo: i64, hi: i64) -> (r: i64)
    requires
        lo <= hi,
    ensures
        r as int == clamp_spec(v as int, lo as int, hi as int),
{
    if v < lo {
        lo
    } else if v > hi {
        hi
    } else {
        v
    }
}

/// One phase advance: add the increment, then wrap by one cycle length,
/// never clamping.
pub open spec fn step_phase(phase: int, inc: int, cycle: int) -> int {
    let p = phase + inc;
    if p > cycle {
        p - cycle
    } else if p < 0 {
        p + cycle
    } else {
        p
    }
}

/// The held increment after one modulation sample: zero holds, non-zero
/// replaces (clipped to one cycle per sample).
pub open spec fn held_inc(inc: int, m: int, cycle: int) -> int {
    if m != 0 {
        clamp_spec(m, -cycle, cycle)
    } else {
        inc
    }
}

/// Square wave: +1 while phase is in the first half cycle, else -1.
pub open spec fn squ_out(phase: int, cycle: int) -> int {
    if 2 * phase <= cycle {
        UNIT as int
    } else {
        -UNIT as int
    }
}

/// Triangle wave `2*(|2*p - 1| - 0.5)` for cycle-relative phase `p`, scaled
/// to fixed point.
pub open spec fn tri_out(phase: int, cycle: int) -> int {
    2 * abs_int(2 * phase - cycle) * (UNIT as int) / cycle - UNIT as int
}

/// Sine-like wave: the standard parabolic approximation of `sin(2*pi*p)`,
/// exact in integer arithmetic: with `q` the cycle position in millionths,
/// `16*q*(1/2 - q)` on the first half wave and its mirror on the second.
pub open spec fn sin_out(phase: int, sr: int) -> int {
    let q = phase / sr;
    let h = (UNIT as int) / 2;
    if q <= h {
        16 * q * (h - q) / (UNIT as int)
    } else {
        -(16 * (q - h) * ((UNIT as int) - q) / (UNIT as int))
    }
}

/// A free-running or frequency-modulated oscillator core: the state shared
/// by the sine, square and triangle units.
#[derive(Clone, Copy, PartialEq, Eq, Structural, Debug)]
pub struct OscCore {
    /// Base frequency, fixed point (Hz scaled by `UNIT`); the per-sample
    /// phase advance in ticks when free running.
    pub freq: i64,
    /// Phase in ticks, between 0 and one cycle inclusive.
    pub phase: u64,
    /// Sample rate in Hz.
    pub sr: u64,
    /// Held modulation increment, in ticks per sample; starts at zero and
    /// keeps the last non-zero modulation sample.
    pub inc: i64,
}

impl OscCore {
    /// Internal bounds every oscillator preserves.
    pub open spec fn wf(self) -> bool {
        &&& 1 <= self.sr <= 1000000
        &&& self.phase as int <= cycle_of(self.sr)
        &&& abs_int(self.freq as int) <= cycle_of(self.sr)
        &&& abs_int(self.inc as int) <= cycle_of(self.sr)
    }

    /// The default core: 1 Hz, phase zero, 44100 Hz sample rate.
    pub open spec fn default_spec() -> OscCore {
        OscCore { freq: UNIT, phase: 0, sr: 44100, inc: 0 }
    }

    pub fn new() -> (r: OscCore)
        ensures
            r == OscCore::default_spec(),
            r.wf(),
    {
        OscCore { freq: UNIT, phase: 0, sr: 44100, inc: 0 }
    }

    /// The core with its base frequency set, clipped to one cycle per
    /// sample.
    pub open spec fn freq_spec(self, freq: int) -> OscCore {
        OscCore { freq: clamp_spec(freq, -cycle_of(self.sr), cycle_of(self.sr)) as i64, ..self }
    }

    /// The core with its sample rate set; phase, frequency and held
    /// increment are clipped to the new cycle length.
    pub open spec fn sr_spec(self, sr: u64) -> OscCore {
        OscCore {
            freq: clamp_spec(self.freq as int, -cycle_of(sr), cycle_of(sr)) as i64,
            phase: clamp_spec(self.phase as int, 0, cycle_of(sr)) as u64,
            sr,
            inc: clamp_spec(self.inc as int, -cycle_of(sr), cycle_of(sr)) as i64,
        }
    }

    /// The core with its phase set, clipped to one cycle.
    pub open spec fn phase_spec(self, phase: u64) -> OscCore {
        OscCore { phase: clamp_spec(phase as int, 0, cycle_of(self.sr)) as u64, ..self }
    }

    /// Builder: set the base frequency, clipped to one cycle per sample.
    pub fn freq(self, freq: i64) -> (r: OscCore)
        requires
            self.wf(),
        ensures
            r == self.freq_spec(freq as int),
            r.wf(),
    {
        let cy: i64 = (self.sr * UNIT_U) as i64;
        OscCore { freq: clamp(freq, -cy, cy), ..self }
    }

    /// Builder: set the sample rate; phase, frequency and held increment are
    /// clipped to the new cycle length.
    pub fn sr(self, sr: u64) -> (r: OscCore)
        requires
            self.wf(),
            1 <= sr <= 1000000,
        ensures
            r == self.sr_spec(sr),
            r.wf(),
    {
        let cy: i64 = (sr * UNIT_U) as i64;
        let ph: u64 = if self.phase > cy as u64 {
            cy as u64
        } else {
            self.phase
        };
        OscCore {
            freq: clamp(self.freq, -cy, cy),
            phase: ph,
            sr,
            inc: clamp(self.inc, -cy, cy),
        }
    }

    /// Builder: set the phase, in ticks, clipped to one cycle.
    pub fn phase(self, phase: u64) -> (r: OscCore)
        requires
            self.wf(),
        ensures
            r == self.phase_spec(phase),
            r.wf(),
    {
        let cy: u64 = self.sr * UNIT_U;
        OscCore { phase: if phase > cy {
            cy
        } else {
            phase
        }, ..self }
    }

    /// One sample of state evolution: `m` is the modulation sample when the
    /// unit has one input. Free running advances by `freq`; modulated
    /// advances by the held increment.
    pub open spec fn step_spec(self, m: Option<i64>) -> OscCore {
        let cy = cycle_of(self.sr);
        match m {
            None => OscCore { phase: step_phase(self.phase as int, self.freq as int, cy) as u64, ..self },
            Some(v) => {
                let ni = held_inc(self.inc as int, v as int, cy);
                OscCore {
                    inc: ni as i64,
                    phase: step_phase(self.phase as int, ni, cy) as u64,
                    ..self
                }
            },
        }
    }

    /// Advances the phase by one sample.
    fn step(&mut self, m: Option<i64>)
        requires
            old(self).wf(),
        ensures
            *final(self) == old(self).step_spec(m),
            final(self).wf(),
    {
        let cy: i64 = (self.sr * UNIT_U) as i64;
        let inc: i64 = match m {
            None => self.freq,
            Some(v) => {
                if v != 0 {
                    self.inc = clamp(v, -cy, cy);
                }
                self.inc
            },
        };
        let p: i64 = self.phase as i64 + inc;
        let np: i64 = if p > cy {
            p - cy
        } else if p < 0 {
            p + cy
        } else {
            p
        };
        self.phase = np as u64;
    }

    /// Base-frequency parameter update.
    pub open spec fn set_freq_spec(self, v: int) -> OscCore {
        OscCore { freq: clamp_spec(v, -cycle_of(self.sr), cycle_of(self.sr)) as i64, ..self }
    }
}

/// Iterated phase advance with a fixed increment.
pub open spec fn phase_iter(p0: int, inc: int, cycle: int, k: nat) -> int
    decreases k,
{
    if k == 0 {
        p0
    } else {
        step_phase(phase_iter(p0, inc, cycle, (k - 1) as nat), inc, cycle)
    }
}

/// A free-running oscillator's phase after `k` samples is congruent to
/// `k * freq` ticks modulo one cycle, and never leaves `[0, cycle]` — the
/// tick image of "phase after k samples is (k*freq/sr) mod 1".
pub proof fn lemma_phase_iter_mod(p0: int, inc: int, cycle: int, k: nat)
    requires
        1 <= cycle,
        0 <= p0 <= cycle,
        abs_int(inc) <= cycle,
    ensures
        0 <= phase_iter(p0, inc, cycle, k) <= cycle,
        phase_iter(p0, inc, cycle, k) % cycle == (p0 + k * inc) % cycle,
    decreases k,
{
    if k == 0 {
        assert(k * inc == 0);
    } else {
        lemma_phase_iter_mod(p0, inc, cycle, (k - 1) as nat);
        let prev = phase_iter(p0, inc, cycle, (k - 1) as nat);
        let cur = step_phase(prev, inc, cycle);
        assert(k * inc == (k - 1) * inc + inc) by (nonlinear_arith);
        assert((p0 + (k - 1) * inc + inc) % cycle == ((p0 + (k - 1) * inc) % cycle + inc % cycle)
            % cycle) by {
            vstd::arithmetic::div_mod::lemma_add_mod_noop(p0 + (k - 1) * inc, inc, cycle);
        }
        assert((prev + inc) % cycle == (prev % cycle + inc % cycle) % cycle) by {
            vstd::arithmetic::div_mod::lemma_add_mod_noop(prev, inc, cycle);
        }
        if prev + inc > cycle {
            vstd::arithmetic::div_mod::lemma_mod_sub_multiples_vanish(prev + inc, cycle);
            assert(cur % cycle == (prev + inc) % cycle);
        } else if prev + inc < 0 {
            vstd::arithmetic::div_mod::lemma_mod_add_multiples_vanish(prev + inc, cycle);
            assert(cur % cycle == (prev + inc) % cycle);
        }
    }
}

/// Sine-family oscillator unit.
#[derive(Clone, Copy, PartialEq, Eq, Structural, Debug)]
pub struct SinOsc {
    pub core: OscCore,
}

/// Square oscillator unit: +1 while phase is at most half a cycle, else -1.
#[derive(Clone, Copy, PartialEq, Eq, Structural, Debug)]
pub struct SquOsc {
    pub core: OscCore,
}

/// Triangle oscillator unit.
#[derive(Clone, Copy, PartialEq, Eq, Structural, Debug)]
pub struct TriOsc {
    pub core: OscCore,
}

impl SinOsc {
    pub fn new() -> (r: SinOsc)
        ensures
            r.core == OscCore::default_spec(),
    {
        SinOsc { core: OscCore::new() }
    }

    pub fn freq(self, freq: i64) -> (r: SinOsc)
        requires
            self.core.wf(),
        ensures
            r.core == self.core.freq_spec(freq as int),
            r.core.wf(),
    {
        SinOsc { core: self.core.freq(freq) }
    }

    pub fn sr(self, sr: u64) -> (r: SinOsc)
        requires
            self.core.wf(),
            1 <= sr <= 1000000,
        ensures
            r.core == self.core.sr_spec(sr),
            r.core.wf(),
    {
        SinOsc { core: self.core.sr(sr) }
    }

    pub fn phase(self, phase: u64) -> (r: SinOsc)
        requires
            self.core.wf(),
        ensures
            r.core == self.core.phase_spec(phase),
            r.core.wf(),
    {
        SinOsc { core: self.core.phase(phase) }
    }
}

impl SquOsc {
    pub fn new() -> (r: SquOsc)
        ensures
            r.core == OscCore::default_spec(),
    {
        SquOsc { core: OscCore::new() }
    }

    pub fn freq(self, freq: i64) -> (r: SquOsc)
        requires
            self.core.wf(),
        ensures
            r.core == self.core.freq_spec(freq as int),
            r.core.wf(),
    {
        SquOsc { core: self.core.freq(freq) }
    }

    pub fn sr(self, sr: u64) -> (r: SquOsc)
        requires
            self.core.wf(),
            1 <= sr <= 1000000,
        ensures
            r.core == self.core.sr_spec(sr),
            r.core.wf(),
    {
        SquOsc { core: self.core.sr(sr) }
    }

    pub fn phase(self, phase: u64) -> (r: SquOsc)
        requires
            self.core.wf(),
        ensures
            r.core == self.core.phase_spec(phase),
            r.core.wf(),
    {
        SquOsc { core: self.core.phase(phase) }
    }
}

impl TriOsc {
    pub fn new() -> (r: TriOsc)
        ensures
            r.core == OscCore::default_spec(),
    {
        TriOsc { core: OscCore::new() }
    }

    pub fn freq(self, freq: i64) -> (r: TriOsc)
        requires
            self.core.wf(),
        ensures
            r.core == self.core.freq_spec(freq as int),
            r.core.wf(),
    {
        TriOsc { core: self.core.freq(freq) }
    }

    pub fn sr(self, sr: u64) -> (r: TriOsc)
        requires
            self.core.wf(),
            1 <= sr <= 1000000,
        ensures
            r.core == self.core.sr_spec(sr),
            r.core.wf(),
    {
        TriOsc { core: self.core.sr(sr) }
    }

    pub fn phase(self, phase: u64) -> (r: TriOsc)
        requires
            self.core.wf(),
        ensures
            r.core == self.core.phase_spec(phase),
            r.core.wf(),
    {
        TriOsc { core: self.core.phase(phase) }
    }
}

impl Default for SquOsc {
    fn default() -> (r: SquOsc)
        ensures
            r.core == OscCore::default_spec(),
    {
        SquOsc { core: OscCore::new() }
    }
}

impl Default for TriOsc {
    fn default() -> (r: TriOsc)
        ensures
            r.core == OscCore::default_spec(),
    {
        TriOsc { core: OscCore::new() }
    }
}

/// Impulse unit: a single-sample spike of +1 at the start of every period.
#[derive(Clone, Copy, PartialEq, Eq, Structural, Debug)]
pub struct Impulse {
    /// Base frequency, fixed point.
    pub freq: i64,
    /// Samples since the last spike.
    pub counter: u64,
    /// Sample rate in Hz.
    pub sr: u64,
    /// Held modulation increment (fixed-point frequency).
    pub inc: i64,
}

/// Samples between impulse spikes for a fixed-point frequency: zero stands
/// for "never fires again".
pub open spec fn imp_period(inc: int, sr: u64) -> int {
    if inc <= 0 {
        0
    } else {
        cycle_of(sr) / inc
    }
}

impl Impulse {
    pub open spec fn wf(self) -> bool {
        &&& 1 <= self.sr <= 1000000
        &&& abs_int(self.freq as int) <= cycle_of(self.sr)
        &&& abs_int(self.inc as int) <= cycle_of(self.sr)
        &&& self.counter as int <= cycle_of(self.sr)
    }

    /// One sample: spike when the counter sits at zero, then advance it,
    /// wrapping at the period of the active frequency.
    pub open spec fn step_spec(self, m: Option<i64>) -> (Impulse, i64) {
        let cy = cycle_of(self.sr);
        let ninc = match m {
            None => self.freq as int,
            Some(v) => held_inc(self.inc as int, v as int, cy),
        };
        let out: int = if self.counter == 0 {
            UNIT as int
        } else {
            0
        };
        let p = imp_period(ninc, self.sr);
        let c1: int = if self.counter as int + 1 > cy {
            cy
        } else {
            self.counter as int + 1
        };
        let nc: int = if p > 0 && c1 >= p {
            0
        } else {
            c1
        };
        (
            Impulse {
                counter: nc as u64,
                inc: match m {
                    None => self.inc,
                    Some(_) => ninc as i64,
                },
                ..self
            },
            out as i64,
        )
    }
}

/// Addition unit: adds a fixed scalar to its input signal; with no input it
/// emits the scalar itself.
#[derive(Clone, Copy, PartialEq, Eq, Structural, Debug)]
pub struct Add {
    pub v: i64,
}

/// Multiplication unit: scales its input signal by a fixed-point factor;
/// with no input it emits the factor itself.
#[derive(Clone, Copy, PartialEq, Eq, Structural, Debug)]
pub struct Mul {
    pub v: i64,
}

/// Rate-control unit: emits its constant value every sample, for driving
/// the modulation input of another unit.
#[derive(Clone, Copy, PartialEq, Eq, Structural, Debug)]
pub struct Speed {
    pub speed: i64,
}

/// Sample-player unit: streams a fixed table at a playback rate; a non-zero
/// input sample retriggers playback from the start at that rate (the pitch
/// ratio). Past the table end it reports silence.
#[derive(Clone, Debug)]
pub struct Sampler {
    /// The sample table, fixed at construction.
    pub table: Vec<i64>,
    /// Playback cursor, fixed point (table index scaled by `UNIT`).
    pub cursor: u64,
    /// Playback rate, fixed point, non-negative.
    pub rate: u64,
}

/// Ghost image of a sampler.
pub struct SamplerM {
    pub table: Seq<i64>,
    pub cursor: u64,
    pub rate: u64,
}

/// Largest accepted playback rate (a million-fold speed-up).
pub const MAX_RATE: u64 = 1000000000000;

/// One sampler sample: retrigger on a non-zero input, emit the table value
/// under the cursor or silence past the end, then advance the cursor.
pub open spec fn sampler_step(s: SamplerM, m: Option<i64>) -> (SamplerM, i64) {
    let trig = match m {
        Some(v) => v != 0,
        None => false,
    };
    let v: i64 = match m {
        Some(v) => v,
        None => 0,
    };
    let cur: u64 = if trig {
        0
    } else {
        s.cursor
    };
    let rate: u64 = if trig {
        clamp_spec(v as int, 0, MAX_RATE as int) as u64
    } else {
        s.rate
    };
    let idx = cur as int / UNIT_U as int;
    let out: i64 = if idx < s.table.len() {
        s.table[idx]
    } else {
        0
    };
    let ncur: int = if cur as int + rate as int > u64::MAX as int {
        u64::MAX as int
    } else {
        cur as int + rate as int
    };
    (SamplerM { table: s.table, cursor: ncur as u64, rate }, out)
}

impl Sampler {
    pub open spec fn model(self) -> SamplerM {
        SamplerM { table: self.table@, cursor: self.cursor, rate: self.rate }
    }
}

impl SamplerM {
    pub open spec fn wf(self) -> bool {
        self.rate <= MAX_RATE
    }
}

/// Percussive envelope unit: a linear attack stage then a linear decay
/// stage, silent afterwards; a non-zero input sample retriggers it.
#[derive(Clone, Copy, PartialEq, Eq, Structural, Debug)]
pub struct EnvPerc {
    /// Attack length in samples.
    pub attack: u64,
    /// Decay length in samples.
    pub decay: u64,
    /// Samples since the last trigger, capped at attack + decay.
    pub pos: u64,
}

/// Longest accepted envelope stage, in samples.
pub const MAX_ENV: u64 = 1000000000;

/// The envelope's value at `pos` samples after a trigger.
pub open spec fn env_out(pos: int, attack: int, decay: int) -> int {
    if pos < attack {
        (UNIT as int) * pos / attack
    } else if pos < attack + decay {
        (UNIT as int) * (attack + decay - pos) / decay
    } else {
        0
    }
}

impl EnvPerc {
    pub open spec fn wf(self) -> bool {
        &&& self.attack <= MAX_ENV
        &&& self.decay <= MAX_ENV
        &&& self.pos <= self.attack + self.decay
    }

    /// One envelope sample: retrigger on a non-zero input, emit the current
    /// stage value, then advance, holding at the end of the decay.
    pub open spec fn step_spec(self, m: Option<i64>) -> (EnvPerc, i64) {
        let trig = match m {
            Some(v) => v != 0,
            None => false,
        };
        let pos: int = if trig {
            0
        } else {
            self.pos as int
        };
        let out = env_out(pos, self.attack as int, self.decay as int);
        let np: int = if pos + 1 > self.attack + self.decay {
            self.attack as int + self.decay as int
        } else {
            pos + 1
        };
        ((EnvPerc { pos: np as u64, ..self }), out as i64)
    }
}

/// One compiled sequencer event.
#[derive(Clone, Copy, PartialEq, Eq, Structural, Debug)]
pub struct Event {
    /// Position within the cycle, in ticks (`time * cycle`).
    pub tick: u64,
    /// Position within the cycle as an exact fraction: numerator.
    pub tnum: u64,
    /// Position within the cycle as an exact fraction: denominator.
    pub tden: u64,
    /// Relative pitch ratio, fixed point, from the equal-tempered formula.
    pub ratio: i64,
    /// The semitone offset the ratio was computed from.
    pub semi: i64,
}

/// Event-sequencer unit: advances a cycle-relative clock and fires each
/// event's pitch ratio on the sample where the clock crosses its position.
#[derive(Clone, Debug)]
pub struct Looper {
    /// Compiled events, in firing order within the cycle.
    pub events: Vec<Event>,
    /// Cycle length in ticks (samples scaled by `UNIT`).
    pub cycle: u64,
    /// Clock position within the cycle, in ticks.
    pub step: u64,
    /// Clock advance per sample in ticks; `UNIT` is natural rate.
    pub rate: u64,
}

/// Ghost image of a sequencer.
pub struct LooperM {
    pub events: Seq<Event>,
    pub cycle: u64,
    pub step: u64,
    pub rate: u64,
}

/// Longest accepted sequencer cycle, in ticks.
pub const MAX_CYCLE: u64 = 1000000000000000;

/// The first event whose tick the clock crosses this sample, if any:
/// `lo <= tick < hi`.
pub open spec fn fire_at(events: Seq<Event>, lo: int, hi: int) -> Option<Event>
    decreases events.len(),
{
    if events.len() == 0 {
        None
    } else if lo <= events[0].tick < hi {
        Some(events[0])
    } else {
        fire_at(events.skip(1), lo, hi)
    }
}

/// One sequencer sample: a non-zero input retriggers the rate (held), the
/// crossed event's ratio is emitted (else silence), and the clock advances,
/// wrapping at the cycle length.
pub open spec fn looper_step(s: LooperM, m: Option<i64>) -> (LooperM, i64) {
    let rate: u64 = match m {
        Some(v) => if v != 0 {
            clamp_spec(v as int, 0, s.cycle as int) as u64
        } else {
            s.rate
        },
        None => s.rate,
    };
    let out: i64 = match fire_at(s.events, s.step as int, s.step as int + rate as int) {
        Some(e) => e.ratio,
        None => 0,
    };
    let adv = s.step as int + rate as int;
    let ns: int = if adv >= s.cycle as int {
        adv - s.cycle as int
    } else {
        adv
    };
    (LooperM { events: s.events, cycle: s.cycle, step: ns as u64, rate }, out)
}

impl Looper {
    pub open spec fn model(self) -> LooperM {
        LooperM { events: self.events@, cycle: self.cycle, step: self.step, rate: self.rate }
    }
}

impl LooperM {
    pub open spec fn wf(self) -> bool {
        &&& 1 <= self.cycle <= MAX_CYCLE
        &&& self.step <= self.cycle
        &&& self.rate <= self.cycle
    }
}

impl Impulse {
    /// Advances the impulse clock by one sample.
    fn step(&mut self, m: Option<i64>) -> (s: i64)
        requires
            old(self).wf(),
        ensures
            final(self).wf(),
            (*final(self), s) == old(self).step_spec(m),
    {
        let cy: u64 = self.sr * UNIT_U;
        let out: i64 = if self.counter == 0 {
            UNIT
        } else {
            0
        };
        let ninc: i64 = match m {
            None => self.freq,
            Some(v) => {
                if v != 0 {
                    self.inc = clamp(v, -(cy as i64), cy as i64);
                }
                self.inc
            },
        };
        let p: u64 = if ninc <= 0 {
            0
        } else {
            cy / (ninc as u64)
        };
        let c1: u64 = if self.counter + 1 > cy {
            cy
        } else {
            self.counter + 1
        };
        self.counter = if p > 0 && c1 >= p {
            0
        } else {
            c1
        };
        out
    }
}

impl Sampler {
    /// Advances playback by one sample.
    fn step(&mut self, m: Option<i64>) -> (s: i64)
        requires
            old(self).model().wf(),
        ensures
            final(self).model().wf(),
            (final(self).model(), s) == sampler_step(old(self).model(), m),
    {
        match m {
            Some(v) => {
                if v != 0 {
                    self.cursor = 0;
                    self.rate = clamp(v, 0, MAX_RATE as i64) as u64;
                }
            },
            None => {},
        }
        let idx: u64 = self.cursor / UNIT_U;
        let out: i64 = if idx < self.table.len() as u64 {
            self.table[idx as usize]
        } else {
            0
        };
        self.cursor = self.cursor.saturating_add(self.rate);
        out
    }
}

impl EnvPerc {
    /// Advances the envelope by one sample.
    fn step(&mut self, m: Option<i64>) -> (s: i64)
        requires
            old(self).wf(),
        ensures
            final(self).wf(),
            (*final(self), s) == old(self).step_spec(m),
    {
        match m {
            Some(v) => {
                if v != 0 {
                    self.pos = 0;
                }
            },
            None => {},
        }
        let tot: u64 = self.attack + self.decay;
        let out: i64 = if self.pos < self.attack {
            ((UNIT_U * self.pos) / self.attack) as i64
        } else if self.pos < tot {
            ((UNIT_U * (tot - self.pos)) / self.decay) as i64
        } else {
            0
        };
        self.pos = if self.pos + 1 > tot {
            tot
        } else {
            self.pos + 1
        };
        out
    }
}

/// First event at or after position `k` of the list whose tick lies in
/// `[lo, hi)`, mirroring `fire_at` on the remaining events.
fn fire_find(events: &Vec<Event>, k: usize, lo: u64, hi: u64) -> (r: Option<Event>)
    requires
        k <= events@.len(),
    ensures
        r == fire_at(events@.skip(k as int), lo as int, hi as int),
    decreases events@.len() - k,
{
    if k == events.len() {
        None
    } else {
        let e = events[k];
        if lo <= e.tick && e.tick < hi {
            Some(e)
        } else {
            proof {
                assert(events@.skip(k as int).skip(1) =~= events@.skip(k as int + 1));
            }
            fire_find(events, k + 1, lo, hi)
        }
    }
}

impl Looper {
    /// Advances the sequencer clock by one sample.
    fn step(&mut self, m: Option<i64>) -> (s: i64)
        requires
            old(self).model().wf(),
        ensures
            final(self).model().wf(),
            (final(self).model(), s) == looper_step(old(self).model(), m),
    {
        match m {
            Some(v) => {
                if v != 0 {
                    self.rate = clamp(v, 0, self.cycle as i64) as u64;
                }
            },
            None => {},
        }
        let lo: u64 = self.step;
        let hi: u64 = self.step + self.rate;
        proof {
            assert(self.events@.skip(0) =~= self.events@);
        }
        let out: i64 = match fire_find(&self.events, 0, lo, hi) {
            Some(e) => e.ratio,
            None => 0,
        };
        let adv: u64 = self.step + self.rate;
        self.step = if adv >= self.cycle {
            adv - self.cycle
        } else {
            adv
        };
        out
    }
}

/// Square wave sample for the current phase.
fn squ_out_exec(phase: u64, sr: u64) -> (s: i64)
    requires
        1 <= sr <= 1000000,
        phase as int <= cycle_of(sr),
    ensures
        s as int == squ_out(phase as int, cycle_of(sr)),
{
    let cy: u64 = sr * UNIT_U;
    if 2 * phase <= cy {
        UNIT
    } else {
        -UNIT
    }
}

/// Triangle wave sample for the current phase.
fn tri_out_exec(phase: u64, sr: u64) -> (s: i64)
    requires
        1 <= sr <= 1000000,
        phase as int <= cycle_of(sr),
    ensures
        s as int == tri_out(phase as int, cycle_of(sr)),
{
    let cy: u64 = sr * UNIT_U;
    let t: u64 = 2 * phase;
    let a: u64 = if t >= cy {
        t - cy
    } else {
        cy - t
    };
    let q: u64 = 2 * a * UNIT_U / cy;
    (q as i64) - UNIT
}

/// Sine-like wave sample for the current phase.
fn sin_out_exec(phase: u64, sr: u64) -> (s: i64)
    requires
        1 <= sr <= 1000000,
        phase as int <= cycle_of(sr),
    ensures
        s as int == sin_out(phase as int, sr as int),
{
    let q: u64 = phase / sr;
    proof {
        vstd::arithmetic::div_mod::lemma_div_is_ordered(
            phase as int,
            cycle_of(sr),
            sr as int,
        );
        vstd::arithmetic::div_mod::lemma_div_multiples_vanish(UNIT_U as int, sr as int);
        assert(cycle_of(sr) == sr as int * UNIT_U as int);
        assert(q as int <= UNIT_U as int);
    }
    let h: u64 = UNIT_U / 2;
    if q <= h {
        proof {
            assert(0 <= 16 * (q as int) * ((h - q) as int) <= 16000000 * 500000int)
                by (nonlinear_arith)
                requires
                    0 <= q as int <= 1000000,
                    0 <= (h - q) as int <= 500000,
            ;
        }
        let m: u64 = 16 * q * (h - q) / UNIT_U;
        m as i64
    } else {
        proof {
            assert(0 <= 16 * ((q - h) as int) * ((UNIT_U - q) as int) <= 16000000 * 500000int)
                by (nonlinear_arith)
                requires
                    0 <= (q - h) as int <= 500000,
                    0 <= (UNIT_U - q) as int <= 500000,
            ;
        }
        let m: u64 = 16 * (q - h) * (UNIT_U - q) / UNIT_U;
        -(m as i64)
    }
}

/// A graph node's computation unit: the closed catalog.
#[derive(Clone, Debug)]
pub enum Unit {
    Sin(SinOsc),
    Squ(SquOsc),
    Tri(TriOsc),
    Imp(Impulse),
    AddU(Add),
    MulU(Mul),
    SpeedU(Speed),
    Smp(Sampler),
    Env(EnvPerc),
    Seqr(Looper),
}

/// Ghost image of a unit: identical to [`Unit`] except that the sampler
/// table and the event list are sequences.
pub enum UnitModel {
    Sin(OscCore),
    Squ(OscCore),
    Tri(OscCore),
    Imp(Impulse),
    AddU(Add),
    MulU(Mul),
    SpeedU(Speed),
    Smp(SamplerM),
    Env(EnvPerc),
    Seqr(LooperM),
}

/// The internal bounds every unit preserves.
pub open spec fn wf_m(u: UnitModel) -> bool {
    match u {
        UnitModel::Sin(o) => o.wf(),
        UnitModel::Squ(o) => o.wf(),
        UnitModel::Tri(o) => o.wf(),
        UnitModel::Imp(i) => i.wf(),
        UnitModel::AddU(_) => true,
        UnitModel::MulU(_) => true,
        UnitModel::SpeedU(_) => true,
        UnitModel::Smp(s) => s.wf(),
        UnitModel::Env(e) => e.wf(),
        UnitModel::Seqr(l) => l.wf(),
    }
}

/// The input arities a unit supports; any other count makes processing a
/// no-op that writes nothing.
pub open spec fn arity_ok(u: UnitModel, n: int) -> bool {
    match u {
        UnitModel::SpeedU(_) => n == 0,
        _ => n <= 1,
    }
}

/// One sample of one unit: the next state and the output sample, given one
/// input sample per connected input buffer.
pub open spec fn unit_step(u: UnitModel, row: Seq<i64>) -> (UnitModel, i64) {
    let m: Option<i64> = if row.len() == 1 {
        Some(row[0])
    } else {
        None
    };
    match u {
        UnitModel::Sin(o) => (
            UnitModel::Sin(o.step_spec(m)),
            sin_out(o.phase as int, o.sr as int) as i64,
        ),
        UnitModel::Squ(o) => (
            UnitModel::Squ(o.step_spec(m)),
            squ_out(o.phase as int, cycle_of(o.sr)) as i64,
        ),
        UnitModel::Tri(o) => (
            UnitModel::Tri(o.step_spec(m)),
            tri_out(o.phase as int, cycle_of(o.sr)) as i64,
        ),
        UnitModel::Imp(i) => (UnitModel::Imp(i.step_spec(m).0), i.step_spec(m).1),
        UnitModel::AddU(a) => (
            u,
            if row.len() == 1 {
                sat64(row[0] as int + a.v as int) as i64
            } else {
                a.v
            },
        ),
        UnitModel::MulU(f) => (
            u,
            if row.len() == 1 {
                mul_scaled_spec(row[0] as int, f.v as int) as i64
            } else {
                f.v
            },
        ),
        UnitModel::SpeedU(s) => (u, s.speed),
        UnitModel::Smp(s) => (UnitModel::Smp(sampler_step(s, m).0), sampler_step(s, m).1),
        UnitModel::Env(e) => (UnitModel::Env(e.step_spec(m).0), e.step_spec(m).1),
        UnitModel::Seqr(l) => (UnitModel::Seqr(looper_step(l, m).0), looper_step(l, m).1),
    }
}

/// The views of a list of input buffers.
pub open spec fn bufs_view(ins: Seq<Vec<i64>>) -> Seq<Seq<i64>> {
    Seq::new(ins.len(), |j: int| ins[j]@)
}

/// Sample `i` of every input buffer.
pub open spec fn col(bufs: Seq<Seq<i64>>, i: int) -> Seq<i64> {
    Seq::new(bufs.len(), |j: int| bufs[j][i])
}

/// `k` samples of one unit: the state after `k` steps and the `k` output
/// samples.
pub open spec fn unit_run(u: UnitModel, bufs: Seq<Seq<i64>>, k: nat) -> (UnitModel, Seq<i64>)
    decreases k,
{
    if k == 0 {
        (u, Seq::empty())
    } else {
        let prev = unit_run(u, bufs, (k - 1) as nat);
        let st = unit_step(prev.0, col(bufs, k - 1));
        (st.0, prev.1.push(st.1))
    }
}

impl Unit {
    /// The ghost image of this unit.
    pub open spec fn model(self) -> UnitModel {
        match self {
            Unit::Sin(o) => UnitModel::Sin(o.core),
            Unit::Squ(o) => UnitModel::Squ(o.core),
            Unit::Tri(o) => UnitModel::Tri(o.core),
            Unit::Imp(i) => UnitModel::Imp(i),
            Unit::AddU(a) => UnitModel::AddU(a),
            Unit::MulU(f) => UnitModel::MulU(f),
            Unit::SpeedU(s) => UnitModel::SpeedU(s),
            Unit::Smp(s) => UnitModel::Smp(s.model()),
            Unit::Env(e) => UnitModel::Env(e),
            Unit::Seqr(l) => UnitModel::Seqr(l.model()),
        }
    }

    pub open spec fn wf(self) -> bool {
        wf_m(self.model())
    }

    /// One sample: mutates the state and returns the output sample.
    fn step1(&mut self, row: &Vec<i64>) -> (s: i64)
        requires
            old(self).wf(),
            arity_ok(old(self).model(), row@.len() as int),
        ensures
            final(self).wf(),
            (final(self).model(), s) == unit_step(old(self).model(), row@),
            forall|k2: int|
                #[trigger] arity_ok(final(self).model(), k2) <==> arity_ok(old(self).model(), k2),
    {
        let m: Option<i64> = if row.len() == 1 {
            Some(row[0])
        } else {
            None
        };
        match self {
            Unit::Sin(o) => {
                let out = sin_out_exec(o.core.phase, o.core.sr);
                o.core.step(m);
                out
            },
            Unit::Squ(o) => {
                let out = squ_out_exec(o.core.phase, o.core.sr);
                o.core.step(m);
                out
            },
            Unit::Tri(o) => {
                let out = tri_out_exec(o.core.phase, o.core.sr);
                o.core.step(m);
                out
            },
            Unit::Imp(i) => i.step(m),
            Unit::AddU(a) => {
                if row.len() == 1 {
                    sat_add(row[0], a.v)
                } else {
                    a.v
                }
            },
            Unit::MulU(f) => {
                if row.len() == 1 {
                    mul_scaled(row[0], f.v)
                } else {
                    f.v
                }
            },
            Unit::SpeedU(s) => s.speed,
            Unit::Smp(s) => s.step(m),
            Unit::Env(e) => e.step(m),
            Unit::Seqr(l) => l.step(m),
        }
    }

    /// One frame: consumes the connected input buffers and fills the output
    /// buffer, mutating the unit state sample by sample. An unsupported
    /// input count leaves the state and the buffer untouched.
    pub fn process(&mut self, ins: &Vec<Vec<i64>>, out: &mut Vec<i64>)
        requires
            old(self).wf(),
            old(out)@.len() == FRAME,
            forall|j: int| 0 <= j < ins@.len() ==> (#[trigger] ins@[j])@.len() == FRAME,
        ensures
            final(self).wf(),
            final(out)@.len() == FRAME,
            arity_ok(old(self).model(), ins@.len() as int) ==> {
                &&& final(self).model() == unit_run(
                    old(self).model(),
                    bufs_view(ins@),
                    FRAME as nat,
                ).0
                &&& final(out)@ == unit_run(old(self).model(), bufs_view(ins@), FRAME as nat).1
            },
            !arity_ok(old(self).model(), ins@.len() as int) ==> {
                &&& *final(self) == *old(self)
                &&& final(out)@ == old(out)@
            },
    {
        let n = ins.len();
        let ok: bool = match self {
            Unit::SpeedU(_) => n == 0,
            _ => n <= 1,
        };
        if !ok {
            return ;
        }
        let ghost u0 = self.model();
        let ghost iv = bufs_view(ins@);
        let mut i: usize = 0;
        while i < FRAME
            invariant
                i <= FRAME,
                self.wf(),
                ins@.len() == n,
                forall|j: int| 0 <= j < ins@.len() ==> (#[trigger] ins@[j])@.len() == FRAME,
                iv == bufs_view(ins@),
                arity_ok(u0, n as int),
                arity_ok(self.model(), n as int),
                out@.len() == FRAME,
                self.model() == unit_run(u0, iv, i as nat).0,
                out@.subrange(0, i as int) == unit_run(u0, iv, i as nat).1,
            decreases FRAME - i,
        {
            let mut row: Vec<i64> = Vec::new();
            let mut j: usize = 0;
            while j < n
                invariant
                    j <= n,
                    ins@.len() == n,
                    forall|j2: int| 0 <= j2 < ins@.len() ==> (#[trigger] ins@[j2])@.len() == FRAME,
                    i < FRAME,
                    row@.len() == j,
                    forall|j2: int| 0 <= j2 < j ==> row@[j2] == ins@[j2]@[i as int],
                decreases n - j,
            {
                let s = ins[j][i];
                row.push(s);
                j = j + 1;
            }
            proof {
                assert(row@ =~= col(iv, i as int));
                assert(arity_ok(self.model(), row@.len() as int));
            }
            let s = self.step1(&row);
            out.set(i, s);
            proof {
                assert(unit_run(u0, iv, (i + 1) as nat).0 == self.model());
                assert(out@.subrange(0, (i + 1) as int) =~= unit_run(u0, iv, i as nat).1.push(s));
            }
            i = i + 1;
        }
        proof {
            assert(out@.subrange(0, FRAME as int) =~= out@);
        }
    }
}

/// An out-of-band parameter update: a parameter index and a new value.
/// Unrecognized indices are ignored, not rejected.
#[derive(Clone, Copy, PartialEq, Eq, Structural, Debug)]
pub enum Message {
    SetToNumber(u32, i64),
}

/// What a parameter update does to a unit: index 0 drives the unit's main
/// parameter (base frequency, scalar, rate), or retriggers the envelope;
/// every other index leaves the unit unchanged.
pub open spec fn unit_msg(u: UnitModel, idx: u32, v: i64) -> UnitModel {
    if idx != 0 {
        u
    } else {
        match u {
            UnitModel::Sin(o) => UnitModel::Sin(o.set_freq_spec(v as int)),
            UnitModel::Squ(o) => UnitModel::Squ(o.set_freq_spec(v as int)),
            UnitModel::Tri(o) => UnitModel::Tri(o.set_freq_spec(v as int)),
            UnitModel::Imp(i) => UnitModel::Imp(
                Impulse {
                    freq: clamp_spec(v as int, -cycle_of(i.sr), cycle_of(i.sr)) as i64,
                    ..i
                },
            ),
            UnitModel::AddU(_) => UnitModel::AddU(Add { v }),
            UnitModel::MulU(_) => UnitModel::MulU(Mul { v }),
            UnitModel::SpeedU(_) => UnitModel::SpeedU(Speed { speed: v }),
            UnitModel::Smp(s) => UnitModel::Smp(
                SamplerM { rate: clamp_spec(v as int, 0, MAX_RATE as int) as u64, ..s },
            ),
            UnitModel::Env(e) => UnitModel::Env(EnvPerc { pos: 0, ..e }),
            UnitModel::Seqr(l) => UnitModel::Seqr(
                LooperM { rate: clamp_spec(v as int, 0, l.cycle as int) as u64, ..l },
            ),
        }
    }
}

impl Unit {
    /// Applies an out-of-band parameter update.
    pub fn send_msg(&mut self, msg: Message)
        requires
            old(self).wf(),
        ensures
            final(self).wf(),
            final(self).model() == (match msg {
                Message::SetToNumber(idx, v) => unit_msg(old(self).model(), idx, v),
            }),
    {
        let Message::SetToNumber(idx, v) = msg;
        if idx != 0 {
            return ;
        }
        match self {
            Unit::Sin(o) => {
                let cy: i64 = (o.core.sr * UNIT_U) as i64;
                o.core.freq = clamp(v, -cy, cy);
            },
            Unit::Squ(o) => {
                let cy: i64 = (o.core.sr * UNIT_U) as i64;
                o.core.freq = clamp(v, -cy, cy);
            },
            Unit::Tri(o) => {
                let cy: i64 = (o.core.sr * UNIT_U) as i64;
                o.core.freq = clamp(v, -cy, cy);
            },
            Unit::Imp(i) => {
                let cy: i64 = (i.sr * UNIT_U) as i64;
                i.freq = clamp(v, -cy, cy);
            },
            Unit::AddU(a) => {
                a.v = v;
            },
            Unit::MulU(f) => {
                f.v = v;
            },
            Unit::SpeedU(s) => {
                s.speed = v;
            },
            Unit::Smp(s) => {
                s.rate = clamp(v, 0, MAX_RATE as i64) as u64;
            },
            Unit::Env(e) => {
                e.pos = 0;
            },
            Unit::Seqr(l) => {
                l.rate = clamp(v, 0, l.cycle as i64) as u64;
            },
        }
    }
}

/// The oscillator core a unit model carries, where it has one.
pub open spec fn core_of(u: UnitModel) -> OscCore {
    match u {
        UnitModel::Sin(o) => o,
        UnitModel::Squ(o) => o,
        UnitModel::Tri(o) => o,
        _ => OscCore::default_spec(),
    }
}

/// A free-running square unit's phase follows `phase_iter`, and every output
/// sample is +1 exactly when the phase sits in the first half cycle — with
/// `lemma_phase_iter_mod`, the phase after `k` samples is `k*freq/sr mod 1`
/// in ticks, and the outputs are the square formula of it.
pub proof fn lemma_free_run_square(o: OscCore, bufs: Seq<Seq<i64>>, k: nat)
    requires
        o.wf(),
        bufs.len() == 0,
    ensures
        unit_run(UnitModel::Squ(o), bufs, k).0 == UnitModel::Squ(
            OscCore {
                phase: phase_iter(o.phase as int, o.freq as int, cycle_of(o.sr), k) as u64,
                ..o
            },
        ),
        unit_run(UnitModel::Squ(o), bufs, k).1.len() == k,
        forall|i: int|
            0 <= i < k ==> unit_run(UnitModel::Squ(o), bufs, k).1[i] as int == squ_out(
                phase_iter(o.phase as int, o.freq as int, cycle_of(o.sr), i as nat),
                cycle_of(o.sr),
            ),
    decreases k,
{
    lemma_phase_iter_mod(o.phase as int, o.freq as int, cycle_of(o.sr), k);
    if k > 0 {
        lemma_free_run_square(o, bufs, (k - 1) as nat);
        lemma_phase_iter_mod(o.phase as int, o.freq as int, cycle_of(o.sr), (k - 1) as nat);
        assert(col(bufs, k - 1).len() == 0);
    }
}

/// The triangle counterpart of `lemma_free_run_square`.
pub proof fn lemma_free_run_triangle(o: OscCore, bufs: Seq<Seq<i64>>, k: nat)
    requires
        o.wf(),
        bufs.len() == 0,
    ensures
        unit_run(UnitModel::Tri(o), bufs, k).0 == UnitModel::Tri(
            OscCore {
                phase: phase_iter(o.phase as int, o.freq as int, cycle_of(o.sr), k) as u64,
                ..o
            },
        ),
        unit_run(UnitModel::Tri(o), bufs, k).1.len() == k,
        forall|i: int|
            0 <= i < k ==> unit_run(UnitModel::Tri(o), bufs, k).1[i] as int == tri_out(
                phase_iter(o.phase as int, o.freq as int, cycle_of(o.sr), i as nat),
                cycle_of(o.sr),
            ),
    decreases k,
{
    lemma_phase_iter_mod(o.phase as int, o.freq as int, cycle_of(o.sr), k);
    if k > 0 {
        lemma_free_run_triangle(o, bufs, (k - 1) as nat);
        lemma_phase_iter_mod(o.phase as int, o.freq as int, cycle_of(o.sr), (k - 1) as nat);
        assert(col(bufs, k - 1).len() == 0);
    }
}

/// The increment a modulated oscillator holds after consuming a sequence of
/// modulation samples: zeroes hold the old value, non-zeroes replace it.
pub open spec fn held_iter(inc: int, ms: Seq<i64>, cycle: int) -> int
    decreases ms.len(),
{
    if ms.len() == 0 {
        inc
    } else {
        held_inc(held_iter(inc, ms.drop_last(), cycle), ms.last() as int, cycle)
    }
}

/// The sample-and-hold rule, sample by sample: a zero modulation sample
/// leaves the held increment unchanged; a non-zero one replaces it exactly
/// (clipped to one cycle per sample).
pub proof fn lemma_held_iter_step(inc: int, ms: Seq<i64>, cycle: int, i: int)
    requires
        0 <= i < ms.len(),
    ensures
        ms[i] == 0 ==> held_iter(inc, ms.take(i + 1), cycle) == held_iter(inc, ms.take(i), cycle),
        ms[i] != 0 ==> held_iter(inc, ms.take(i + 1), cycle) == clamp_spec(
            ms[i] as int,
            -cycle,
            cycle,
        ),
{
    assert(ms.take(i + 1).drop_last() =~= ms.take(i));
    assert(ms.take(i + 1).last() == ms[i]);
}

/// One modulated sample of any oscillator-family unit moves its held
/// increment by the sample-and-hold rule, uniformly across the family: a
/// zero input sample holds, a non-zero one replaces.
pub proof fn lemma_sample_and_hold_step(u: UnitModel, row: Seq<i64>)
    requires
        row.len() == 1,
        u is Sin || u is Squ || u is Tri,
    ensures
        core_of(unit_step(u, row).0).inc as int == held_inc(
            core_of(u).inc as int,
            row[0] as int,
            cycle_of(core_of(u).sr),
        ),
{
}

/// A one-input square unit holds its effective increment by the
/// sample-and-hold rule: after `k` samples of the modulation buffer, the
/// held increment is exactly `held_iter` of the samples consumed.
pub proof fn lemma_sample_and_hold_square(o: OscCore, bufs: Seq<Seq<i64>>, k: nat)
    requires
        o.wf(),
        bufs.len() == 1,
        k <= bufs[0].len(),
    ensures
        unit_run(UnitModel::Squ(o), bufs, k).0 is Squ,
        core_of(unit_run(UnitModel::Squ(o), bufs, k).0).sr == o.sr,
        core_of(unit_run(UnitModel::Squ(o), bufs, k).0).freq == o.freq,
        core_of(unit_run(UnitModel::Squ(o), bufs, k).0).wf(),
        core_of(unit_run(UnitModel::Squ(o), bufs, k).0).inc as int == held_iter(
            o.inc as int,
            bufs[0].take(k as int),
            cycle_of(o.sr),
        ),
    decreases k,
{
    if k > 0 {
        lemma_sample_and_hold_square(o, bufs, (k - 1) as nat);
        let prev = unit_run(UnitModel::Squ(o), bufs, (k - 1) as nat).0;
        assert(col(bufs, k - 1) =~= seq![bufs[0][k - 1]]);
        assert(bufs[0].take(k as int).drop_last() =~= bufs[0].take(k - 1));
        assert(bufs[0].take(k as int).last() == bufs[0][k - 1]);
    }
}

} // verus!
