//! The patch compiler: parsed lines in, a populated graph store out.
//!
//! Each line instantiates its chain of units as graph nodes, wires the
//! signal edge from the previous node of the chain and the modulation edge
//! from a referenced node, and finally binds the line's reference name to
//! the rightmost node. Reference resolution is strict source-before-use:
//! an unknown name aborts the compile pass, leaving the previous graph
//! untouched.

use vstd::prelude::*;
use crate::fx::{UNIT, UNIT_U, sat64, parse_fixed_spec, parse_fixed, all_digits, digits_val};
use crate::unit::{
    Unit, UnitModel, OscCore, Impulse, Add, Mul, Speed, Sampler, SamplerM, EnvPerc, Event, Looper,
    LooperM, SinOsc, SquOsc, TriOsc, cycle_of, clamp_spec, clamp, MAX_ENV, MAX_CYCLE,
};

verus! {

/// Why a compile pass failed. Every failure leaves the engine's previous
/// graph in place.
#[derive(Clone, Copy, PartialEq, Eq, Structural, Debug)]
pub enum CompileError {
    /// The patch text does not fit the grammar.
    ParseError,
    /// A name was referenced before being bound.
    UnresolvedRef,
    /// A sampler symbol has no entry in the sample table.
    UnknownSample,
    /// A constructor parameter is missing or of the wrong shape, or a loop
    /// holds more slots than the engine accepts.
    BadParam,
    /// The node, edge or name arena is full.
    Capacity,
    /// A chain reference would wire a node into one built before it.
    BadEdge,
}

/// Two raised a (non-negative) power.
pub open spec fn pow2(k: nat) -> int
    decreases k,
{
    if k == 0 {
        1
    } else {
        2 * pow2((k - 1) as nat)
    }
}

pub proof fn lemma_pow2_pos(k: nat)
    ensures
        pow2(k) >= 1,
    decreases k,
{
    if k > 0 {
        lemma_pow2_pos((k - 1) as nat);
    }
}

/// The twelve equal-tempered semitone ratios within one octave, fixed
/// point: `2^(r/12) * UNIT`, rounded.
pub open spec fn semi_ratio_s(r: int) -> int {
    if r == 0 {
        1000000
    } else if r == 1 {
        1059463
    } else if r == 2 {
        1122462
    } else if r == 3 {
        1189207
    } else if r == 4 {
        1259921
    } else if r == 5 {
        1334840
    } else if r == 6 {
        1414214
    } else if r == 7 {
        1498307
    } else if r == 8 {
        1587401
    } else if r == 9 {
        1681793
    } else if r == 10 {
        1781797
    } else if r == 11 {
        1887749
    } else {
        1000000
    }
}

fn semi_ratio(r: u64) -> (v: i64)
    ensures
        v as int == semi_ratio_s(r as int),
        1000000 <= v <= 1887749,
{
    if r == 0 {
        1000000
    } else if r == 1 {
        1059463
    } else if r == 2 {
        1122462
    } else if r == 3 {
        1189207
    } else if r == 4 {
        1259921
    } else if r == 5 {
        1334840
    } else if r == 6 {
        1414214
    } else if r == 7 {
        1498307
    } else if r == 8 {
        1587401
    } else if r == 9 {
        1681793
    } else if r == 10 {
        1781797
    } else if r == 11 {
        1887749
    } else {
        1000000
    }
}

/// The equal-tempered pitch ratio for a semitone offset, fixed point:
/// `2^(semi/12) * UNIT`, from the octave table and a power of two, clipped
/// to the i64 range. Offsets below -60 are not produced by the note grid.
pub open spec fn ratio_of(semi: int) -> int {
    let k = (semi + 60) / 12 - 5;
    let r = (semi + 60) % 12;
    if k >= 0 {
        sat64(semi_ratio_s(r) * pow2(k as nat))
    } else {
        semi_ratio_s(r) / pow2((-k) as nat)
    }
}

pub proof fn lemma_pow2_big(k: nat)
    requires
        k >= 63,
    ensures
        pow2(k) >= 0x8000000000000000,
    decreases k,
{
    if k == 63 {
        reveal_with_fuel(pow2, 64);
    } else {
        lemma_pow2_big((k - 1) as nat);
    }
}

/// The pitch ratio, computed with shifts.
pub fn ratio_exec(semi: i64) -> (v: i64)
    requires
        -60 <= semi <= 1000000,
    ensures
        v as int == ratio_of(semi as int),
{
    let off: i64 = semi + 60;
    let k: i64 = off / 12 - 5;
    let r: u64 = (off % 12) as u64;
    let base: i64 = semi_ratio(r);
    if k >= 63 {
        proof {
            lemma_pow2_big(k as nat);
            assert(semi_ratio_s(r as int) * pow2(k as nat) >= 1000000int * 0x8000000000000000)
                by (nonlinear_arith)
                requires
                    semi_ratio_s(r as int) >= 1000000,
                    pow2(k as nat) >= 0x8000000000000000,
            ;
        }
        i64::MAX
    } else if k >= 0 {
        let p: i64 = 1i64 << (k as u32);
        proof {
            lemma_shift_is_pow2(k as nat);
        }
        match base.checked_mul(p) {
            Some(v) => v,
            None => {
                proof {
                    assert(semi_ratio_s(r as int) * pow2(k as nat) > i64::MAX as int)
                        by (nonlinear_arith)
                        requires
                            semi_ratio_s(r as int) * (p as int) > i64::MAX as int || semi_ratio_s(
                                r as int,
                            ) * (p as int) < i64::MIN as int,
                            p as int == pow2(k as nat),
                            1000000 <= semi_ratio_s(r as int) <= 1887749,
                            p >= 1,
                    ;
                }
                i64::MAX
            },
        }
    } else {
        let d: i64 = 1i64 << ((-k) as u32);
        proof {
            lemma_shift_is_pow2((-k) as nat);
            lemma_pow2_pos((-k) as nat);
        }
        base / d
    }
}

/// Left shift of one is the power of two, for in-range exponents.
pub proof fn lemma_shift_is_pow2(k: nat)
    requires
        k < 63,
    ensures
        (1i64 << (k as u32)) as int == pow2(k),
        1i64 << (k as u32) >= 1,
    decreases k,
{
    if k == 0 {
        assert(1i64 << 0u32 == 1i64) by (bit_vector);
    } else {
        lemma_shift_is_pow2((k - 1) as nat);
        let kk = k as u32;
        assert(forall|x: u32|
            1 <= x < 63 ==> #[trigger] (1i64 << x) == 2 * (1i64 << (x - 1) as u32))
            by (bit_vector);
    }
}

/// Most compounds per loop and notes per compound the engine accepts.
pub const MAX_SEQ: usize = 64;

/// Position of the first underscore at or after `i`.
pub open spec fn und_end(p: Seq<u8>, i: int) -> int
    decreases p.len() - i
        when 0 <= i <= p.len()
{
    if i < 0 || i >= p.len() {
        i
    } else if p[i] != 95 {
        und_end(p, i + 1)
    } else {
        i
    }
}

/// The note tokens of one compound, split on underscores.
pub open spec fn split_notes(p: Seq<u8>, i: int) -> Seq<Seq<u8>>
    decreases p.len() - i
        when 0 <= i
{
    if i > p.len() {
        Seq::empty()
    } else {
        let j = und_end(p, i);
        if j < i || j > p.len() {
            Seq::empty()
        } else if j >= p.len() {
            seq![p.subrange(i, p.len() as int)]
        } else {
            seq![p.subrange(i, j)] + split_notes(p, j + 1)
        }
    }
}

/// A note token's grid number: digits only; anything else is a rest.
pub open spec fn note_val(tok: Seq<u8>) -> Option<int> {
    if tok.len() > 0 && tok.len() <= 6 && all_digits(tok) {
        Some(digits_val(tok))
    } else {
        None
    }
}

/// The event a numeric note denotes: its slot fraction of the cycle and the
/// equal-tempered pitch ratio of its offset from grid note 60.
pub open spec fn event_of(d: int, ci: int, ni: int, nc: int, nn: int, bar: u64) -> Event {
    let tnum = ci * nn + ni;
    let tden = nc * nn;
    Event {
        tick: (tnum * bar as int / tden) as u64,
        tnum: tnum as u64,
        tden: tden as u64,
        ratio: ratio_of(d - 60) as i64,
        semi: (d - 60) as i64,
    }
}

/// The events of the first `ni` notes of compound `ci`: numeric notes fire,
/// rests are skipped but still hold their subdivision slot.
pub open spec fn compound_events(
    notes: Seq<Seq<u8>>,
    ci: int,
    nc: int,
    bar: u64,
    ni: int,
) -> Seq<Event>
    decreases ni,
{
    if ni <= 0 {
        Seq::empty()
    } else {
        let p = compound_events(notes, ci, nc, bar, ni - 1);
        match note_val(notes[ni - 1]) {
            Some(d) => p.push(event_of(d, ci, ni - 1, nc, notes.len() as int, bar)),
            None => p,
        }
    }
}

/// The events of the first `k` compounds of a loop description.
pub open spec fn events_upto(params: Seq<Seq<u8>>, k: int, bar: u64) -> Seq<Event>
    decreases k,
{
    if k <= 0 {
        Seq::empty()
    } else {
        let notes = split_notes(params[k - 1], 0);
        events_upto(params, k - 1, bar) + compound_events(
            notes,
            k - 1,
            params.len() as int,
            bar,
            notes.len() as int,
        )
    }
}

/// Whether every compound of a loop description fits the engine's slot
/// bounds.
pub open spec fn seq_fits(params: Seq<Seq<u8>>) -> bool {
    &&& 0 < params.len() <= MAX_SEQ
    &&& forall|c: int|
        0 <= c < params.len() ==> split_notes(#[trigger] params[c], 0).len() <= MAX_SEQ
}

fn und_end_x(p: &Vec<u8>, i: usize) -> (r: usize)
    requires
        i <= p@.len(),
    ensures
        i <= r <= p@.len(),
        r as int == und_end(p@, i as int),
    decreases p@.len() - i,
{
    if i < p.len() && p[i] != 95 {
        und_end_x(p, i + 1)
    } else {
        i
    }
}

/// Splits one compound into its note tokens.
fn split_notes_x(p: &Vec<u8>, i: usize) -> (r: Vec<Vec<u8>>)
    requires
        i <= p@.len(),
    ensures
        crate::parse::vecs_model(r@) == split_notes(p@, i as int),
    decreases p@.len() - i,
{
    let j = und_end_x(p, i);
    if j >= p.len() {
        let mut out: Vec<Vec<u8>> = Vec::new();
        out.push(crate::parse::copy_range(p, i, p.len()));
        proof {
            assert(crate::parse::vecs_model(out@) =~= seq![p@.subrange(i as int, p@.len() as int)]);
        }
        out
    } else {
        let rest = split_notes_x(p, j + 1);
        let ghost rm = crate::parse::vecs_model(rest@);
        let mut out: Vec<Vec<u8>> = Vec::new();
        out.push(crate::parse::copy_range(p, i, j));
        let mut k: usize = 0;
        let mut rest = rest;
        let ghost h = p@.subrange(i as int, j as int);
        while rest.len() > 0
            invariant
                rm.len() >= rest@.len(),
                crate::parse::vecs_model(rest@) =~= rm.skip(rm.len() - rest@.len()),
                crate::parse::vecs_model(out@) =~= seq![h] + rm.take(rm.len() - rest@.len()),
            decreases rest@.len(),
        {
            let ghost kk = rm.len() - rest@.len();
            let ghost rp = rest@;
            let x = rest.remove(0);
            let ghost r0 = out@;
            proof {
                assert(x == rp[0]);
                assert(x@ == crate::parse::vecs_model(rp)[0]);
                assert(crate::parse::vecs_model(rp) == rm.skip(kk));
                assert(x@ == rm[kk]);
            }
            out.push(x);
            proof {
                assert(rest@ =~= rp.subrange(1, rp.len() as int));
                assert forall|m: int|
                    0 <= m < rest@.len() implies crate::parse::vecs_model(rest@)[m] == rm.skip(
                    kk + 1,
                )[m] by {
                    assert(rest@[m] == rp[m + 1]);
                    assert(crate::parse::vecs_model(rp)[m + 1] == rp[m + 1]@);
                }
                assert(crate::parse::vecs_model(rest@) =~= rm.skip(rm.len() - rest@.len()));
                assert(crate::parse::vecs_model(out@) =~= crate::parse::vecs_model(r0).push(
                    rm[kk],
                ));
                assert(rm.take(kk + 1) =~= rm.take(kk).push(rm[kk]));
                assert(crate::parse::vecs_model(out@) =~= seq![h] + rm.take(kk + 1));
            }
        }
        proof {
            assert(rm.take(rm.len() as int) =~= rm);
            assert(crate::parse::vecs_model(out@) =~= seq![h] + rm);
        }
        out
    }
}

/// Reads a note token, mirroring `note_val`.
fn note_val_x(tok: &Vec<u8>) -> (r: Option<i64>)
    ensures
        match r {
            Some(d) => note_val(tok@) == Some(d as int) && 0 <= d < 1000000,
            None => note_val(tok@) is None,
        },
{
    if tok.len() == 0 || tok.len() > 6 {
        return None;
    }
    let mut i: usize = 0;
    let mut acc: i64 = 0;
    while i < tok.len()
        invariant
            i <= tok@.len() <= 6,
            all_digits(tok@.take(i as int)),
            acc as int == digits_val(tok@.take(i as int)),
            0 <= acc as int,
            (acc as int) < crate::fx::pow10(i as nat),
        decreases tok@.len() - i,
    {
        let b = tok[i];
        if b < 48 || b > 57 {
            proof {
                assert(tok@.take(tok@.len() as int) =~= tok@);
                assert(!all_digits(tok@));
            }
            return None;
        }
        proof {
            assert(tok@.take((i + 1) as int).drop_last() =~= tok@.take(i as int));
            assert(tok@.take((i + 1) as int).last() == tok@[i as int]);
            crate::fx::lemma_pow10_le((i + 1) as nat, 6);
        }
        acc = acc * 10 + (b - 48) as i64;
        i = i + 1;
    }
    proof {
        assert(tok@.take(tok@.len() as int) =~= tok@);
        crate::fx::lemma_pow10_le(tok@.len() as nat, 6);
        reveal_with_fuel(crate::fx::pow10, 7);
    }
    Some(acc)
}

/// Expands a loop description into its timed events: compounds divide the
/// cycle evenly, notes divide their compound's slice evenly, rests keep
/// their slot silent.
fn expand_events(params: &Vec<Vec<u8>>, bar: u64) -> (r: Option<Vec<Event>>)
    requires
        1 <= bar,
    ensures
        match r {
            Some(ev) => {
                &&& seq_fits(crate::parse::vecs_model(params@))
                &&& ev@ == events_upto(
                    crate::parse::vecs_model(params@),
                    params@.len() as int,
                    bar,
                )
                &&& forall|j: int| 0 <= j < ev@.len() ==> (#[trigger] ev@[j]).tick < bar
            },
            None => !seq_fits(crate::parse::vecs_model(params@)),
        },
{
    let ghost pm = crate::parse::vecs_model(params@);
    if params.len() == 0 || params.len() > MAX_SEQ {
        return None;
    }
    let mut ev: Vec<Event> = Vec::new();
    let nc: usize = params.len();
    let mut ci: usize = 0;
    while ci < nc
        invariant
            ci <= nc == params@.len(),
            pm == crate::parse::vecs_model(params@),
            0 < nc <= MAX_SEQ,
            1 <= bar,
            forall|c: int| 0 <= c < ci ==> split_notes(#[trigger] pm[c], 0).len() <= MAX_SEQ,
            ev@ == events_upto(pm, ci as int, bar),
            forall|j: int| 0 <= j < ev@.len() ==> (#[trigger] ev@[j]).tick < bar,
        decreases nc - ci,
    {
        let notes = split_notes_x(&params[ci], 0);
        let ghost nm = crate::parse::vecs_model(notes@);
        proof {
            assert(params@[ci as int]@ == pm[ci as int]);
            assert(nm == split_notes(pm[ci as int], 0));
        }
        if notes.len() > MAX_SEQ {
            return None;
        }
        let nn: usize = notes.len();
        let mut ni: usize = 0;
        while ni < nn
            invariant
                ni <= nn == nm.len(),
                nm == split_notes(pm[ci as int], 0),
                crate::parse::vecs_model(notes@) == nm,
                notes@.len() == nn,
                nn <= MAX_SEQ,
                ci < nc <= MAX_SEQ,
                nc == params@.len(),
                pm == crate::parse::vecs_model(params@),
                1 <= bar,
                ev@ == events_upto(pm, ci as int, bar) + compound_events(
                    nm,
                    ci as int,
                    nc as int,
                    bar,
                    ni as int,
                ),
                forall|j: int| 0 <= j < ev@.len() ==> (#[trigger] ev@[j]).tick < bar,
            decreases nn - ni,
        {
            proof {
                assert(notes@[ni as int]@ == nm[ni as int]);
            }
            match note_val_x(&notes[ni]) {
                Some(d) => {
                    let semi: i64 = d - 60;
                    let ratio: i64 = ratio_exec(semi);
                    proof {
                        assert((ci as int) * (nn as int) + (ni as int) < (nc as int) * (
                        nn as int)) by (nonlinear_arith)
                            requires
                                (ci as int) < (nc as int),
                                (ni as int) < (nn as int),
                                0 <= ci as int,
                                0 <= ni as int,
                                0 < nn as int,
                        ;
                        assert((nc as int) * (nn as int) <= 4096) by (nonlinear_arith)
                            requires
                                0 <= nc as int <= 64,
                                0 <= nn as int <= 64,
                        ;
                        assert(0 <= (ci as int) * (nn as int)) by (nonlinear_arith)
                            requires
                                0 <= ci as int,
                                0 <= nn as int,
                        ;
                    }
                    let tnum: u64 = (ci as u64) * (nn as u64) + (ni as u64);
                    let tden: u64 = (nc as u64) * (nn as u64);
                    proof {
                        assert((tnum as int) * (bar as int) <= 4096 * 0xFFFFFFFFFFFFFFFF)
                            by (nonlinear_arith)
                            requires
                                0 <= tnum as int <= 4096,
                                0 <= bar as int <= 0xFFFFFFFFFFFFFFFF,
                        ;
                    }
                    proof {
                        assert(tnum < tden);
                        assert((tnum as int) * (bar as int) / (tden as int) < bar as int)
                            by (nonlinear_arith)
                            requires
                                (tnum as int) < (tden as int),
                                1 <= bar as int,
                        ;
                        assert(0 <= (tnum as int) * (bar as int)) by (nonlinear_arith)
                            requires
                                0 <= tnum as int,
                                0 <= bar as int,
                        ;
                    }
                    let tick128: u128 = (tnum as u128) * (bar as u128) / (tden as u128);
                    let e = Event { tick: tick128 as u64, tnum, tden, ratio, semi };
                    ev.push(e);
                    proof {
                        assert(e == event_of(
                            d as int,
                            ci as int,
                            ni as int,
                            nc as int,
                            nn as int,
                            bar,
                        ));
                        assert(ev@ =~= events_upto(pm, ci as int, bar) + compound_events(
                            nm,
                            ci as int,
                            nc as int,
                            bar,
                            (ni + 1) as int,
                        ));
                    }
                },
                None => {
                    proof {
                        assert(compound_events(nm, ci as int, nc as int, bar, (ni + 1) as int)
                            == compound_events(nm, ci as int, nc as int, bar, ni as int));
                    }
                },
            }
            ni = ni + 1;
        }
        proof {
            assert(ev@ =~= events_upto(pm, (ci + 1) as int, bar));
        }
        ci = ci + 1;
    }
    Some(ev)
}

/// The unit constructors the language knows.
#[derive(Clone, Copy, PartialEq, Eq, Structural, Debug)]
pub enum OpCode {
    Sin,
    Squ,
    Tri,
    Imp,
    MulOp,
    AddOp,
    SpeedOp,
    SamplerOp,
    EnvOp,
    LoopOp,
    Unknown,
}

/// Which constructor an operation name denotes; unknown names build nothing.
pub open spec fn op_of(s: Seq<u8>) -> OpCode {
    if s.len() == 3 {
        if s[0] == 115 && s[1] == 105 && s[2] == 110 {
            OpCode::Sin
        } else if s[0] == 115 && s[1] == 113 && s[2] == 117 {
            OpCode::Squ
        } else if s[0] == 116 && s[1] == 114 && s[2] == 105 {
            OpCode::Tri
        } else if s[0] == 105 && s[1] == 109 && s[2] == 112 {
            OpCode::Imp
        } else if s[0] == 109 && s[1] == 117 && s[2] == 108 {
            OpCode::MulOp
        } else if s[0] == 97 && s[1] == 100 && s[2] == 100 {
            OpCode::AddOp
        } else {
            OpCode::Unknown
        }
    } else if s.len() == 4 {
        if s[0] == 108 && s[1] == 111 && s[2] == 111 && s[3] == 112 {
            OpCode::LoopOp
        } else {
            OpCode::Unknown
        }
    } else if s.len() == 5 {
        if s[0] == 115 && s[1] == 112 && s[2] == 101 && s[3] == 101 && s[4] == 100 {
            OpCode::SpeedOp
        } else {
            OpCode::Unknown
        }
    } else if s.len() == 7 {
        if s[0] == 115 && s[1] == 97 && s[2] == 109 && s[3] == 112 && s[4] == 108 && s[5] == 101
            && s[6] == 114 {
            OpCode::SamplerOp
        } else {
            OpCode::Unknown
        }
    } else if s.len() == 8 {
        if s[0] == 101 && s[1] == 110 && s[2] == 118 && s[3] == 95 && s[4] == 112 && s[5] == 101
            && s[6] == 114 && s[7] == 99 {
            OpCode::EnvOp
        } else {
            OpCode::Unknown
        }
    } else {
        OpCode::Unknown
    }
}

fn op_code(op: &Vec<u8>) -> (c: OpCode)
    ensures
        c == op_of(op@),
{
    let n = op.len();
    if n == 3 {
        if op[0] == 115 && op[1] == 105 && op[2] == 110 {
            OpCode::Sin
        } else if op[0] == 115 && op[1] == 113 && op[2] == 117 {
            OpCode::Squ
        } else if op[0] == 116 && op[1] == 114 && op[2] == 105 {
            OpCode::Tri
        } else if op[0] == 105 && op[1] == 109 && op[2] == 112 {
            OpCode::Imp
        } else if op[0] == 109 && op[1] == 117 && op[2] == 108 {
            OpCode::MulOp
        } else if op[0] == 97 && op[1] == 100 && op[2] == 100 {
            OpCode::AddOp
        } else {
            OpCode::Unknown
        }
    } else if n == 4 {
        if op[0] == 108 && op[1] == 111 && op[2] == 111 && op[3] == 112 {
            OpCode::LoopOp
        } else {
            OpCode::Unknown
        }
    } else if n == 5 {
        if op[0] == 115 && op[1] == 112 && op[2] == 101 && op[3] == 101 && op[4] == 100 {
            OpCode::SpeedOp
        } else {
            OpCode::Unknown
        }
    } else if n == 7 {
        if op[0] == 115 && op[1] == 97 && op[2] == 109 && op[3] == 112 && op[4] == 108 && op[5]
            == 101 && op[6] == 114 {
            OpCode::SamplerOp
        } else {
            OpCode::Unknown
        }
    } else if n == 8 {
        if op[0] == 101 && op[1] == 110 && op[2] == 118 && op[3] == 95 && op[4] == 112 && op[5]
            == 101 && op[6] == 114 && op[7] == 99 {
            OpCode::EnvOp
        } else {
            OpCode::Unknown
        }
    } else {
        OpCode::Unknown
    }
}

/// A constructor parameter resolved: a numeric literal or a bound node.
#[derive(Clone, Copy, PartialEq, Eq, Structural, Debug)]
pub enum ParamVal {
    Num(i64),
    Ref(u32),
}

/// How a parameter resolves: a number if it reads as one, else a name
/// looked up in the table, else a fatal unresolved reference.
pub open spec fn param_val_s(p: Seq<u8>, names: Seq<(Seq<u8>, int)>) -> Result<
    ParamVal,
    CompileError,
> {
    match parse_fixed_spec(p) {
        Some(v) => Ok(ParamVal::Num(v as i64)),
        None => match crate::graph::lookup_spec(names, p) {
            Some(i) => Ok(ParamVal::Ref(i as u32)),
            None => Err(CompileError::UnresolvedRef),
        },
    }
}

/// An oscillator core built by a constructor: base frequency from the
/// literal (clipped), phase zero, held increment zero.
pub open spec fn osc_of(v: int, sr: u64) -> OscCore {
    OscCore {
        freq: clamp_spec(v, -cycle_of(sr), cycle_of(sr)) as i64,
        phase: 0,
        sr,
        inc: 0,
    }
}

/// Envelope stage length in samples for a fixed-point duration in seconds,
/// clipped to the accepted bound.
pub open spec fn env_len_s(v: int, sr: u64) -> int {
    clamp_spec(clamp_spec(v, 0, MAX_ENV as int) * sr as int / UNIT as int, 0, MAX_ENV as int)
}

/// The sampler symbol with its leading backslash removed.
pub open spec fn samp_key(p: Seq<u8>) -> Seq<u8> {
    if p.len() > 0 && p[0] == 92 {
        p.skip(1)
    } else {
        p
    }
}

/// First table bound to a symbol in the sample dictionary.
pub open spec fn find_samp(dict: Seq<(Seq<u8>, Seq<i64>)>, key: Seq<u8>) -> Option<Seq<i64>>
    decreases dict.len(),
{
    if dict.len() == 0 {
        None
    } else if dict[0].0 == key {
        Some(dict[0].1)
    } else {
        find_samp(dict.skip(1), key)
    }
}

/// The unit a constructor call builds, with the modulation source node when
/// its parameter named one: the unit catalog's construction rules. Unknown
/// constructor names build nothing and are skipped.
pub open spec fn unit_of_call(
    op: Seq<u8>,
    params: Seq<Seq<u8>>,
    names: Seq<(Seq<u8>, int)>,
    dict: Seq<(Seq<u8>, Seq<i64>)>,
    sr: u64,
    bar: u64,
) -> Result<Option<(UnitModel, Option<int>)>, CompileError> {
    let oc = op_of(op);
    if oc is Unknown {
        Ok(None)
    } else if params.len() < 1 {
        Err(CompileError::BadParam)
    } else {
        match oc {
            OpCode::Sin => match param_val_s(params[0], names) {
                Err(e) => Err(e),
                Ok(ParamVal::Num(v)) => Ok(Some((UnitModel::Sin(osc_of(v as int, sr)), None))),
                Ok(ParamVal::Ref(i)) => Ok(Some((UnitModel::Sin(osc_of(0, sr)), Some(i as int)))),
            },
            OpCode::Squ => match param_val_s(params[0], names) {
                Err(e) => Err(e),
                Ok(ParamVal::Num(v)) => Ok(Some((UnitModel::Squ(osc_of(v as int, sr)), None))),
                Ok(ParamVal::Ref(i)) => Ok(Some((UnitModel::Squ(osc_of(0, sr)), Some(i as int)))),
            },
            OpCode::Tri => match param_val_s(params[0], names) {
                Err(e) => Err(e),
                Ok(ParamVal::Num(v)) => Ok(Some((UnitModel::Tri(osc_of(v as int, sr)), None))),
                Ok(ParamVal::Ref(i)) => Ok(Some((UnitModel::Tri(osc_of(0, sr)), Some(i as int)))),
            },
            OpCode::Imp => match param_val_s(params[0], names) {
                Err(e) => Err(e),
                Ok(ParamVal::Num(v)) => Ok(
                    Some(
                        (
                            UnitModel::Imp(
                                Impulse { freq: osc_of(v as int, sr).freq, counter: 0, sr, inc: 0 },
                            ),
                            None,
                        ),
                    ),
                ),
                Ok(ParamVal::Ref(i)) => Ok(
                    Some(
                        (
                            UnitModel::Imp(Impulse { freq: 0, counter: 0, sr, inc: 0 }),
                            Some(i as int),
                        ),
                    ),
                ),
            },
            OpCode::MulOp => match param_val_s(params[0], names) {
                Err(e) => Err(e),
                Ok(ParamVal::Num(v)) => Ok(Some((UnitModel::MulU(Mul { v }), None))),
                Ok(ParamVal::Ref(i)) => Ok(Some((UnitModel::MulU(Mul { v: 0 }), Some(i as int)))),
            },
            OpCode::AddOp => match param_val_s(params[0], names) {
                Err(e) => Err(e),
                Ok(ParamVal::Num(v)) => Ok(Some((UnitModel::AddU(Add { v }), None))),
                Ok(ParamVal::Ref(i)) => Ok(Some((UnitModel::AddU(Add { v: 0 }), Some(i as int)))),
            },
            OpCode::SpeedOp => match param_val_s(params[0], names) {
                Err(e) => Err(e),
                Ok(ParamVal::Num(v)) => Ok(Some((UnitModel::SpeedU(Speed { speed: v }), None))),
                Ok(ParamVal::Ref(_)) => Err(CompileError::BadParam),
            },
            OpCode::EnvOp => if params.len() < 2 {
                Err(CompileError::BadParam)
            } else {
                match (parse_fixed_spec(params[0]), parse_fixed_spec(params[1])) {
                    (Some(a), Some(d)) => Ok(
                        Some(
                            (
                                UnitModel::Env(
                                    EnvPerc {
                                        attack: env_len_s(a, sr) as u64,
                                        decay: env_len_s(d, sr) as u64,
                                        pos: (env_len_s(a, sr) + env_len_s(d, sr)) as u64,
                                    },
                                ),
                                None,
                            ),
                        ),
                    ),
                    _ => Err(CompileError::BadParam),
                }
            },
            OpCode::SamplerOp => match find_samp(dict, samp_key(params[0])) {
                Some(t) => Ok(
                    Some(
                        (
                            UnitModel::Smp(SamplerM { table: t, cursor: 0, rate: UNIT_U }),
                            None,
                        ),
                    ),
                ),
                None => Err(CompileError::UnknownSample),
            },
            OpCode::LoopOp => if !seq_fits(params) {
                Err(CompileError::BadParam)
            } else {
                Ok(
                    Some(
                        (
                            UnitModel::Seqr(
                                LooperM {
                                    events: events_upto(params, params.len() as int, bar),
                                    cycle: bar,
                                    step: 0,
                                    rate: UNIT_U,
                                },
                            ),
                            None,
                        ),
                    ),
                )
            },
            _ => Ok(None),
        }
    }
}

use crate::graph::{GraphStore, GraphModel, lookup_spec, bind_spec, find_name, MAX_NODES, MAX_EDGES};
use crate::parse::{PElem, PLine, ElemM, LineM, CallM, elems_model, lines_model, vecs_model};

/// The ghost image of the sample dictionary.
pub open spec fn dict_model(d: Seq<(Vec<u8>, Vec<i64>)>) -> Seq<(Seq<u8>, Seq<i64>)> {
    Seq::new(d.len(), |i: int| (d[i].0@, d[i].1@))
}

/// The graph after the first `k` elements of one line's chain, with the
/// chain head: constructors append a node and the signal and modulation
/// edges; references wire an existing node into the head, or become the
/// head of a chain that has none yet.
pub open spec fn build_elems(
    g: GraphModel,
    head: Option<int>,
    elems: Seq<ElemM>,
    k: int,
    dict: Seq<(Seq<u8>, Seq<i64>)>,
    sr: u64,
    bar: u64,
) -> Result<(GraphModel, Option<int>), CompileError>
    decreases k,
{
    if k <= 0 {
        Ok((g, head))
    } else {
        match build_elems(g, head, elems, k - 1, dict, sr, bar) {
            Err(e) => Err(e),
            Ok((gp, hp)) => match elems[k - 1] {
                ElemM::ChainRef(nm) => match lookup_spec(gp.names, nm) {
                    None => Err(CompileError::UnresolvedRef),
                    Some(r) => match hp {
                        None => Ok((gp, Some(r))),
                        Some(h) => if r >= h {
                            Err(CompileError::BadEdge)
                        } else if gp.edges.len() >= MAX_EDGES {
                            Err(CompileError::Capacity)
                        } else {
                            Ok((GraphModel { edges: gp.edges.push((r, h)), ..gp }, Some(h)))
                        },
                    },
                },
                ElemM::Call(c) => match unit_of_call(c.op, c.params, gp.names, dict, sr, bar) {
                    Err(e) => Err(e),
                    Ok(None) => Ok((gp, hp)),
                    Ok(Some((u, msrc))) => if gp.units.len() >= MAX_NODES {
                        Err(CompileError::Capacity)
                    } else {
                        let idx = gp.units.len() as int;
                        let g1 = GraphModel {
                            units: gp.units.push(u),
                            bufs: gp.bufs.push(crate::graph::zbuf()),
                            ..gp
                        };
                        let e1: Seq<(int, int)> = match hp {
                            Some(h) => g1.edges.push((h, idx)),
                            None => g1.edges,
                        };
                        let e2: Seq<(int, int)> = match msrc {
                            Some(m) => e1.push((m, idx)),
                            None => e1,
                        };
                        if e2.len() > MAX_EDGES {
                            Err(CompileError::Capacity)
                        } else {
                            Ok((GraphModel { edges: e2, ..g1 }, Some(idx)))
                        }
                    },
                },
            },
        }
    }
}

/// The sentinel name an anonymous line binds: the sink marker itself.
pub open spec fn sink_default() -> Seq<u8> {
    seq![126u8]
}

/// The graph after the first `k` lines: each line builds its chain and then
/// binds its reference name (or the sentinel) to the chain head.
pub open spec fn build_lines(
    lines: Seq<LineM>,
    k: int,
    dict: Seq<(Seq<u8>, Seq<i64>)>,
    sr: u64,
    bar: u64,
) -> Result<GraphModel, CompileError>
    decreases k,
{
    if k <= 0 {
        Ok(GraphModel::empty())
    } else {
        match build_lines(lines, k - 1, dict, sr, bar) {
            Err(e) => Err(e),
            Ok(g) => {
                let l = lines[k - 1];
                match build_elems(g, None, l.elems, l.elems.len() as int, dict, sr, bar) {
                    Err(e) => Err(e),
                    Ok((g2, head)) => match head {
                        None => Ok(g2),
                        Some(h) => {
                            let nm = if l.name.len() == 0 {
                                sink_default()
                            } else {
                                l.name
                            };
                            if find_name(g2.names, nm) is None && g2.names.len() >= MAX_NODES {
                                Err(CompileError::Capacity)
                            } else {
                                Ok(GraphModel { names: bind_spec(g2.names, nm, h), ..g2 })
                            }
                        },
                    },
                }
            },
        }
    }
}

/// What one compile pass of the patch text denotes: the full graph, or the
/// first error.
pub open spec fn compile_spec(
    code: Seq<u8>,
    dict: Seq<(Seq<u8>, Seq<i64>)>,
    sr: u64,
    bar: u64,
) -> Result<GraphModel, CompileError> {
    match crate::parse::parse_text_spec(code) {
        None => Err(CompileError::ParseError),
        Some(lines) => build_lines(lines, lines.len() as int, dict, sr, bar),
    }
}

/// An element error stays the result of every longer prefix.
pub proof fn lemma_build_elems_err(
    g: GraphModel,
    head: Option<int>,
    elems: Seq<ElemM>,
    k: int,
    k2: int,
    dict: Seq<(Seq<u8>, Seq<i64>)>,
    sr: u64,
    bar: u64,
)
    requires
        0 <= k <= k2,
        build_elems(g, head, elems, k, dict, sr, bar) is Err,
    ensures
        build_elems(g, head, elems, k2, dict, sr, bar) == build_elems(
            g,
            head,
            elems,
            k,
            dict,
            sr,
            bar,
        ),
    decreases k2 - k,
{
    if k2 > k {
        lemma_build_elems_err(g, head, elems, k, k2 - 1, dict, sr, bar);
    }
}

/// A line error stays the result of every longer prefix.
pub proof fn lemma_build_lines_err(
    lines: Seq<LineM>,
    k: int,
    k2: int,
    dict: Seq<(Seq<u8>, Seq<i64>)>,
    sr: u64,
    bar: u64,
)
    requires
        0 <= k <= k2,
        build_lines(lines, k, dict, sr, bar) is Err,
    ensures
        build_lines(lines, k2, dict, sr, bar) == build_lines(lines, k, dict, sr, bar),
    decreases k2 - k,
{
    if k2 > k {
        lemma_build_lines_err(lines, k, k2 - 1, dict, sr, bar);
    }
}

/// `find_samp` is pinned by "no earlier match, and `k` matches".
proof fn lemma_find_samp_at(d: Seq<(Seq<u8>, Seq<i64>)>, key: Seq<u8>, k: int)
    requires
        0 <= k < d.len(),
        d[k].0 == key,
        forall|j: int| 0 <= j < k ==> (#[trigger] d[j]).0 != key,
    ensures
        find_samp(d, key) == Some(d[k].1),
    decreases k,
{
    if k > 0 {
        assert forall|j: int| 0 <= j < k - 1 implies (#[trigger] d.skip(1)[j]).0 != key by {
            assert(d.skip(1)[j] == d[j + 1]);
        }
        assert(d.skip(1)[k - 1] == d[k]);
        lemma_find_samp_at(d.skip(1), key, k - 1);
    }
}

/// `find_samp` finds nothing when no entry matches.
proof fn lemma_find_samp_none(d: Seq<(Seq<u8>, Seq<i64>)>, key: Seq<u8>)
    requires
        forall|j: int| 0 <= j < d.len() ==> (#[trigger] d[j]).0 != key,
    ensures
        find_samp(d, key) is None,
    decreases d.len(),
{
    if d.len() > 0 {
        assert forall|j: int| 0 <= j < d.skip(1).len() implies (#[trigger] d.skip(1)[j]).0
            != key by {
            assert(d.skip(1)[j] == d[j + 1]);
        }
        lemma_find_samp_none(d.skip(1), key);
    }
}

/// Looks a sampler symbol up in the dictionary.
fn find_samp_x(dict: &Vec<(Vec<u8>, Vec<i64>)>, key: &Vec<u8>) -> (r: Option<Vec<i64>>)
    ensures
        match r {
            Some(t) => find_samp(dict_model(dict@), key@) == Some(t@),
            None => find_samp(dict_model(dict@), key@) is None,
        },
{
    let mut k: usize = 0;
    while k < dict.len()
        invariant
            k <= dict@.len(),
            forall|j: int| 0 <= j < k ==> (#[trigger] dict_model(dict@)[j]).0 != key@,
        decreases dict@.len() - k,
    {
        if crate::graph::bytes_eq(&dict[k].0, key) {
            proof {
                assert(dict_model(dict@)[k as int] == (dict@[k as int].0@, dict@[k as int].1@));
                lemma_find_samp_at(dict_model(dict@), key@, k as int);
            }
            return Some(crate::graph::copy_buf(&dict[k].1));
        }
        proof {
            assert(dict_model(dict@)[k as int] == (dict@[k as int].0@, dict@[k as int].1@));
        }
        k = k + 1;
    }
    proof {
        lemma_find_samp_none(dict_model(dict@), key@);
    }
    None
}

/// Resolves one constructor parameter.
fn param_val_x(p: &Vec<u8>, g: &GraphStore) -> (r: Result<ParamVal, CompileError>)
    requires
        g.wf(),
    ensures
        match r {
            Ok(pv) => param_val_s(p@, g.model().names) == Ok::<ParamVal, CompileError>(pv) && (match pv {
                ParamVal::Ref(i) => (i as int) < g.model().units.len(),
                ParamVal::Num(_) => true,
            }),
            Err(e) => param_val_s(p@, g.model().names) == Err::<ParamVal, CompileError>(e),
        },
{
    match parse_fixed(p) {
        Some(v) => Ok(ParamVal::Num(v)),
        None => match g.lookup(p) {
            Some(i) => Ok(ParamVal::Ref(i)),
            None => Err(CompileError::UnresolvedRef),
        },
    }
}

/// Envelope stage length in samples.
fn env_len_x(v: i64, sr: u64) -> (r: u64)
    requires
        1 <= sr <= 1000000,
    ensures
        r as int == env_len_s(v as int, sr),
        r <= MAX_ENV,
{
    let c = clamp(v, 0, MAX_ENV as i64);
    proof {
        assert((c as int) * (sr as int) <= 1000000000int * 1000000int) by (nonlinear_arith)
            requires
                0 <= c as int <= 1000000000,
                0 <= sr as int <= 1000000,
        ;
        assert(0 <= (c as int) * (sr as int)) by (nonlinear_arith)
            requires
                0 <= c as int,
                0 <= sr as int,
        ;
    }
    let s: u64 = (c as u64) * sr / UNIT_U;
    if s > MAX_ENV {
        MAX_ENV
    } else {
        s
    }
}

/// Builds the unit a constructor call asks for, resolving its parameter as
/// a literal or a modulation source.
pub(crate) fn unit_of_call_x(
    op: &Vec<u8>,
    params: &Vec<Vec<u8>>,
    g: &GraphStore,
    dict: &Vec<(Vec<u8>, Vec<i64>)>,
    sr: u64,
    bar: u64,
) -> (r: Result<Option<(Unit, Option<u32>)>, CompileError>)
    requires
        g.wf(),
        1 <= sr <= 1000000,
        UNIT_U <= bar <= MAX_CYCLE,
    ensures
        ({
            let sp = unit_of_call(
                op@,
                vecs_model(params@),
                g.model().names,
                dict_model(dict@),
                sr,
                bar,
            );
            match r {
                Ok(Some((u, ms))) => {
                    &&& sp == Ok::<Option<(UnitModel, Option<int>)>, CompileError>(
                        Some(
                            (
                                u.model(),
                                match ms {
                                    Some(m) => Some(m as int),
                                    None => None::<int>,
                                },
                            ),
                        ),
                    )
                    &&& u.wf()
                    &&& match ms {
                        Some(m) => (m as int) < g.model().units.len(),
                        None => true,
                    }
                },
                Ok(None) => sp == Ok::<Option<(UnitModel, Option<int>)>, CompileError>(None),
                Err(e) => sp == Err::<Option<(UnitModel, Option<int>)>, CompileError>(e),
            }
        }),
{
    let oc = op_code(op);
    if matches!(oc, OpCode::Unknown) {
        return Ok(None);
    }
    if params.len() < 1 {
        return Err(CompileError::BadParam);
    }
    proof {
        assert(vecs_model(params@)[0] == params@[0]@);
    }
    let cy: i64 = (sr * UNIT_U) as i64;
    match oc {
        OpCode::Sin => match param_val_x(&params[0], g) {
            Ok(ParamVal::Num(v)) => Ok(
                Some(
                    (
                        Unit::Sin(
                            SinOsc { core: OscCore { freq: clamp(v, -cy, cy), phase: 0, sr, inc: 0 } },
                        ),
                        None,
                    ),
                ),
            ),
            Ok(ParamVal::Ref(i)) => Ok(
                Some(
                    (
                        Unit::Sin(SinOsc { core: OscCore { freq: 0, phase: 0, sr, inc: 0 } }),
                        Some(i),
                    ),
                ),
            ),
            Err(e) => Err(e),
        },
        OpCode::Squ => match param_val_x(&params[0], g) {
            Ok(ParamVal::Num(v)) => Ok(
                Some(
                    (
                        Unit::Squ(
                            SquOsc { core: OscCore { freq: clamp(v, -cy, cy), phase: 0, sr, inc: 0 } },
                        ),
                        None,
                    ),
                ),
            ),
            Ok(ParamVal::Ref(i)) => Ok(
                Some(
                    (
                        Unit::Squ(SquOsc { core: OscCore { freq: 0, phase: 0, sr, inc: 0 } }),
                        Some(i),
                    ),
                ),
            ),
            Err(e) => Err(e),
        },
        OpCode::Tri => match param_val_x(&params[0], g) {
            Ok(ParamVal::Num(v)) => Ok(
                Some(
                    (
                        Unit::Tri(
                            TriOsc { core: OscCore { freq: clamp(v, -cy, cy), phase: 0, sr, inc: 0 } },
                        ),
                        None,
                    ),
                ),
            ),
            Ok(ParamVal::Ref(i)) => Ok(
                Some(
                    (
                        Unit::Tri(TriOsc { core: OscCore { freq: 0, phase: 0, sr, inc: 0 } }),
                        Some(i),
                    ),
                ),
            ),
            Err(e) => Err(e),
        },
        OpCode::Imp => match param_val_x(&params[0], g) {
            Ok(ParamVal::Num(v)) => Ok(
                Some(
                    (
                        Unit::Imp(Impulse { freq: clamp(v, -cy, cy), counter: 0, sr, inc: 0 }),
                        None,
                    ),
                ),
            ),
            Ok(ParamVal::Ref(i)) => Ok(
                Some((Unit::Imp(Impulse { freq: 0, counter: 0, sr, inc: 0 }), Some(i))),
            ),
            Err(e) => Err(e),
        },
        OpCode::MulOp => match param_val_x(&params[0], g) {
            Ok(ParamVal::Num(v)) => Ok(Some((Unit::MulU(Mul { v }), None))),
            Ok(ParamVal::Ref(i)) => Ok(Some((Unit::MulU(Mul { v: 0 }), Some(i)))),
            Err(e) => Err(e),
        },
        OpCode::AddOp => match param_val_x(&params[0], g) {
            Ok(ParamVal::Num(v)) => Ok(Some((Unit::AddU(Add { v }), None))),
            Ok(ParamVal::Ref(i)) => Ok(Some((Unit::AddU(Add { v: 0 }), Some(i)))),
            Err(e) => Err(e),
        },
        OpCode::SpeedOp => match param_val_x(&params[0], g) {
            Ok(ParamVal::Num(v)) => Ok(Some((Unit::SpeedU(Speed { speed: v }), None))),
            Ok(ParamVal::Ref(_)) => Err(CompileError::BadParam),
            Err(e) => Err(e),
        },
        OpCode::EnvOp => {
            if params.len() < 2 {
                return Err(CompileError::BadParam);
            }
            proof {
                assert(vecs_model(params@)[1] == params@[1]@);
            }
            let a = parse_fixed(&params[0]);
            let d = parse_fixed(&params[1]);
            match (a, d) {
                (Some(av), Some(dv)) => {
                    let att = env_len_x(av, sr);
                    let dec = env_len_x(dv, sr);
                    Ok(
                        Some(
                            (
                                Unit::Env(EnvPerc { attack: att, decay: dec, pos: att + dec }),
                                None,
                            ),
                        ),
                    )
                },
                _ => Err(CompileError::BadParam),
            }
        },
        OpCode::SamplerOp => {
            let key: Vec<u8> = if params[0].len() > 0 && params[0][0] == 92 {
                crate::parse::copy_range(&params[0], 1, params[0].len())
            } else {
                crate::parse::copy_range(&params[0], 0, params[0].len())
            };
            proof {
                assert(key@ == samp_key(params@[0]@));
            }
            match find_samp_x(dict, &key) {
                Some(t) => Ok(
                    Some(
                        (Unit::Smp(Sampler { table: t, cursor: 0, rate: UNIT_U }), None),
                    ),
                ),
                None => Err(CompileError::UnknownSample),
            }
        },
        OpCode::LoopOp => match expand_events(params, bar) {
            Some(ev) => Ok(
                Some(
                    (
                        Unit::Seqr(Looper { events: ev, cycle: bar, step: 0, rate: UNIT_U }),
                        None,
                    ),
                ),
            ),
            None => Err(CompileError::BadParam),
        },
        OpCode::Unknown => Ok(None),
    }
}

} // verus!
