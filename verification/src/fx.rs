//! Fixed-point sample values and the arithmetic the engine uses on them.
//!
//! A sample or parameter value `v: i64` stands for the real number
//! `v / UNIT`. All engine arithmetic saturates at the i64 range instead of
//! wrapping, and every operation has an exact integer specification.

use vstd::prelude::*;

verus! {

/// Fixed-point scale: the integer `UNIT` stands for the real value 1.0.
pub const UNIT: i64 = 1000000;

/// Unsigned copy of `UNIT`, for cursor and phase-tick arithmetic.
pub const UNIT_U: u64 = 1000000;

/// ASCII byte values the parser tests against.
pub const B_DOT: u8 = 46;

pub const B_MINUS: u8 = 45;

pub const B_ZERO: u8 = 48;

pub const B_NINE: u8 = 57;

/// Clips an unbounded integer to the i64 range.
pub open spec fn sat64(v: int) -> int {
    if v < i64::MIN as int {
        i64::MIN as int
    } else if v > i64::MAX as int {
        i64::MAX as int
    } else {
        v
    }
}

/// Magnitude of an integer.
pub open spec fn abs_int(v: int) -> int {
    if v < 0 {
        -v
    } else {
        v
    }
}

/// Saturating addition of two sample values.
pub fn sat_add(a: i64, b: i64) -> (r: i64)
    ensures
        r as int == sat64(a as int + b as int),
{
    match a.checked_add(b) {
        Some(v) => v,
        None => if a < 0 {
            i64::MIN
        } else {
            i64::MAX
        },
    }
}

/// Truncated fixed-point product `a * b / UNIT`, saturated to the i64 range.
/// The quotient is the magnitude quotient with the sign reapplied, as Rust's
/// own truncating division would give.
pub open spec fn mul_scaled_spec(a: int, b: int) -> int {
    let m = (abs_int(a) * abs_int(b)) / (UNIT as int);
    if (a < 0) != (b < 0) {
        sat64(-m)
    } else {
        sat64(m)
    }
}

/// Magnitude of a sample value, computed through i128 so that `i64::MIN`
/// needs no special case.
fn abs_u128(a: i64) -> (r: u128)
    ensures
        r as int == abs_int(a as int),
{
    let w: i128 = a as i128;
    if w < 0 {
        (-w) as u128
    } else {
        w as u128
    }
}

/// Fixed-point multiplication of two sample values.
pub fn mul_scaled(a: i64, b: i64) -> (r: i64)
    ensures
        r as int == mul_scaled_spec(a as int, b as int),
{
    let neg: bool = (a < 0) != (b < 0);
    let ua: u128 = abs_u128(a);
    let ub: u128 = abs_u128(b);
    proof {
        assert(ua * ub <= 9223372036854775808u128 * 9223372036854775808u128) by (nonlinear_arith)
            requires
                ua <= 9223372036854775808u128,
                ub <= 9223372036854775808u128,
        ;
    }
    let m: u128 = ua * ub / (UNIT as u128);
    if neg {
        if m >= 9223372036854775808u128 {
            i64::MIN
        } else {
            -(m as i64)
        }
    } else {
        if m > i64::MAX as u128 {
            i64::MAX
        } else {
            m as i64
        }
    }
}

/// Ten to the `k`-th power.
pub open spec fn pow10(k: nat) -> int
    decreases k,
{
    if k == 0 {
        1
    } else {
        10 * pow10((k - 1) as nat)
    }
}

/// Whether `b` is an ASCII decimal digit.
pub open spec fn is_digit(b: u8) -> bool {
    B_ZERO <= b && b <= B_NINE
}

/// Whether every byte of `s` is a decimal digit.
pub open spec fn all_digits(s: Seq<u8>) -> bool {
    forall|i: int| 0 <= i < s.len() ==> is_digit(s[i])
}

/// The integer a digit string denotes, most significant digit first.
pub open spec fn digits_val(s: Seq<u8>) -> int
    decreases s.len(),
{
    if s.len() == 0 {
        0
    } else {
        digits_val(s.drop_last()) * 10 + (s.last() - B_ZERO)
    }
}

/// Index of the first `B_DOT` in `s`, or `s.len()` if there is none.
pub open spec fn dot_pos(s: Seq<u8>) -> int
    decreases s.len(),
{
    if s.len() == 0 {
        0
    } else if s[0] == B_DOT {
        0
    } else {
        1 + dot_pos(s.skip(1))
    }
}

pub proof fn lemma_dot_pos(s: Seq<u8>)
    ensures
        0 <= dot_pos(s) <= s.len(),
        forall|i: int| 0 <= i < dot_pos(s) ==> s[i] != B_DOT,
        dot_pos(s) < s.len() ==> s[dot_pos(s)] == B_DOT,
    decreases s.len(),
{
    if s.len() > 0 && s[0] != B_DOT {
        lemma_dot_pos(s.skip(1));
        assert forall|i: int| 0 <= i < dot_pos(s) implies s[i] != B_DOT by {
            if i > 0 {
                assert(s.skip(1)[i - 1] == s[i]);
            }
        }
        if dot_pos(s) < s.len() {
            assert(s.skip(1)[dot_pos(s) - 1] == s[dot_pos(s)]);
        }
    }
}

/// Value of an unsigned decimal literal in fixed-point: integer part scaled
/// by `UNIT`, plus the fractional digits padded or cut to six places. At most
/// twelve integer digits and six fractional digits are accepted.
pub open spec fn parse_ufixed_spec(s: Seq<u8>) -> Option<int> {
    let d = dot_pos(s);
    let ip = s.take(d);
    if ip.len() == 0 || ip.len() > 12 || !all_digits(ip) {
        None
    } else if d == s.len() {
        Some(digits_val(ip) * UNIT as int)
    } else {
        let fp = s.skip(d + 1);
        if fp.len() > 6 || !all_digits(fp) {
            None
        } else {
            Some(digits_val(ip) * UNIT as int + digits_val(fp) * pow10((6 - fp.len()) as nat))
        }
    }
}

/// Value of a decimal literal in fixed-point, with an optional leading minus.
pub open spec fn parse_fixed_spec(s: Seq<u8>) -> Option<int> {
    if s.len() > 0 && s[0] == B_MINUS {
        match parse_ufixed_spec(s.skip(1)) {
            Some(v) => Some(-v),
            None => None,
        }
    } else {
        parse_ufixed_spec(s)
    }
}

/// Reads the digit string `s[from..to]` as an integer; at most twelve
/// digits are accepted so the value fits comfortably in i64.
fn read_digits(s: &Vec<u8>, from: usize, to: usize) -> (r: Option<i64>)
    requires
        from <= to <= s@.len(),
    ensures
        match r {
            Some(v) => {
                &&& all_digits(s@.subrange(from as int, to as int))
                &&& to - from <= 12
                &&& v as int == digits_val(s@.subrange(from as int, to as int))
                &&& 0 <= v as int
                &&& (v as int) < pow10((to - from) as nat)
            },
            None => to - from > 12 || !all_digits(s@.subrange(from as int, to as int)),
        },
{
    if to - from > 12 {
        return None;
    }
    let ghost whole: Seq<u8> = s@.subrange(from as int, to as int);
    let mut acc: i64 = 0;
    let mut i: usize = from;
    while i < to
        invariant
            from <= i <= to <= s@.len(),
            to - from <= 12,
            whole == s@.subrange(from as int, to as int),
            all_digits(s@.subrange(from as int, i as int)),
            acc as int == digits_val(s@.subrange(from as int, i as int)),
            0 <= acc as int,
            (acc as int) < pow10((i - from) as nat),
        decreases to - i,
    {
        let b = s[i];
        if b < B_ZERO || b > B_NINE {
            proof {
                assert(s@.subrange(from as int, to as int)[i - from] == s@[i as int]);
            }
            return None;
        }
        proof {
            assert(s@.subrange(from as int, (i + 1) as int).drop_last() == s@.subrange(
                from as int,
                i as int,
            ));
            assert(s@.subrange(from as int, (i + 1) as int).last() == s@[i as int]);
            lemma_pow10_le(((i + 1) - from) as nat, 12);
        }
        acc = acc * 10 + (b - B_ZERO) as i64;
        i = i + 1;
    }
    proof {
        assert(s@.subrange(from as int, i as int) == whole);
    }
    Some(acc)
}

/// `pow10` is at least one.
pub proof fn lemma_pow10_pos(a: nat)
    ensures
        pow10(a) >= 1,
    decreases a,
{
    if a > 0 {
        lemma_pow10_pos((a - 1) as nat);
    }
}

/// `pow10` is monotone.
pub proof fn lemma_pow10_mono(a: nat, b: nat)
    requires
        a <= b,
    ensures
        pow10(a) <= pow10(b),
    decreases b,
{
    if a < b {
        lemma_pow10_mono(a, (b - 1) as nat);
        lemma_pow10_pos((b - 1) as nat);
    }
}

/// `pow10` is monotone, and stays well inside i64 up to twelve digits.
pub proof fn lemma_pow10_le(a: nat, b: nat)
    requires
        a <= b,
        b <= 12,
    ensures
        pow10(a) <= pow10(b),
        pow10(b) <= 1000000000000,
    decreases b,
{
    lemma_pow10_mono(a, b);
    lemma_pow10_mono(b, 12);
    reveal_with_fuel(pow10, 13);
    assert(pow10(12) == 1000000000000);
}

/// Position of the first `B_DOT` in `s`, or its length.
fn find_dot(s: &Vec<u8>, from: usize) -> (r: usize)
    requires
        from <= s@.len(),
    ensures
        from <= r <= s@.len(),
        r - from == dot_pos(s@.skip(from as int)),
{
    let mut i: usize = from;
    while i < s.len()
        invariant
            from <= i <= s@.len(),
            forall|j: int| from <= j < i ==> s@[j] != B_DOT,
        decreases s@.len() - i,
    {
        if s[i] == B_DOT {
            proof {
                lemma_dot_pos_of(s@.skip(from as int), i - from);
            }
            return i;
        }
        i = i + 1;
    }
    proof {
        lemma_dot_pos_of(s@.skip(from as int), i - from);
    }
    i
}

/// `dot_pos` is pinned by "no dot before `k`, and `k` is a dot or the end".
proof fn lemma_dot_pos_of(s: Seq<u8>, k: int)
    requires
        0 <= k <= s.len(),
        forall|j: int| 0 <= j < k ==> s[j] != B_DOT,
        k < s.len() ==> s[k] == B_DOT,
    ensures
        dot_pos(s) == k,
    decreases s.len(),
{
    if s.len() > 0 && s[0] != B_DOT {
        assert forall|j: int| 0 <= j < k - 1 implies s.skip(1)[j] != B_DOT by {
            assert(s.skip(1)[j] == s[j + 1]);
        }
        if k - 1 < s.skip(1).len() {
            assert(s.skip(1)[k - 1] == s[k]);
        }
        lemma_dot_pos_of(s.skip(1), k - 1);
    }
}

/// Reads the decimal literal held in `s[from..]` as a fixed-point value:
/// `None` when the text is not a literal this engine accepts.
pub fn parse_fixed(s: &Vec<u8>) -> (r: Option<i64>)
    ensures
        match r {
            Some(v) => parse_fixed_spec(s@) == Some(v as int),
            None => parse_fixed_spec(s@) is None,
        },
{
    let neg: bool = s.len() > 0 && s[0] == B_MINUS;
    let start: usize = if neg {
        1
    } else {
        0
    };
    let ghost body: Seq<u8> = if neg {
        s@.skip(1)
    } else {
        s@
    };
    proof {
        assert(body == s@.skip(start as int));
    }
    let d = find_dot(s, start);
    proof {
        lemma_dot_pos(body);
        assert(body.take(d - start).len() == d - start);
        assert forall|j: int| 0 <= j < d - start implies #[trigger] body.take(d - start)[j]
            == s@[start + j] by {}
        assert(body.take(d - start) == s@.subrange(start as int, d as int));
    }
    let ip = match read_digits(s, start, d) {
        Some(v) => v,
        None => {
            return None;
        },
    };
    if d - start == 0 {
        return None;
    }
    proof {
        lemma_pow10_le((d - start) as nat, 12);
        assert(ip as int * UNIT as int <= 1000000000000int * 1000000int) by (nonlinear_arith)
            requires
                0 <= ip as int <= 1000000000000int,
        ;
        assert(0 <= ip as int * UNIT as int) by (nonlinear_arith)
            requires
                0 <= ip as int,
        ;
    }
    let unscaled: i64 = ip * UNIT;
    let v: i64 = if d == s.len() {
        unscaled
    } else {
        proof {
            assert(body.skip(d - start + 1) =~= s@.subrange((d + 1) as int, s@.len() as int));
        }
        let fstart = d + 1;
        let fend = s.len();
        if fend - fstart > 6 {
            return None;
        }
        let fp = match read_digits(s, fstart, fend) {
            Some(v) => v,
            None => {
                return None;
            },
        };
        let scale: i64 = pow10_exec(6 - (fend - fstart));
        proof {
            lemma_pow10_le((fend - fstart) as nat, 6);
            lemma_pow10_le((6 - (fend - fstart)) as nat, 6);
            reveal_with_fuel(pow10, 7);
            assert(pow10(6) == 1000000);
            assert(0 <= fp as int * scale as int <= 1000000int * 1000000int) by (nonlinear_arith)
                requires
                    0 <= fp as int <= 1000000int,
                    0 <= scale as int <= 1000000int,
            ;
        }
        unscaled + fp * scale
    };
    if neg {
        Some(-v)
    } else {
        Some(v)
    }
}

/// Ten to the `k`-th power, for small `k`.
fn pow10_exec(k: usize) -> (r: i64)
    requires
        k <= 6,
    ensures
        r as int == pow10(k as nat),
{
    let mut r: i64 = 1;
    let mut i: usize = 0;
    while i < k
        invariant
            i <= k <= 6,
            r as int == pow10(i as nat),
            1 <= r as int <= 1000000,
        decreases k - i,
    {
        proof {
            lemma_pow10_le((i + 1) as nat, 6);
            reveal_with_fuel(pow10, 7);
            assert(pow10(6) == 1000000);
        }
        r = r * 10;
        i = i + 1;
    }
    r
}

} // verus!
