//! The patch-text parser.
//!
//! A patch is a sequence of lines; a line is an optional reference name, a
//! colon, and a chain of elements; an element is either a unit constructor
//! `op(p1,p2,...)` or a reference `&name` that wires an existing node into
//! the chain. Whitespace is insignificant everywhere and is stripped first.
//! The parser is a recursive descent over the stripped bytes, and each
//! function returns exactly what its specification-level twin denotes.

use vstd::prelude::*;

verus! {

/// ASCII bytes the grammar tests against.
pub const B_NL: u8 = 10;

pub const B_COLON: u8 = 58;

pub const B_AMP: u8 = 38;

pub const B_LPAR: u8 = 40;

pub const B_RPAR: u8 = 41;

pub const B_COMMA: u8 = 44;

/// Insignificant bytes: space, tab, carriage return.
pub open spec fn is_ws(b: u8) -> bool {
    b == 32 || b == 9 || b == 13
}

/// Bytes a name may hold: letters, digits, underscore, the sink marker.
pub open spec fn is_name_byte(b: u8) -> bool {
    (48 <= b && b <= 57) || (65 <= b && b <= 90) || (97 <= b && b <= 122) || b == 95 || b == 126
}

/// Bytes a parameter may hold: name bytes, dot, minus, backslash.
pub open spec fn is_param_byte(b: u8) -> bool {
    is_name_byte(b) || b == 46 || b == 45 || b == 92
}

/// The text with all insignificant bytes removed.
pub open spec fn strip_spec(s: Seq<u8>) -> Seq<u8>
    decreases s.len(),
{
    if s.len() == 0 {
        s
    } else if is_ws(s[0]) {
        strip_spec(s.skip(1))
    } else {
        seq![s[0]] + strip_spec(s.skip(1))
    }
}

/// Appending one byte extends the stripped text by that byte or not at all.
pub proof fn lemma_strip_push(s: Seq<u8>, x: u8)
    ensures
        strip_spec(s.push(x)) == if is_ws(x) {
            strip_spec(s)
        } else {
            strip_spec(s).push(x)
        },
    decreases s.len(),
{
    reveal_with_fuel(strip_spec, 3);
    if s.len() == 0 {
        assert(s.push(x).skip(1) =~= Seq::<u8>::empty());
        assert(s.push(x)[0] == x);
        assert(strip_spec(s.push(x).skip(1)) == strip_spec(Seq::<u8>::empty()));
        if !is_ws(x) {
            assert(strip_spec(s.push(x)) == seq![x] + strip_spec(s.push(x).skip(1)));
            assert(strip_spec(s.push(x)) =~= strip_spec(s).push(x));
        }
    } else {
        assert(s.push(x).skip(1) =~= s.skip(1).push(x));
        lemma_strip_push(s.skip(1), x);
        if !is_ws(s[0]) {
            if is_ws(x) {
            } else {
                assert(seq![s[0]] + strip_spec(s.skip(1)).push(x) =~= (seq![s[0]] + strip_spec(
                    s.skip(1),
                )).push(x));
            }
        }
    }
}

/// Removes the insignificant bytes from the text.
pub fn strip(s: &Vec<u8>) -> (r: Vec<u8>)
    ensures
        r@ == strip_spec(s@),
{
    let mut r: Vec<u8> = Vec::new();
    let mut i: usize = 0;
    proof {
        assert(s@.take(0) =~= Seq::<u8>::empty());
    }
    while i < s.len()
        invariant
            i <= s@.len(),
            r@ == strip_spec(s@.take(i as int)),
        decreases s@.len() - i,
    {
        let b = s[i];
        proof {
            assert(s@.take((i + 1) as int) =~= s@.take(i as int).push(s@[i as int]));
            lemma_strip_push(s@.take(i as int), s@[i as int]);
        }
        if !(b == 32 || b == 9 || b == 13) {
            r.push(b);
        }
        i = i + 1;
    }
    proof {
        assert(s@.take(s@.len() as int) =~= s@);
    }
    r
}

/// End of the name-byte run starting at `i`.
pub open spec fn name_end(t: Seq<u8>, i: int) -> int
    decreases t.len() - i
        when 0 <= i <= t.len()
{
    if i < 0 || i >= t.len() {
        i
    } else if is_name_byte(t[i]) {
        name_end(t, i + 1)
    } else {
        i
    }
}

/// End of the parameter-byte run starting at `i`.
pub open spec fn param_end(t: Seq<u8>, i: int) -> int
    decreases t.len() - i
        when 0 <= i <= t.len()
{
    if i < 0 || i >= t.len() {
        i
    } else if is_param_byte(t[i]) {
        param_end(t, i + 1)
    } else {
        i
    }
}

/// Position of the first newline at or after `i`.
pub open spec fn nl_end(t: Seq<u8>, i: int) -> int
    decreases t.len() - i
        when 0 <= i <= t.len()
{
    if i < 0 || i >= t.len() {
        i
    } else if t[i] != B_NL {
        nl_end(t, i + 1)
    } else {
        i
    }
}

fn is_name_byte_x(b: u8) -> (r: bool)
    ensures
        r == is_name_byte(b),
{
    (48 <= b && b <= 57) || (65 <= b && b <= 90) || (97 <= b && b <= 122) || b == 95 || b == 126
}

fn is_param_byte_x(b: u8) -> (r: bool)
    ensures
        r == is_param_byte(b),
{
    is_name_byte_x(b) || b == 46 || b == 45 || b == 92
}

fn name_end_x(t: &Vec<u8>, i: usize) -> (r: usize)
    requires
        i <= t@.len(),
    ensures
        i <= r <= t@.len(),
        r as int == name_end(t@, i as int),
    decreases t@.len() - i,
{
    if i < t.len() && is_name_byte_x(t[i]) {
        name_end_x(t, i + 1)
    } else {
        i
    }
}

fn param_end_x(t: &Vec<u8>, i: usize) -> (r: usize)
    requires
        i <= t@.len(),
    ensures
        i <= r <= t@.len(),
        r as int == param_end(t@, i as int),
    decreases t@.len() - i,
{
    if i < t.len() && is_param_byte_x(t[i]) {
        param_end_x(t, i + 1)
    } else {
        i
    }
}

fn nl_end_x(t: &Vec<u8>, i: usize) -> (r: usize)
    requires
        i <= t@.len(),
    ensures
        i <= r <= t@.len(),
        r as int == nl_end(t@, i as int),
    decreases t@.len() - i,
{
    if i < t.len() && t[i] != B_NL {
        nl_end_x(t, i + 1)
    } else {
        i
    }
}

/// The bytes `t[a..b]`, copied out.
pub fn copy_range(t: &Vec<u8>, a: usize, b: usize) -> (r: Vec<u8>)
    requires
        a <= b <= t@.len(),
    ensures
        r@ == t@.subrange(a as int, b as int),
{
    let mut r: Vec<u8> = Vec::new();
    let mut i: usize = a;
    while i < b
        invariant
            a <= i <= b <= t@.len(),
            r@ =~= t@.subrange(a as int, i as int),
        decreases b - i,
    {
        let v = t[i];
        r.push(v);
        proof {
            assert(r@ =~= t@.subrange(a as int, (i + 1) as int));
        }
        i = i + 1;
    }
    proof {
        assert(r@ =~= t@.subrange(a as int, b as int));
    }
    r
}

/// One unit constructor in a chain: an operation name and its parameters.
pub struct PCall {
    pub op: Vec<u8>,
    pub params: Vec<Vec<u8>>,
}

/// One chain element.
pub enum PElem {
    /// A unit constructor.
    Call(PCall),
    /// A reference to an already bound node, written `&name`.
    ChainRef(Vec<u8>),
}

/// One patch line: an optional reference name and a chain of elements.
pub struct PLine {
    pub name: Vec<u8>,
    pub elems: Vec<PElem>,
}

/// Ghost image of a constructor.
pub struct CallM {
    pub op: Seq<u8>,
    pub params: Seq<Seq<u8>>,
}

/// Ghost image of a chain element.
pub enum ElemM {
    Call(CallM),
    ChainRef(Seq<u8>),
}

/// Ghost image of a line.
pub struct LineM {
    pub name: Seq<u8>,
    pub elems: Seq<ElemM>,
}

/// The views of a list of parameters.
pub open spec fn vecs_model(v: Seq<Vec<u8>>) -> Seq<Seq<u8>> {
    Seq::new(v.len(), |i: int| v[i]@)
}

impl PCall {
    pub open spec fn model(self) -> CallM {
        CallM { op: self.op@, params: vecs_model(self.params@) }
    }
}

impl PElem {
    pub open spec fn model(self) -> ElemM {
        match self {
            PElem::Call(c) => ElemM::Call(c.model()),
            PElem::ChainRef(n) => ElemM::ChainRef(n@),
        }
    }
}

/// The views of a list of chain elements.
pub open spec fn elems_model(v: Seq<PElem>) -> Seq<ElemM> {
    Seq::new(v.len(), |i: int| v[i].model())
}

impl PLine {
    pub open spec fn model(self) -> LineM {
        LineM { name: self.name@, elems: elems_model(self.elems@) }
    }
}

/// The views of a list of lines.
pub open spec fn lines_model(v: Seq<PLine>) -> Seq<LineM> {
    Seq::new(v.len(), |i: int| v[i].model())
}

/// The parameter list starting at `i` inside a line ending at `j`: one or
/// more non-empty parameters separated by commas, closed by a parenthesis.
/// Yields the parameters and the position after the closing parenthesis.
pub open spec fn parse_params_s(t: Seq<u8>, i: int, j: int) -> Option<(Seq<Seq<u8>>, int)>
    decreases j - i
        when 0 <= i && j <= t.len()
{
    let e = param_end(t, i);
    if e <= i || e >= j {
        None
    } else if t[e] == B_COMMA {
        match parse_params_s(t, e + 1, j) {
            Some((ps, q)) => Some((seq![t.subrange(i, e)] + ps, q)),
            None => None,
        }
    } else if t[e] == B_RPAR {
        Some((seq![t.subrange(i, e)], e + 1))
    } else {
        None
    }
}

/// The chain elements in `t[i..j]`: constructors `op(...)` and references
/// `&name`, directly concatenated.
pub open spec fn parse_elems_s(t: Seq<u8>, i: int, j: int) -> Option<Seq<ElemM>>
    decreases j - i
        when 0 <= i && j <= t.len()
{
    if i >= j {
        Some(Seq::empty())
    } else if t[i] == B_AMP {
        let e = name_end(t, i + 1);
        if e <= i + 1 || e > j {
            None
        } else {
            match parse_elems_s(t, e, j) {
                Some(rest) => Some(seq![ElemM::ChainRef(t.subrange(i + 1, e))] + rest),
                None => None,
            }
        }
    } else {
        let e = name_end(t, i);
        if e <= i || e >= j || t[e] != B_LPAR {
            None
        } else {
            match parse_params_s(t, e + 1, j) {
                Some((ps, q)) => if q <= e + 1 || q > j {
                    None
                } else {
                    match parse_elems_s(t, q, j) {
                        Some(rest) => Some(
                            seq![ElemM::Call(CallM { op: t.subrange(i, e), params: ps })] + rest,
                        ),
                        None => None,
                    }
                },
                None => None,
            }
        }
    }
}

/// One line `t[i..j]`: an optional `name:` prefix, then the chain.
pub open spec fn parse_line_s(t: Seq<u8>, i: int, j: int) -> Option<LineM> {
    let e = name_end(t, i);
    if i < e && e < j && t[e] == B_COLON {
        match parse_elems_s(t, e + 1, j) {
            Some(es) => Some(LineM { name: t.subrange(i, e), elems: es }),
            None => None,
        }
    } else {
        match parse_elems_s(t, i, j) {
            Some(es) => Some(LineM { name: Seq::empty(), elems: es }),
            None => None,
        }
    }
}

/// The lines of the stripped text from `i` on; blank lines are skipped.
pub open spec fn parse_block_s(t: Seq<u8>, i: int) -> Option<Seq<LineM>>
    decreases t.len() - i
        when 0 <= i
{
    if i >= t.len() {
        Some(Seq::empty())
    } else {
        let j = nl_end(t, i);
        if j < i || j > t.len() {
            None
        } else {
            let head: Option<Seq<LineM>> = if i == j {
                Some(Seq::empty())
            } else {
                match parse_line_s(t, i, j) {
                    Some(l) => Some(seq![l]),
                    None => None,
                }
            };
            match head {
                None => None,
                Some(h) => if j >= t.len() {
                    Some(h)
                } else {
                    match parse_block_s(t, j + 1) {
                        Some(rest) => Some(h + rest),
                        None => None,
                    }
                },
            }
        }
    }
}

/// What the whole patch text denotes: the parsed lines of the stripped
/// bytes, or nothing when the text is malformed.
pub open spec fn parse_text_spec(code: Seq<u8>) -> Option<Seq<LineM>> {
    parse_block_s(strip_spec(code), 0)
}

fn p_params(t: &Vec<u8>, i: usize, j: usize) -> (r: Option<(Vec<Vec<u8>>, usize)>)
    requires
        i <= j <= t@.len(),
    ensures
        match r {
            Some((ps, q)) => {
                &&& parse_params_s(t@, i as int, j as int) == Some(
                    (vecs_model(ps@), q as int),
                )
                &&& i < q <= j
            },
            None => parse_params_s(t@, i as int, j as int) is None,
        },
    decreases j - i,
{
    let e = param_end_x(t, i);
    if e <= i || e >= j {
        return None;
    }
    if t[e] == B_COMMA {
        match p_params(t, e + 1, j) {
            Some((ps, q)) => {
                let mut out: Vec<Vec<u8>> = Vec::new();
                out.push(copy_range(t, i, e));
                let mut k: usize = 0;
                while k < ps.len()
                    invariant
                        k <= ps@.len(),
                        out@.len() == k + 1,
                        out@[0]@ == t@.subrange(i as int, e as int),
                        forall|m: int| 0 <= m < k ==> out@[m + 1]@ == ps@[m]@,
                    decreases ps@.len() - k,
                {
                    let p = copy_range(&ps[k], 0, ps[k].len());
                    proof {
                        assert(p@ == ps@[k as int]@);
                    }
                    out.push(p);
                    k = k + 1;
                }
                proof {
                    assert(vecs_model(out@) =~= seq![t@.subrange(i as int, e as int)]
                        + vecs_model(ps@));
                }
                Some((out, q))
            },
            None => None,
        }
    } else if t[e] == B_RPAR {
        let mut out: Vec<Vec<u8>> = Vec::new();
        out.push(copy_range(t, i, e));
        proof {
            assert(vecs_model(out@) =~= seq![t@.subrange(i as int, e as int)]);
        }
        Some((out, e + 1))
    } else {
        None
    }
}

fn p_elems(t: &Vec<u8>, i: usize, j: usize) -> (r: Option<Vec<PElem>>)
    requires
        i <= j <= t@.len(),
    ensures
        match r {
            Some(es) => parse_elems_s(t@, i as int, j as int) == Some(elems_model(es@)),
            None => parse_elems_s(t@, i as int, j as int) is None,
        },
    decreases j - i,
{
    if i >= j {
        let out: Vec<PElem> = Vec::new();
        proof {
            assert(elems_model(out@) =~= Seq::<ElemM>::empty());
        }
        return Some(out);
    }
    if t[i] == B_AMP {
        let e = name_end_x(t, i + 1);
        if e <= i + 1 || e > j {
            return None;
        }
        match p_elems(t, e, j) {
            Some(rest) => {
                let ghost rm = elems_model(rest@);
                let mut head: Vec<PElem> = Vec::new();
                head.push(PElem::ChainRef(copy_range(t, i + 1, e)));
                proof {
                    assert(elems_model(head@) =~= seq![
                        ElemM::ChainRef(t@.subrange(i as int + 1, e as int)),
                    ]);
                }
                let out = append_elems(head, rest);
                proof {
                    assert(elems_model(out@) == seq![
                        ElemM::ChainRef(t@.subrange(i as int + 1, e as int)),
                    ] + rm);
                }
                Some(out)
            },
            None => None,
        }
    } else {
        let e = name_end_x(t, i);
        if e <= i || e >= j {
            return None;
        }
        if t[e] != B_LPAR {
            return None;
        }
        match p_params(t, e + 1, j) {
            Some((ps, q)) => {
                if q <= e + 1 || q > j {
                    return None;
                }
                match p_elems(t, q, j) {
                    Some(rest) => {
                        let ghost rm = elems_model(rest@);
                        let ghost pm = vecs_model(ps@);
                        let mut head: Vec<PElem> = Vec::new();
                        head.push(PElem::Call(PCall { op: copy_range(t, i, e), params: ps }));
                        proof {
                            assert(elems_model(head@) =~= seq![
                                ElemM::Call(
                                    CallM { op: t@.subrange(i as int, e as int), params: pm },
                                ),
                            ]);
                        }
                        let out = append_elems(head, rest);
                        proof {
                            assert(elems_model(out@) == seq![
                                ElemM::Call(
                                    CallM { op: t@.subrange(i as int, e as int), params: pm },
                                ),
                            ] + rm);
                        }
                        Some(out)
                    },
                    None => None,
                }
            },
            None => None,
        }
    }
}

/// Moves the elements of `b` onto the end of `a`.
fn append_elems(a: Vec<PElem>, b: Vec<PElem>) -> (r: Vec<PElem>)
    ensures
        elems_model(r@) == elems_model(a@) + elems_model(b@),
{
    let ghost a0 = a@;
    let ghost b0 = b@;
    let mut r = a;
    let mut b = b;
    while b.len() > 0
        invariant
            b0.len() >= b@.len(),
            b@ =~= b0.skip(b0.len() - b@.len()),
            elems_model(r@) =~= elems_model(a0) + elems_model(b0.take(b0.len() - b@.len())),
        decreases b@.len(),
    {
        let ghost k = b0.len() - b@.len();
        let x = b.remove(0);
        let ghost xm = x.model();
        let ghost r0 = r@;
        proof {
            assert(x == b0[k]);
        }
        r.push(x);
        proof {
            assert(b@ =~= b0.skip(b0.len() - b@.len()));
            assert(r@ =~= r0.push(b0[k]));
            assert(elems_model(r@) =~= elems_model(r0).push(b0[k].model()));
            assert(b0.take(k + 1) =~= b0.take(k).push(b0[k]));
            assert(elems_model(b0.take(k + 1)) =~= elems_model(b0.take(k)).push(b0[k].model()));
            assert(elems_model(r@) =~= elems_model(a0) + elems_model(b0.take(k + 1)));
        }
    }
    proof {
        assert(b0.take(b0.len() as int) =~= b0);
        assert(elems_model(r@) =~= elems_model(a0) + elems_model(b0));
    }
    r
}


fn p_line(t: &Vec<u8>, i: usize, j: usize) -> (r: Option<PLine>)
    requires
        i <= j <= t@.len(),
    ensures
        match r {
            Some(l) => parse_line_s(t@, i as int, j as int) == Some(l.model()),
            None => parse_line_s(t@, i as int, j as int) is None,
        },
{
    let e = name_end_x(t, i);
    if i < e && e < j && t[e] == B_COLON {
        match p_elems(t, e + 1, j) {
            Some(es) => Some(PLine { name: copy_range(t, i, e), elems: es }),
            None => None,
        }
    } else {
        match p_elems(t, i, j) {
            Some(es) => {
                let nm: Vec<u8> = Vec::new();
                proof {
                    assert(nm@ =~= Seq::<u8>::empty());
                }
                Some(PLine { name: nm, elems: es })
            },
            None => None,
        }
    }
}

fn p_block(t: &Vec<u8>, i: usize) -> (r: Option<Vec<PLine>>)
    requires
        i <= t@.len(),
    ensures
        match r {
            Some(ls) => parse_block_s(t@, i as int) == Some(lines_model(ls@)),
            None => parse_block_s(t@, i as int) is None,
        },
    decreases t@.len() - i,
{
    if i >= t.len() {
        let out: Vec<PLine> = Vec::new();
        proof {
            assert(lines_model(out@) =~= Seq::<LineM>::empty());
        }
        return Some(out);
    }
    let j = nl_end_x(t, i);
    let head: Option<PLine> = if i == j {
        None
    } else {
        match p_line(t, i, j) {
            Some(l) => Some(l),
            None => {
                return None;
            },
        }
    };
    if j >= t.len() {
        let mut out: Vec<PLine> = Vec::new();
        match head {
            Some(l) => {
                let ghost lm = l.model();
                out.push(l);
                proof {
                    assert(lines_model(out@) =~= seq![lm]);
                }
            },
            None => {
                proof {
                    assert(lines_model(out@) =~= Seq::<LineM>::empty());
                }
            },
        }
        return Some(out);
    }
    match p_block(t, j + 1) {
        Some(rest) => {
            let mut out: Vec<PLine> = Vec::new();
            match head {
                Some(l) => {
                    let ghost lm = l.model();
                    out.push(l);
                    proof {
                        assert(lines_model(out@) =~= seq![lm]);
                    }
                },
                None => {
                    proof {
                        assert(lines_model(out@) =~= Seq::<LineM>::empty());
                    }
                },
            }
            let ghost hm = lines_model(out@);
            let ghost rm = lines_model(rest@);
            let out = append_lines(out, rest);
            proof {
                assert(lines_model(out@) == hm + rm);
            }
            Some(out)
        },
        None => None,
    }
}

/// Moves the lines of `b` onto the end of `a`.
fn append_lines(a: Vec<PLine>, b: Vec<PLine>) -> (r: Vec<PLine>)
    ensures
        lines_model(r@) == lines_model(a@) + lines_model(b@),
{
    let ghost a0 = a@;
    let ghost b0 = b@;
    let mut r = a;
    let mut b = b;
    while b.len() > 0
        invariant
            b0.len() >= b@.len(),
            b@ =~= b0.skip(b0.len() - b@.len()),
            lines_model(r@) =~= lines_model(a0) + lines_model(b0.take(b0.len() - b@.len())),
        decreases b@.len(),
    {
        let ghost k = b0.len() - b@.len();
        let x = b.remove(0);
        let ghost r0 = r@;
        proof {
            assert(x == b0[k]);
        }
        r.push(x);
        proof {
            assert(b@ =~= b0.skip(b0.len() - b@.len()));
            assert(r@ =~= r0.push(b0[k]));
            assert(lines_model(r@) =~= lines_model(r0).push(b0[k].model()));
            assert(b0.take(k + 1) =~= b0.take(k).push(b0[k]));
            assert(lines_model(b0.take(k + 1)) =~= lines_model(b0.take(k)).push(b0[k].model()));
            assert(lines_model(r@) =~= lines_model(a0) + lines_model(b0.take(k + 1)));
        }
    }
    proof {
        assert(b0.take(b0.len() as int) =~= b0);
        assert(lines_model(r@) =~= lines_model(a0) + lines_model(b0));
    }
    r
}

/// The patch-text recognizer: turns the raw text into parsed lines, or
/// nothing when the text does not fit the grammar.
pub struct QParser;

impl QParser {
    /// Parses patch text into its lines: exactly the lines the grammar
    /// denotes, or `None` on malformed text.
    pub fn parse(code: &Vec<u8>) -> (r: Option<Vec<PLine>>)
        ensures
            match r {
                Some(ls) => parse_text_spec(code@) == Some(lines_model(ls@)),
                None => parse_text_spec(code@) is None,
            },
    {
        let t = strip(code);
        p_block(&t, 0)
    }
}

} // verus!
