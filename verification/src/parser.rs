//! The sequence-pattern compiler: the grammar of the seven notation shapes,
//! the compiled generator type, and its evaluator.

use vstd::prelude::*;
use vstd::string::StrSliceExecFns;

use crate::numeral::{
    all_digits, digit_val, digits_val, in_i32, is_digit, is_int_lit, lit_val,
};

verus! {

/// Error taxonomy of the engine.
#[derive(Clone, Copy, PartialEq, Eq, Structural, Debug)]
pub enum DupError {
    /// The copy-count text does not parse as a non-negative integer.
    InvalidCount,
    /// A non-empty pattern string matches none of the seven grammar shapes,
    /// a captured integer is out of range, or a cyclic triple is not
    /// strictly monotonic.
    MalformedPattern,
    /// The destination could not be created or written; raised only by
    /// callers that own a real sink, never by the compiler or the buffered
    /// driver.
    SinkFailure,
}

/// A compiled sequence generator: one of the seven notation shapes with its
/// captured integers and, for the end-anchored shapes, the total copy count.
#[derive(Clone, Copy, PartialEq, Eq, Structural, Debug)]
pub enum Generator {
    /// `A..`: `f(idx) = A + idx`.
    FromStart { a: i32 },
    /// `A,B..`: `f(idx) = A + idx*(B-A)`.
    StepFromStart { a: i32, b: i32 },
    /// `..A`: `f(idx) = A - (N-1) + idx`.
    ToEnd { a: i32, total: u32 },
    /// `..A,B`: `f(idx) = B - (N-1-idx)*(B-A)`.
    StepToEnd { a: i32, b: i32, total: u32 },
    /// `A..B`: cycle between `A` and `B` inclusive.
    Cycle { a: i32, b: i32 },
    /// `A..B,C`: cyclic progression with step `C-B`; `A,B,C` strictly monotonic.
    CycleToEnd { a: i32, b: i32, c: i32 },
    /// `A,B..C`: cyclic progression with step `B-A`; `A,B,C` strictly monotonic.
    CycleFromStart { a: i32, b: i32, c: i32 },
}

pub open spec fn abs_int(x: int) -> int {
    if x < 0 {
        -x
    } else {
        x
    }
}

/// Quotient of Rust's `/` on integers: truncating division, the quotient is
/// rounded toward zero.
pub open spec fn trunc_div(x: int, d: int) -> int
    recommends
        d != 0,
{
    if (x < 0) == (d < 0) {
        abs_int(x) / abs_int(d)
    } else {
        -(abs_int(x) / abs_int(d))
    }
}

/// Remainder of Rust's `%` on integers: its sign follows the dividend.
pub open spec fn trunc_mod(x: int, d: int) -> int
    recommends
        d != 0,
{
    if x < 0 {
        -(abs_int(x) % abs_int(d))
    } else {
        abs_int(x) % abs_int(d)
    }
}

pub open spec fn strictly_monotonic(a: int, b: int, c: int) -> bool {
    (a < b && b < c) || (a > b && b > c)
}

/// The two three-integer cyclic shapes are only built from strictly
/// monotonic triples; every other shape is unconditionally well formed.
pub open spec fn wf_gen(g: Generator) -> bool {
    match g {
        Generator::CycleToEnd { a, b, c } => strictly_monotonic(a as int, b as int, c as int),
        Generator::CycleFromStart { a, b, c } => strictly_monotonic(a as int, b as int, c as int),
        _ => true,
    }
}

/// The integer a generator yields at a copy index, in exact integer
/// arithmetic, with `/` and `%` truncating as Rust's operators do.
pub open spec fn gen_value(g: Generator, idx: int) -> int
    recommends
        wf_gen(g),
{
    match g {
        Generator::FromStart { a } => a + idx,
        Generator::StepFromStart { a, b } => a + idx * (b - a),
        Generator::ToEnd { a, total } => a - (total - 1) + idx,
        Generator::StepToEnd { a, b, total } => b - (total - 1 - idx) * (b - a),
        Generator::Cycle { a, b } => if a < b {
            a + trunc_mod(idx, b - a + 1)
        } else {
            a - trunc_mod(idx, a - b + 1)
        },
        Generator::CycleToEnd { a, b, c } => a + trunc_mod(c - a, c - b) + (c - b) * trunc_mod(
            idx,
            trunc_div(c - a, c - b) + 1,
        ),
        Generator::CycleFromStart { a, b, c } => a + (b - a) * trunc_mod(
            idx,
            trunc_div(c - a, b - a) + 1,
        ),
    }
}

/// Index of the first occurrence of `c` in `s` at or after position `i`, or
/// `s.len()` when there is none.
pub open spec fn first_at(s: Seq<char>, c: char, i: int) -> int
    decreases s.len() - i,
{
    if i < 0 || i >= s.len() {
        s.len() as int
    } else if s[i] == c {
        i
    } else {
        first_at(s, c, i + 1)
    }
}

/// Shape of one side of the `..` separator: nothing, one integer, an integer
/// pair, or `Bad` when the text is none of those (or an integer does not fit
/// in `i32`).
pub enum SideShape {
    Empty,
    One(int),
    Two(int, int),
    Bad,
}

pub open spec fn side_shape(s: Seq<char>) -> SideShape {
    if s.len() == 0 {
        SideShape::Empty
    } else {
        let c = first_at(s, ',', 0);
        if c == s.len() {
            if is_int_lit(s) && in_i32(lit_val(s)) {
                SideShape::One(lit_val(s))
            } else {
                SideShape::Bad
            }
        } else {
            let x = s.subrange(0, c);
            let y = s.subrange(c + 1, s.len() as int);
            if is_int_lit(x) && in_i32(lit_val(x)) && is_int_lit(y) && in_i32(lit_val(y)) {
                SideShape::Two(lit_val(x), lit_val(y))
            } else {
                SideShape::Bad
            }
        }
    }
}

/// The generator for a pair of side shapes, or `None` when the combination is
/// not one of the seven grammar shapes (or a cyclic triple is not strictly
/// monotonic).
pub open spec fn shape_gen(head: SideShape, tail: SideShape, total: u32) -> Option<Generator> {
    match (head, tail) {
        (SideShape::One(a), SideShape::Empty) => Some(Generator::FromStart { a: a as i32 }),
        (SideShape::Empty, SideShape::One(a)) => Some(Generator::ToEnd { a: a as i32, total }),
        (SideShape::One(a), SideShape::One(b)) => Some(
            Generator::Cycle { a: a as i32, b: b as i32 },
        ),
        (SideShape::Two(a, b), SideShape::Empty) => Some(
            Generator::StepFromStart { a: a as i32, b: b as i32 },
        ),
        (SideShape::Empty, SideShape::Two(a, b)) => Some(
            Generator::StepToEnd { a: a as i32, b: b as i32, total },
        ),
        (SideShape::One(a), SideShape::Two(b, c)) => if strictly_monotonic(a, b, c) {
            Some(Generator::CycleToEnd { a: a as i32, b: b as i32, c: c as i32 })
        } else {
            None
        },
        (SideShape::Two(a, b), SideShape::One(c)) => if strictly_monotonic(a, b, c) {
            Some(Generator::CycleFromStart { a: a as i32, b: b as i32, c: c as i32 })
        } else {
            None
        },
        _ => None,
    }
}

/// Compile one whitespace-stripped pattern string: `Some` generator exactly
/// when the text is `pre..post` with no further dot and the two sides form
/// one of the seven shapes.
pub open spec fn spec_compile(t: Seq<char>, total: u32) -> Option<Generator> {
    let i = first_at(t, '.', 0);
    if i + 2 <= t.len() && t[i + 1] == '.' && first_at(t, '.', i + 2) == t.len() {
        shape_gen(
            side_shape(t.subrange(0, i)),
            side_shape(t.subrange(i + 2, t.len() as int)),
            total,
        )
    } else {
        None
    }
}

/// `s` with every space and tab character removed.
pub open spec fn strip_ws(s: Seq<char>) -> Seq<char>
    decreases s.len(),
{
    if s.len() == 0 {
        Seq::empty()
    } else if s.last() == ' ' || s.last() == '\t' {
        strip_ws(s.drop_last())
    } else {
        strip_ws(s.drop_last()).push(s.last())
    }
}

/// Product of a (signed) index-sized factor and a step-sized factor; both are
/// far inside `i128`, so the multiplication cannot overflow.
fn mul_idx_step(x: i128, y: i128) -> (r: i128)
    requires
        -0x1_0000_0001 <= x <= 0x1_0000_0001,
        -0x1_0000_0001 <= y <= 0x1_0000_0001,
    ensures
        r as int == x * y,
        -(0x1_0000_0001int * 0x1_0000_0001) <= r as int <= 0x1_0000_0001int * 0x1_0000_0001,
{
    proof {
        assert(-(0x1_0000_0001int * 0x1_0000_0001) <= (x as int) * (y as int) <= 0x1_0000_0001int
            * 0x1_0000_0001) by (nonlinear_arith)
            requires
                -0x1_0000_0001 <= x as int <= 0x1_0000_0001,
                -0x1_0000_0001 <= y as int <= 0x1_0000_0001,
        ;
    }
    x * y
}

/// Evaluate a compiled generator at a copy index.
#[verifier::rlimit(60)]
#[verifier::spinoff_prover]
pub fn evaluate(g: &Generator, idx: u32) -> (v: i128)
    requires
        wf_gen(*g),
    ensures
        v as int == gen_value(*g, idx as int),
{
    match *g {
        Generator::FromStart { a } => a as i128 + idx as i128,
        Generator::StepFromStart { a, b } => {
            let step = b as i128 - a as i128;
            a as i128 + mul_idx_step(idx as i128, step)
        },
        Generator::ToEnd { a, total } => a as i128 - (total as i128 - 1) + idx as i128,
        Generator::StepToEnd { a, b, total } => {
            let step = b as i128 - a as i128;
            b as i128 - mul_idx_step(total as i128 - 1 - idx as i128, step)
        },
        Generator::Cycle { a, b } => {
            if a < b {
                let per = (b as i64 - a as i64 + 1) as u64;
                let r = (idx as u64) % per;
                assert(r as int == trunc_mod(idx as int, b - a + 1));
                a as i128 + r as i128
            } else {
                let per = (a as i64 - b as i64 + 1) as u64;
                let r = (idx as u64) % per;
                assert(r as int == trunc_mod(idx as int, a - b + 1));
                a as i128 - r as i128
            }
        },
        Generator::CycleToEnd { a, b, c } => {
            let asc = a < b;
            let m: u64 = if asc {
                (c as i64 - a as i64) as u64
            } else {
                (a as i64 - c as i64) as u64
            };
            let d: u64 = if asc {
                (c as i64 - b as i64) as u64
            } else {
                (b as i64 - c as i64) as u64
            };
            let q = m / d;
            let r = m % d;
            assert(q == trunc_div(c - a, c - b));
            let rem0: i128 = if asc {
                r as i128
            } else {
                -(r as i128)
            };
            assert(rem0 as int == trunc_mod(c - a, c - b));
            let r2 = (idx as u64) % (q + 1);
            assert(r2 as int == trunc_mod(idx as int, trunc_div(c - a, c - b) + 1));
            let diff = c as i128 - b as i128;
            a as i128 + rem0 + mul_idx_step(r2 as i128, diff)
        },
        Generator::CycleFromStart { a, b, c } => {
            let asc = a < b;
            let m: u64 = if asc {
                (c as i64 - a as i64) as u64
            } else {
                (a as i64 - c as i64) as u64
            };
            let d: u64 = if asc {
                (b as i64 - a as i64) as u64
            } else {
                (a as i64 - b as i64) as u64
            };
            let q = m / d;
            assert(q == trunc_div(c - a, b - a));
            let r2 = (idx as u64) % (q + 1);
            assert(r2 as int == trunc_mod(idx as int, trunc_div(c - a, b - a) + 1));
            let step = b as i128 - a as i128;
            a as i128 + mul_idx_step(r2 as i128, step)
        },
    }
}

/// Collect the characters of a string slice into a vector.
pub fn str_to_char_vec(s: &str) -> (v: Vec<char>)
    ensures
        v@ == s@,
{
    let n = s.unicode_len();
    let mut v: Vec<char> = Vec::new();
    let mut i: usize = 0;
    while i < n
        invariant
            i <= n,
            n == s@.len(),
            v@ == s@.take(i as int),
        decreases n - i,
    {
        let c = s.get_char(i);
        v.push(c);
        assert(s@.take(i as int + 1) =~= s@.take(i as int).push(s@[i as int]));
        i += 1;
    }
    assert(s@.take(n as int) =~= s@);
    v
}

/// Remove every space and tab character.
fn strip_spaces(chars: &Vec<char>) -> (out: Vec<char>)
    ensures
        out@ == strip_ws(chars@),
{
    let n = chars.len();
    let mut out: Vec<char> = Vec::new();
    let mut i: usize = 0;
    while i < n
        invariant
            i <= n,
            n == chars@.len(),
            out@ == strip_ws(chars@.take(i as int)),
        decreases n - i,
    {
        let c = chars[i];
        proof {
            assert(chars@.take(i as int + 1).drop_last() =~= chars@.take(i as int));
            assert(chars@.take(i as int + 1).last() == chars@[i as int]);
        }
        if c != ' ' && c != '\t' {
            out.push(c);
        }
        i += 1;
    }
    assert(chars@.take(n as int) =~= chars@);
    out
}

/// Classify a character as a decimal digit and give its value.
pub(crate) fn digit_of(c: char) -> (r: Option<u8>)
    ensures
        match r {
            Some(d) => is_digit(c) && d as int == digit_val(c) && d < 10,
            None => !is_digit(c),
        },
{
    let v = c as u32;
    if 48 <= v && v <= 57 {
        Some((v - 48) as u8)
    } else {
        None
    }
}

/// Parse `chars[from..to]` as a signed 32-bit decimal literal of the shape
/// `-?[0-9]+`, exactly as `str::parse::<i32>` would.
fn parse_int(chars: &Vec<char>, from: usize, to: usize) -> (r: Option<i32>)
    requires
        from <= to <= chars@.len(),
    ensures
        ({
            let s = chars@.subrange(from as int, to as int);
            match r {
                Some(v) => is_int_lit(s) && in_i32(lit_val(s)) && v as int == lit_val(s),
                None => !(is_int_lit(s) && in_i32(lit_val(s))),
            }
        }),
{
    let ghost s = chars@.subrange(from as int, to as int);
    if from == to {
        return None;
    }
    let neg = chars[from] == '-';
    let start = if neg {
        from + 1
    } else {
        from
    };
    if start == to {
        return None;
    }
    let ghost digits = chars@.subrange(start as int, to as int);
    proof {
        if neg {
            assert(digits =~= s.skip(1));
        } else {
            assert(digits =~= s);
        }
    }
    let mut acc: u64 = 0;
    let mut big = false;
    let mut i = start;
    while i < to
        invariant
            from <= start <= i <= to <= chars@.len(),
            start < to,
            s == chars@.subrange(from as int, to as int),
            digits == chars@.subrange(start as int, to as int),
            neg ==> start == from + 1 && s[0] == '-' && digits == s.skip(1),
            !neg ==> start == from && s[0] != '-' && digits == s,
            all_digits(chars@.subrange(start as int, i as int)),
            !big ==> acc as int == digits_val(chars@.subrange(start as int, i as int)) && acc
                <= 0x8000_0000,
            big ==> digits_val(chars@.subrange(start as int, i as int)) > 0x8000_0000,
        decreases to - i,
    {
        let c = chars[i];
        let ghost pre = chars@.subrange(start as int, i as int);
        let ghost pre1 = chars@.subrange(start as int, i as int + 1);
        proof {
            assert(pre1.drop_last() =~= pre);
            assert(pre1.last() == chars@[i as int]);
        }
        let dig = digit_of(c);
        if dig.is_none() {
            proof {
                let j = i - start;
                assert(digits[j as int] == chars@[i as int]);
                assert(!is_digit(digits[j as int]));
                if neg {
                    assert(is_int_lit(s) ==> is_digit(s.skip(1)[j as int]));
                } else {
                    assert(is_int_lit(s) ==> is_digit(s[j as int]));
                }
            }
            return None;
        }
        let d = dig.unwrap() as u64;
        proof {
            assert(is_digit(chars@[i as int]));
            assert(digits_val(pre1) == digits_val(pre) * 10 + digit_val(chars@[i as int]));
            assert forall|k: int| 0 <= k < pre1.len() implies is_digit(#[trigger] pre1[k]) by {
                if k < pre.len() {
                    assert(pre1[k] == pre[k]);
                    assert(is_digit(pre[k]));
                }
            }
        }
        if big {
            proof {
                crate::numeral::lemma_digits_val_nonneg(pre);
            }
        } else {
            let next = acc * 10 + d;
            if next > 0x8000_0000 {
                big = true;
            } else {
                acc = next;
            }
        }
        i += 1;
    }
    proof {
        assert(chars@.subrange(start as int, to as int) == digits);
        if neg {
            assert(s[0] == '-');
            assert(is_int_lit(s) == (s.len() >= 2 && all_digits(s.skip(1))));
        }
    }
    if big {
        return None;
    }
    if neg {
        let v64: i64 = -(acc as i64);
        Some(v64 as i32)
    } else if acc <= 0x7fff_ffff {
        Some(acc as i32)
    } else {
        None
    }
}

/// Exec mirror of [`SideShape`].
enum SidePart {
    Absent,
    Single(i32),
    Pair(i32, i32),
    Invalid,
}

spec fn side_rep(p: SidePart) -> SideShape {
    match p {
        SidePart::Absent => SideShape::Empty,
        SidePart::Single(a) => SideShape::One(a as int),
        SidePart::Pair(a, b) => SideShape::Two(a as int, b as int),
        SidePart::Invalid => SideShape::Bad,
    }
}

/// Parse one side of the `..` separator, `chars[from..to]`.
fn parse_side(chars: &Vec<char>, from: usize, to: usize) -> (r: SidePart)
    requires
        from <= to <= chars@.len(),
    ensures
        side_rep(r) == side_shape(chars@.subrange(from as int, to as int)),
{
    let ghost s = chars@.subrange(from as int, to as int);
    if from == to {
        return SidePart::Absent;
    }
    let mut j = from;
    while j < to && chars[j] != ','
        invariant
            from <= j <= to <= chars@.len(),
            s == chars@.subrange(from as int, to as int),
            first_at(s, ',', 0) == first_at(s, ',', j - from),
            j < to ==> s[j - from] == chars@[j as int],
        decreases to - j,
    {
        proof {
            assert(s[j - from] != ',');
            assert(first_at(s, ',', j - from) == first_at(s, ',', j - from + 1));
        }
        j += 1;
    }
    if j == to {
        proof {
            assert(first_at(s, ',', to - from) == s.len());
        }
        match parse_int(chars, from, to) {
            Some(v) => SidePart::Single(v),
            None => SidePart::Invalid,
        }
    } else {
        proof {
            assert(s[j - from] == ',');
            assert(first_at(s, ',', j - from) == j - from);
            assert(chars@.subrange(from as int, j as int) =~= s.subrange(0, j - from));
            assert(chars@.subrange(j as int + 1, to as int) =~= s.subrange(
                j - from + 1,
                s.len() as int,
            ));
        }
        let a = parse_int(chars, from, j);
        let b = parse_int(chars, j + 1, to);
        match (a, b) {
            (Some(x), Some(y)) => SidePart::Pair(x, y),
            _ => SidePart::Invalid,
        }
    }
}

/// Compile one whitespace-stripped pattern.
fn compile_chars(t: &Vec<char>, total: u32) -> (r: Result<Generator, DupError>)
    ensures
        match r {
            Ok(g) => spec_compile(t@, total) == Some(g) && wf_gen(g),
            Err(e) => spec_compile(t@, total) is None && e == DupError::MalformedPattern,
        },
{
    let n = t.len();
    let mut i: usize = 0;
    while i < n && t[i] != '.'
        invariant
            i <= n,
            n == t@.len(),
            first_at(t@, '.', 0) == first_at(t@, '.', i as int),
        decreases n - i,
    {
        proof {
            assert(first_at(t@, '.', i as int) == first_at(t@, '.', i as int + 1));
        }
        i += 1;
    }
    proof {
        if i < n {
            assert(first_at(t@, '.', i as int) == i);
        } else {
            assert(first_at(t@, '.', i as int) == n);
        }
    }
    if n - i < 2 {
        return Err(DupError::MalformedPattern);
    }
    if t[i + 1] != '.' {
        return Err(DupError::MalformedPattern);
    }
    let mut j: usize = i + 2;
    while j < n && t[j] != '.'
        invariant
            i + 2 <= j <= n,
            n == t@.len(),
            first_at(t@, '.', i as int + 2) == first_at(t@, '.', j as int),
        decreases n - j,
    {
        proof {
            assert(first_at(t@, '.', j as int) == first_at(t@, '.', j as int + 1));
        }
        j += 1;
    }
    if j < n {
        proof {
            assert(first_at(t@, '.', j as int) == j);
        }
        return Err(DupError::MalformedPattern);
    }
    let head = parse_side(t, 0, i);
    let tail = parse_side(t, i + 2, n);
    let ghost hs = side_shape(t@.subrange(0, i as int));
    let ghost ts = side_shape(t@.subrange(i as int + 2, n as int));
    match (head, tail) {
        (SidePart::Single(a), SidePart::Absent) => Ok(Generator::FromStart { a }),
        (SidePart::Absent, SidePart::Single(a)) => Ok(Generator::ToEnd { a, total }),
        (SidePart::Single(a), SidePart::Single(b)) => Ok(Generator::Cycle { a, b }),
        (SidePart::Pair(a, b), SidePart::Absent) => Ok(Generator::StepFromStart { a, b }),
        (SidePart::Absent, SidePart::Pair(a, b)) => Ok(Generator::StepToEnd { a, b, total }),
        (SidePart::Single(a), SidePart::Pair(b, c)) => {
            if (a < b && b < c) || (a > b && b > c) {
                Ok(Generator::CycleToEnd { a, b, c })
            } else {
                Err(DupError::MalformedPattern)
            }
        },
        (SidePart::Pair(a, b), SidePart::Single(c)) => {
            if (a < b && b < c) || (a > b && b > c) {
                Ok(Generator::CycleFromStart { a, b, c })
            } else {
                Err(DupError::MalformedPattern)
            }
        },
        _ => Err(DupError::MalformedPattern),
    }
}

/// Compile one raw pattern string against the total copy count.
///
/// Whitespace (spaces and tabs) is stripped first; the result is `Ok` exactly
/// when the stripped text matches one of the seven grammar shapes with
/// integers in `i32` range (and, for the three-integer cyclic shapes, a
/// strictly monotonic triple).
pub fn compile(raw: &str, total_copies: u32) -> (r: Result<Generator, DupError>)
    ensures
        match r {
            Ok(g) => spec_compile(strip_ws(raw@), total_copies) == Some(g) && wf_gen(g),
            Err(e) => spec_compile(strip_ws(raw@), total_copies) is None && e
                == DupError::MalformedPattern,
        },
{
    let chars = str_to_char_vec(raw);
    let t = strip_spaces(&chars);
    compile_chars(&t, total_copies)
}

} // verus!
