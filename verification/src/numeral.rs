//! Decimal numerals: the spec-level meaning of digit strings and the exec
//! conversion from an integer to its decimal text.

use vstd::prelude::*;

verus! {

/// `c` is one of the ten ASCII decimal digits.
pub open spec fn is_digit(c: char) -> bool {
    48 <= c as int && c as int <= 57
}

/// Numeric value of a decimal digit character.
pub open spec fn digit_val(c: char) -> int {
    c as int - 48
}

pub open spec fn all_digits(s: Seq<char>) -> bool {
    forall|i: int| 0 <= i < s.len() ==> is_digit(#[trigger] s[i])
}

/// Value of a digit string, most significant digit first; 0 when empty.
pub open spec fn digits_val(s: Seq<char>) -> int
    decreases s.len(),
{
    if s.len() == 0 {
        0
    } else {
        digits_val(s.drop_last()) * 10 + digit_val(s.last())
    }
}

/// The shape `-?[0-9]+`: an optional minus sign, then at least one digit.
pub open spec fn is_int_lit(s: Seq<char>) -> bool {
    if s.len() >= 1 && s[0] == '-' {
        s.len() >= 2 && all_digits(s.skip(1))
    } else {
        s.len() >= 1 && all_digits(s)
    }
}

/// Signed value of an integer literal.
pub open spec fn lit_val(s: Seq<char>) -> int
    recommends
        is_int_lit(s),
{
    if s.len() >= 1 && s[0] == '-' {
        -digits_val(s.skip(1))
    } else {
        digits_val(s)
    }
}

pub open spec fn in_i32(v: int) -> bool {
    -0x8000_0000 <= v <= 0x7fff_ffff
}

/// The digit character for a value in `0..10`.
pub open spec fn digit_char(d: int) -> char
    recommends
        0 <= d < 10,
{
    if d == 0 {
        '0'
    } else if d == 1 {
        '1'
    } else if d == 2 {
        '2'
    } else if d == 3 {
        '3'
    } else if d == 4 {
        '4'
    } else if d == 5 {
        '5'
    } else if d == 6 {
        '6'
    } else if d == 7 {
        '7'
    } else if d == 8 {
        '8'
    } else {
        '9'
    }
}

/// Decimal digit string of a non-negative integer, without leading zeros.
pub open spec fn dec_digits(n: int) -> Seq<char>
    recommends
        n >= 0,
    decreases n,
{
    if n < 10 {
        seq![digit_char(n)]
    } else {
        dec_digits(n / 10).push(digit_char(n % 10))
    }
}

/// Decimal numeral of an integer, exactly as Rust's integer formatting and
/// `str::parse` write it.
pub open spec fn int_str(v: int) -> Seq<char> {
    if v < 0 {
        seq!['-'] + dec_digits(-v)
    } else {
        dec_digits(v)
    }
}

pub proof fn lemma_digits_val_nonneg(s: Seq<char>)
    requires
        all_digits(s),
    ensures
        digits_val(s) >= 0,
    decreases s.len(),
{
    if s.len() > 0 {
        assert(all_digits(s.drop_last()));
        lemma_digits_val_nonneg(s.drop_last());
    }
}

/// The digit string of `n` is non-empty, all digits, and reads back as `n`.
pub proof fn lemma_dec_digits(n: int)
    requires
        n >= 0,
    ensures
        dec_digits(n).len() >= 1,
        all_digits(dec_digits(n)),
        digits_val(dec_digits(n)) == n,
    decreases n,
{
    if n < 10 {
        let s = seq![digit_char(n)];
        assert(s.drop_last() =~= Seq::<char>::empty());
        assert(digits_val(Seq::<char>::empty()) == 0);
        assert(digits_val(s) == digit_val(digit_char(n)));
        assert(digit_val(digit_char(n)) == n);
    } else {
        lemma_dec_digits(n / 10);
        let p = dec_digits(n / 10);
        let s = p.push(digit_char(n % 10));
        assert(s.drop_last() =~= p);
        assert(s.last() == digit_char(n % 10));
        vstd::arithmetic::div_mod::lemma_fundamental_div_mod(n, 10);
        assert(digits_val(s) == n);
        assert forall|i: int| 0 <= i < s.len() implies is_digit(#[trigger] s[i]) by {
            if i < p.len() {
                assert(is_digit(p[i]));
            }
        }
    }
}

/// The numeral of `v` is an integer literal and reads back as `v`, and every
/// character of it is the minus sign or a digit.
pub proof fn lemma_int_str(v: int)
    ensures
        is_int_lit(int_str(v)),
        lit_val(int_str(v)) == v,
        int_str(v).len() >= 1,
        forall|i: int|
            0 <= i < int_str(v).len() ==> (#[trigger] int_str(v)[i] == '-' || is_digit(
                int_str(v)[i],
            )),
{
    if v < 0 {
        lemma_dec_digits(-v);
        let s = seq!['-'] + dec_digits(-v);
        assert(s[0] == '-');
        assert(s.skip(1) =~= dec_digits(-v));
    } else {
        lemma_dec_digits(v);
        assert(is_digit(int_str(v)[0]));
    }
}

fn digit_to_char(d: u8) -> (c: char)
    requires
        d < 10,
    ensures
        c == digit_char(d as int),
{
    if d == 0 {
        '0'
    } else if d == 1 {
        '1'
    } else if d == 2 {
        '2'
    } else if d == 3 {
        '3'
    } else if d == 4 {
        '4'
    } else if d == 5 {
        '5'
    } else if d == 6 {
        '6'
    } else if d == 7 {
        '7'
    } else if d == 8 {
        '8'
    } else {
        '9'
    }
}

/// Decimal text of `v`, as a character vector.
pub fn int_to_chars(v: i128) -> (out: Vec<char>)
    ensures
        out@ == int_str(v as int),
{
    let neg = v < 0;
    let mag0: u128 = if v < 0 {
        ((-(v + 1)) as u128) + 1
    } else {
        v as u128
    };
    let mut out: Vec<char> = Vec::new();
    if mag0 == 0 {
        out.push('0');
        assert(out@ =~= dec_digits(0));
        return out;
    }
    let mut m: u128 = mag0;
    while m > 0
        invariant
            m <= mag0,
            mag0 > 0,
            m > 0 ==> dec_digits(mag0 as int) == dec_digits(m as int) + out@,
            m == 0 ==> out@ == dec_digits(mag0 as int),
        decreases m,
    {
        let d: u8 = (m % 10) as u8;
        let c = digit_to_char(d);
        let ghost old_out = out@;
        let ghost old_m = m as int;
        out.insert(0, c);
        assert(out@ =~= seq![c] + old_out);
        m = m / 10;
        proof {
            if old_m >= 10 {
                assert(dec_digits(old_m) == dec_digits(old_m / 10).push(digit_char(old_m % 10)));
                assert(dec_digits(old_m / 10).push(c) =~= dec_digits(old_m / 10) + seq![c]);
                assert(dec_digits(m as int) + out@ =~= (dec_digits(old_m / 10) + seq![c])
                    + old_out);
                assert(dec_digits(mag0 as int) == dec_digits(m as int) + out@);
            } else {
                assert(dec_digits(old_m) =~= seq![c]);
                assert(out@ =~= dec_digits(old_m) + old_out);
            }
        }
    }
    if neg {
        let ghost digits = out@;
        out.insert(0, '-');
        assert(out@ =~= seq!['-'] + digits);
        assert(mag0 as int == -(v as int));
    } else {
        assert(mag0 as int == v as int);
    }
    out
}

} // verus!
