//! Laws of the compiler and the driver: what each notation shape compiles to
//! and computes, and how the two output disciplines relate.

use vstd::prelude::*;

use crate::engine::{spec_generate, spec_render_copy};
use crate::numeral::{in_i32, int_str, is_digit, is_int_lit, lemma_int_str, lit_val};
use crate::parser::{
    first_at, gen_value, shape_gen, side_shape, spec_compile, strictly_monotonic, Generator,
    SideShape,
};

verus! {

/// `first_at` is the position of the first occurrence: if nothing in
/// `[k, i)` is `c`, and `i` is the end or holds `c`, the scan from `k`
/// stops at `i`.
proof fn lemma_first_at_position(s: Seq<char>, c: char, k: int, i: int)
    requires
        0 <= k <= i <= s.len(),
        forall|j: int| k <= j < i ==> s[j] != c,
        i == s.len() || s[i] == c,
    ensures
        first_at(s, c, k) == i,
    decreases i - k,
{
    if k < i {
        lemma_first_at_position(s, c, k + 1, i);
    }
}

/// The numeral of an in-range integer is an integer literal holding neither
/// a comma nor a dot.
proof fn lemma_int_str_plain(v: int)
    ensures
        is_int_lit(int_str(v)),
        lit_val(int_str(v)) == v,
        int_str(v).len() >= 1,
        forall|i: int| 0 <= i < int_str(v).len() ==> #[trigger] int_str(v)[i] != ',',
        forall|i: int| 0 <= i < int_str(v).len() ==> #[trigger] int_str(v)[i] != '.',
{
    lemma_int_str(v);
    assert forall|i: int| 0 <= i < int_str(v).len() implies #[trigger] int_str(v)[i] != ','
        && int_str(v)[i] != '.' by {
        assert(int_str(v)[i] == '-' || is_digit(int_str(v)[i]));
    }
}

/// A comma-free integer literal is the one-integer side shape.
proof fn lemma_side_one(x: Seq<char>)
    requires
        is_int_lit(x),
        in_i32(lit_val(x)),
        forall|i: int| 0 <= i < x.len() ==> #[trigger] x[i] != ',',
    ensures
        side_shape(x) == SideShape::One(lit_val(x)),
{
    lemma_first_at_position(x, ',', 0, x.len() as int);
}

/// Two comma-free integer literals joined by a comma are the two-integer
/// side shape.
proof fn lemma_side_two(x: Seq<char>, y: Seq<char>)
    requires
        is_int_lit(x),
        in_i32(lit_val(x)),
        is_int_lit(y),
        in_i32(lit_val(y)),
        forall|i: int| 0 <= i < x.len() ==> #[trigger] x[i] != ',',
    ensures
        side_shape(x + seq![','] + y) == SideShape::Two(lit_val(x), lit_val(y)),
{
    let s = x + seq![','] + y;
    assert(s[x.len() as int] == ',');
    assert(forall|j: int| 0 <= j < x.len() ==> s[j] == x[j]);
    lemma_first_at_position(s, ',', 0, x.len() as int);
    assert(s.subrange(0, x.len() as int) =~= x);
    assert(s.subrange(x.len() as int + 1, s.len() as int) =~= y);
}

/// Compiling `pre..post`, with both sides dot-free, dispatches on the two
/// side shapes.
proof fn lemma_compile_built(pre: Seq<char>, post: Seq<char>, total: u32)
    requires
        forall|i: int| 0 <= i < pre.len() ==> #[trigger] pre[i] != '.',
        forall|i: int| 0 <= i < post.len() ==> #[trigger] post[i] != '.',
    ensures
        spec_compile(pre + seq!['.', '.'] + post, total) == shape_gen(
            side_shape(pre),
            side_shape(post),
            total,
        ),
{
    let t = pre + seq!['.', '.'] + post;
    assert(t[pre.len() as int] == '.');
    assert(forall|j: int| 0 <= j < pre.len() ==> t[j] == pre[j]);
    lemma_first_at_position(t, '.', 0, pre.len() as int);
    assert(t[pre.len() as int + 1] == '.');
    assert(forall|j: int|
        pre.len() + 2 <= j < t.len() ==> t[j] == post[j - pre.len() - 2] && t[j] != '.');
    lemma_first_at_position(t, '.', pre.len() as int + 2, t.len() as int);
    assert(t.subrange(0, pre.len() as int) =~= pre);
    assert(t.subrange(pre.len() as int + 2, t.len() as int) =~= post);
}

/// `A..` compiles, for every copy count, to the generator whose value at
/// every index is `A + idx`.
pub proof fn law_from_start(a: int, total: u32, idx: int)
    requires
        in_i32(a),
    ensures
        spec_compile(int_str(a) + seq!['.', '.'], total) == Some(
            Generator::FromStart { a: a as i32 },
        ),
        gen_value(Generator::FromStart { a: a as i32 }, idx) == a + idx,
{
    lemma_int_str_plain(a);
    lemma_side_one(int_str(a));
    lemma_compile_built(int_str(a), Seq::empty(), total);
    assert(int_str(a) + seq!['.', '.'] + Seq::<char>::empty() =~= int_str(a) + seq!['.', '.']);
}

/// `A,B..` compiles to the generator whose value at every index is
/// `A + idx*(B-A)`.
pub proof fn law_step_from_start(a: int, b: int, total: u32, idx: int)
    requires
        in_i32(a),
        in_i32(b),
    ensures
        spec_compile(int_str(a) + seq![','] + int_str(b) + seq!['.', '.'], total) == Some(
            Generator::StepFromStart { a: a as i32, b: b as i32 },
        ),
        gen_value(Generator::StepFromStart { a: a as i32, b: b as i32 }, idx) == a + idx * (b - a),
{
    lemma_int_str_plain(a);
    lemma_int_str_plain(b);
    let pre = int_str(a) + seq![','] + int_str(b);
    lemma_side_two(int_str(a), int_str(b));
    assert(forall|i: int| 0 <= i < pre.len() ==> #[trigger] pre[i] != '.');
    lemma_compile_built(pre, Seq::empty(), total);
    assert(pre + seq!['.', '.'] + Seq::<char>::empty() =~= pre + seq!['.', '.']);
}

/// `..A` compiles to the generator that reaches `A` on the last copy: its
/// value is `A` at index `N-1` and `A - (N-1)` at index `0`.
pub proof fn law_to_end(a: int, total: u32)
    requires
        in_i32(a),
    ensures
        spec_compile(seq!['.', '.'] + int_str(a), total) == Some(
            Generator::ToEnd { a: a as i32, total },
        ),
        gen_value(Generator::ToEnd { a: a as i32, total }, total as int - 1) == a,
        gen_value(Generator::ToEnd { a: a as i32, total }, 0) == a - (total - 1),
{
    lemma_int_str_plain(a);
    lemma_side_one(int_str(a));
    lemma_compile_built(Seq::empty(), int_str(a), total);
    assert(Seq::<char>::empty() + seq!['.', '.'] + int_str(a) =~= seq!['.', '.'] + int_str(a));
}

/// `..A,B` compiles to the generator whose last two values are `A` then `B`:
/// its value at index `idx` is `B - (N-1-idx)*(B-A)`.
pub proof fn law_step_to_end(a: int, b: int, total: u32, idx: int)
    requires
        in_i32(a),
        in_i32(b),
    ensures
        spec_compile(seq!['.', '.'] + int_str(a) + seq![','] + int_str(b), total) == Some(
            Generator::StepToEnd { a: a as i32, b: b as i32, total },
        ),
        gen_value(Generator::StepToEnd { a: a as i32, b: b as i32, total }, idx) == b - (total - 1
            - idx) * (b - a),
{
    lemma_int_str_plain(a);
    lemma_int_str_plain(b);
    let post = int_str(a) + seq![','] + int_str(b);
    lemma_side_two(int_str(a), int_str(b));
    assert(forall|i: int| 0 <= i < post.len() ==> #[trigger] post[i] != '.');
    lemma_compile_built(Seq::empty(), post, total);
    assert(Seq::<char>::empty() + seq!['.', '.'] + post =~= seq!['.', '.'] + int_str(a) + seq![',']
        + int_str(b));
}

/// `A..B` compiles to the bounce cycle between `A` and `B`.
pub proof fn law_cycle(a: int, b: int, total: u32)
    requires
        in_i32(a),
        in_i32(b),
    ensures
        spec_compile(int_str(a) + seq!['.', '.'] + int_str(b), total) == Some(
            Generator::Cycle { a: a as i32, b: b as i32 },
        ),
{
    lemma_int_str_plain(a);
    lemma_int_str_plain(b);
    lemma_side_one(int_str(a));
    lemma_side_one(int_str(b));
    lemma_compile_built(int_str(a), int_str(b), total);
}

/// The bounce cycle counts from `A` toward `B` and wraps: ascending it is
/// `A + (idx % (B-A+1))`, descending `A - (idx % (A-B+1))`, so it repeats
/// with period `|B-A| + 1`.
pub proof fn law_cycle_values(a: int, b: int, idx: int)
    requires
        in_i32(a),
        in_i32(b),
        0 <= idx,
    ensures
        a < b ==> gen_value(Generator::Cycle { a: a as i32, b: b as i32 }, idx) == a + (idx % (b - a
            + 1)),
        a >= b ==> gen_value(Generator::Cycle { a: a as i32, b: b as i32 }, idx) == a - (idx % (a
            - b + 1)),
        gen_value(
            Generator::Cycle { a: a as i32, b: b as i32 },
            idx + (if a < b {
                b - a + 1
            } else {
                a - b + 1
            }),
        ) == gen_value(Generator::Cycle { a: a as i32, b: b as i32 }, idx),
{
    let p: int = if a < b {
        b - a + 1
    } else {
        a - b + 1
    };
    vstd::arithmetic::div_mod::lemma_mod_add_multiples_vanish(idx, p);
    assert((p + idx) % p == idx % p);
}

/// `1..3` compiles, for every copy count, to the cycle whose values run
/// `1,2,3,1,2,3,...` from index `0`: the value is `1 + (idx % 3)`, with
/// period `3`.
pub proof fn law_cycle_one_two_three(total: u32, idx: int)
    requires
        0 <= idx,
    ensures
        spec_compile(seq!['1', '.', '.', '3'], total) == Some(Generator::Cycle { a: 1, b: 3 }),
        gen_value(Generator::Cycle { a: 1, b: 3 }, idx) == 1 + (idx % 3),
        gen_value(Generator::Cycle { a: 1, b: 3 }, idx + 3) == gen_value(
            Generator::Cycle { a: 1, b: 3 },
            idx,
        ),
{
    law_cycle(1, 3, total);
    assert(crate::numeral::dec_digits(1) =~= seq!['1']);
    assert(crate::numeral::dec_digits(3) =~= seq!['3']);
    assert(int_str(1) + seq!['.', '.'] + int_str(3) =~= seq!['1', '.', '.', '3']);
    law_cycle_values(1, 3, idx);
}

/// `3..1` compiles, for every copy count, to the cycle whose values run
/// `3,2,1,3,2,1,...` from index `0`: the value is `3 - (idx % 3)`, with
/// period `3`.
pub proof fn law_cycle_three_two_one(total: u32, idx: int)
    requires
        0 <= idx,
    ensures
        spec_compile(seq!['3', '.', '.', '1'], total) == Some(Generator::Cycle { a: 3, b: 1 }),
        gen_value(Generator::Cycle { a: 3, b: 1 }, idx) == 3 - (idx % 3),
        gen_value(Generator::Cycle { a: 3, b: 1 }, idx + 3) == gen_value(
            Generator::Cycle { a: 3, b: 1 },
            idx,
        ),
{
    law_cycle(3, 1, total);
    assert(crate::numeral::dec_digits(1) =~= seq!['1']);
    assert(crate::numeral::dec_digits(3) =~= seq!['3']);
    assert(int_str(3) + seq!['.', '.'] + int_str(1) =~= seq!['3', '.', '.', '1']);
    law_cycle_values(3, 1, idx);
}

/// `A..B,C` compiles exactly when `A,B,C` are strictly monotonic; the
/// non-monotonic triple is rejected as malformed.
pub proof fn law_cycle_to_end(a: int, b: int, c: int, total: u32)
    requires
        in_i32(a),
        in_i32(b),
        in_i32(c),
    ensures
        spec_compile(
            int_str(a) + seq!['.', '.'] + int_str(b) + seq![','] + int_str(c),
            total,
        ) == (if strictly_monotonic(a, b, c) {
            Some(Generator::CycleToEnd { a: a as i32, b: b as i32, c: c as i32 })
        } else {
            None::<Generator>
        }),
{
    lemma_int_str_plain(a);
    lemma_int_str_plain(b);
    lemma_int_str_plain(c);
    lemma_side_one(int_str(a));
    let post = int_str(b) + seq![','] + int_str(c);
    lemma_side_two(int_str(b), int_str(c));
    assert(forall|i: int| 0 <= i < post.len() ==> #[trigger] post[i] != '.');
    lemma_compile_built(int_str(a), post, total);
    assert(int_str(a) + seq!['.', '.'] + post =~= int_str(a) + seq!['.', '.'] + int_str(b)
        + seq![','] + int_str(c));
}

/// `A,B..C` compiles exactly when `A,B,C` are strictly monotonic.
pub proof fn law_cycle_from_start(a: int, b: int, c: int, total: u32)
    requires
        in_i32(a),
        in_i32(b),
        in_i32(c),
    ensures
        spec_compile(
            int_str(a) + seq![','] + int_str(b) + seq!['.', '.'] + int_str(c),
            total,
        ) == (if strictly_monotonic(a, b, c) {
            Some(Generator::CycleFromStart { a: a as i32, b: b as i32, c: c as i32 })
        } else {
            None::<Generator>
        }),
{
    lemma_int_str_plain(a);
    lemma_int_str_plain(b);
    lemma_int_str_plain(c);
    let pre = int_str(a) + seq![','] + int_str(b);
    lemma_side_two(int_str(a), int_str(b));
    lemma_side_one(int_str(c));
    assert(forall|i: int| 0 <= i < pre.len() ==> #[trigger] pre[i] != '.');
    lemma_compile_built(pre, int_str(c), total);
}

/// The template repeated `n` times.
pub open spec fn repeat_text(t: Seq<char>, n: int) -> Seq<char>
    decreases n,
{
    if n <= 0 {
        Seq::empty()
    } else {
        repeat_text(t, n - 1) + t
    }
}

/// With no generators, the output is the template unmodified, repeated `n`
/// times and concatenated.
pub proof fn law_no_generators(template: Seq<char>, n: int)
    ensures
        spec_generate(template, n, Seq::empty()) == repeat_text(template, n),
    decreases n,
{
    if n > 0 {
        law_no_generators(template, n - 1);
    }
}

/// The concatenation of a list of texts, in order.
pub open spec fn concat_texts(parts: Seq<Seq<char>>) -> Seq<char>
    decreases parts.len(),
{
    if parts.len() == 0 {
        Seq::empty()
    } else {
        concat_texts(parts.drop_last()) + parts.last()
    }
}

/// Streaming equals buffered: when each part is the rendered copy for its
/// index, the concatenation of the parts is byte for byte the buffered
/// output for the same template, count and generators.
pub proof fn law_streaming_matches_buffered(
    template: Seq<char>,
    gens: Seq<(Seq<char>, Generator)>,
    parts: Seq<Seq<char>>,
)
    requires
        forall|k: int|
            0 <= k < parts.len() ==> #[trigger] parts[k] == spec_render_copy(template, gens, k),
    ensures
        concat_texts(parts) == spec_generate(template, parts.len() as int, gens),
    decreases parts.len(),
{
    if parts.len() > 0 {
        law_streaming_matches_buffered(template, gens, parts.drop_last());
    }
}

/// Zero copies produce empty output, whatever the generators.
pub proof fn law_zero_copies(template: Seq<char>, gens: Seq<(Seq<char>, Generator)>)
    ensures
        spec_generate(template, 0, gens) == Seq::<char>::empty(),
{
}

} // verus!
