//! The duplication driver: literal placeholder substitution, the buffered and
//! streaming output disciplines, and the invocation state they run on.

use vstd::prelude::*;
use vstd::string::StrSliceExecFns;

use crate::numeral::{all_digits, digits_val, int_str, int_to_chars, is_digit};
use crate::parser::{
    compile, evaluate, gen_value, spec_compile, strip_ws, wf_gen, DupError, Generator,
};

verus! {

/// A placeholder together with its compiled generator.
#[derive(Clone, Debug, PartialEq, Eq)]
pub struct CompiledGenerator {
    pub placeholder: String,
    pub gen: Generator,
}

impl View for CompiledGenerator {
    type V = (Seq<char>, Generator);

    open spec fn view(&self) -> (Seq<char>, Generator) {
        (self.placeholder@, self.gen)
    }
}

pub open spec fn gens_view(gens: Seq<CompiledGenerator>) -> Seq<(Seq<char>, Generator)> {
    gens.map_values(|cg: CompiledGenerator| cg@)
}

pub open spec fn wf_gens(gens: Seq<(Seq<char>, Generator)>) -> bool {
    forall|k: int| 0 <= k < gens.len() ==> wf_gen(#[trigger] gens[k].1)
}

/// Generators of a pair list: a pair with an empty placeholder or an empty
/// pattern is skipped; any malformed pattern fails the whole batch.
pub open spec fn spec_parse_sequence(ps: Seq<(String, String)>, total: u32) -> Option<
    Seq<(Seq<char>, Generator)>,
>
    decreases ps.len(),
{
    if ps.len() == 0 {
        Some(Seq::empty())
    } else {
        match spec_parse_sequence(ps.drop_last(), total) {
            Option::None => None,
            Option::Some(done) => {
                let p = ps.last();
                if p.0@.len() == 0 || p.1@.len() == 0 {
                    Some(done)
                } else {
                    match spec_compile(strip_ws(p.1@), total) {
                        Option::Some(g) => Some(done.push((p.0@, g))),
                        Option::None => None,
                    }
                }
            },
        }
    }
}

/// Once a prefix of the pair list fails to compile, the whole list does.
proof fn lemma_parse_sequence_prefix_none(ps: Seq<(String, String)>, k: int, total: u32)
    requires
        0 <= k <= ps.len(),
        spec_parse_sequence(ps.take(k), total) is None,
    ensures
        spec_parse_sequence(ps, total) is None,
    decreases ps.len() - k,
{
    if k == ps.len() {
        assert(ps.take(k) =~= ps);
    } else {
        assert(ps.take(k + 1).drop_last() =~= ps.take(k));
        assert(spec_parse_sequence(ps.take(k + 1), total) is None);
        lemma_parse_sequence_prefix_none(ps, k + 1, total);
    }
}

/// Compile every non-inert pattern pair.
///
/// A pair whose placeholder or pattern text is empty contributes no generator
/// and no error; the first malformed pattern aborts the whole batch, and no
/// generator list is produced.
pub fn parse_sequence(pairs: &Vec<(String, String)>, num: u32) -> (r: Result<
    Vec<CompiledGenerator>,
    DupError,
>)
    ensures
        match r {
            Ok(gens) => spec_parse_sequence(pairs@, num) == Some(gens_view(gens@)) && wf_gens(
                gens_view(gens@),
            ),
            Err(e) => spec_parse_sequence(pairs@, num) is None && e == DupError::MalformedPattern,
        },
{
    let mut gens: Vec<CompiledGenerator> = Vec::new();
    let n = pairs.len();
    let mut i: usize = 0;
    while i < n
        invariant
            i <= n,
            n == pairs@.len(),
            spec_parse_sequence(pairs@.take(i as int), num) == Some(gens_view(gens@)),
            wf_gens(gens_view(gens@)),
        decreases n - i,
    {
        let p = &pairs[i];
        proof {
            assert(pairs@.take(i as int + 1).drop_last() =~= pairs@.take(i as int));
            assert(pairs@.take(i as int + 1).last() == pairs@[i as int]);
        }
        if !p.0.as_str().is_empty() && !p.1.as_str().is_empty() {
            match compile(p.1.as_str(), num) {
                Ok(g) => {
                    let cg = CompiledGenerator { placeholder: p.0.clone(), gen: g };
                    let ghost before = gens@;
                    gens.push(cg);
                    proof {
                        assert(gens_view(gens@) =~= gens_view(before).push(
                            (pairs@[i as int].0@, g),
                        ));
                    }
                },
                Err(_) => {
                    proof {
                        lemma_parse_sequence_prefix_none(pairs@, i as int + 1, num);
                    }
                    return Err(DupError::MalformedPattern);
                },
            }
        }
        i += 1;
    }
    proof {
        assert(pairs@.take(n as int) =~= pairs@);
    }
    Ok(gens)
}

/// Literal, left-to-right, non-overlapping substring replacement, exactly as
/// `str::replace` performs it for a non-empty needle; a needle the text is
/// too short for leaves the tail unchanged. Callers never pass an empty
/// needle; for completeness an empty needle leaves the text unchanged.
pub open spec fn spec_replace(s: Seq<char>, from: Seq<char>, to: Seq<char>) -> Seq<char>
    decreases s.len(),
{
    if from.len() == 0 || s.len() < from.len() {
        s
    } else if s.take(from.len() as int) == from {
        to + spec_replace(s.skip(from.len() as int), from, to)
    } else {
        seq![s[0]] + spec_replace(s.skip(1), from, to)
    }
}

/// A fresh vector with the same characters.
fn copy_chars(v: &Vec<char>) -> (out: Vec<char>)
    ensures
        out@ == v@,
{
    let mut out: Vec<char> = Vec::new();
    let mut k: usize = 0;
    while k < v.len()
        invariant
            k <= v@.len(),
            out@ == v@.take(k as int),
        decreases v@.len() - k,
    {
        out.push(v[k]);
        assert(v@.take(k as int + 1) =~= v@.take(k as int).push(v@[k as int]));
        k += 1;
    }
    assert(v@.take(v@.len() as int) =~= v@);
    out
}

/// Do `s[at .. at+from.len()]` and `from` coincide?
fn eq_range(s: &Vec<char>, at: usize, from: &Vec<char>) -> (b: bool)
    requires
        at + from@.len() <= s@.len(),
    ensures
        b == (s@.subrange(at as int, at as int + from@.len() as int) == from@),
{
    let flen = from.len();
    let slen = s.len();
    let mut k: usize = 0;
    while k < flen
        invariant
            k <= flen,
            flen == from@.len(),
            slen == s@.len(),
            at + flen <= slen,
            forall|m: int| 0 <= m < k ==> s@[at + m] == from@[m],
        decreases flen - k,
    {
        if s[at + k] != from[k] {
            proof {
                assert(s@.subrange(at as int, at as int + flen as int)[k as int] == s@[at + k]);
            }
            return false;
        }
        k += 1;
    }
    proof {
        assert(s@.subrange(at as int, at as int + flen as int) =~= from@);
    }
    true
}

/// Replace every occurrence of `from` in `s` by `to`, left to right.
fn replace_chars(s: &Vec<char>, from: &Vec<char>, to: &Vec<char>) -> (out: Vec<char>)
    ensures
        out@ == spec_replace(s@, from@, to@),
{
    let flen = from.len();
    let mut out: Vec<char> = Vec::new();
    if flen == 0 {
        return copy_chars(s);
    }
    let slen = s.len();
    proof {
        assert(s@.skip(0) =~= s@);
        assert(Seq::<char>::empty() + spec_replace(s@, from@, to@) =~= spec_replace(
            s@,
            from@,
            to@,
        ));
    }
    let mut i: usize = 0;
    while i < slen
        invariant
            i <= slen,
            slen == s@.len(),
            flen == from@.len(),
            flen > 0,
            spec_replace(s@, from@, to@) == out@ + spec_replace(s@.skip(i as int), from@, to@),
        decreases slen - i,
    {
        let ghost rem = s@.skip(i as int);
        proof {
            assert(rem[0] == s@[i as int]);
            assert(rem.skip(1) =~= s@.skip(i as int + 1));
        }
        let matched = if flen <= slen - i {
            let m = eq_range(s, i, from);
            proof {
                assert(rem.take(flen as int) =~= s@.subrange(i as int, i as int + flen as int));
            }
            m
        } else {
            false
        };
        if matched {
            let ghost before = out@;
            let mut piece = copy_chars(to);
            out.append(&mut piece);
            proof {
                assert(rem.skip(flen as int) =~= s@.skip(i as int + flen as int));
                assert(spec_replace(rem, from@, to@) == to@ + spec_replace(
                    rem.skip(flen as int),
                    from@,
                    to@,
                ));
                assert(out@ + spec_replace(s@.skip(i as int + flen as int), from@, to@) =~= before
                    + spec_replace(rem, from@, to@));
            }
            i += flen;
        } else {
            let ghost before = out@;
            out.push(s[i]);
            proof {
                if rem.len() < flen {
                    assert(spec_replace(rem, from@, to@) == rem);
                    assert(spec_replace(rem.skip(1), from@, to@) == rem.skip(1));
                    assert(rem =~= seq![rem[0]] + rem.skip(1));
                } else {
                    assert(spec_replace(rem, from@, to@) == seq![rem[0]] + spec_replace(
                        rem.skip(1),
                        from@,
                        to@,
                    ));
                }
                assert(out@ + spec_replace(s@.skip(i as int + 1), from@, to@) =~= before
                    + spec_replace(rem, from@, to@));
            }
            i += 1;
        }
    }
    proof {
        assert(s@.skip(s@.len() as int) =~= Seq::<char>::empty());
    }
    out
}

/// The text of one copy: the template, with each generator's placeholder
/// replaced in pair order by the decimal text of its value at `idx`.
pub open spec fn spec_render_copy(
    template: Seq<char>,
    gens: Seq<(Seq<char>, Generator)>,
    idx: int,
) -> Seq<char>
    decreases gens.len(),
{
    if gens.len() == 0 {
        template
    } else {
        spec_render_copy(
            spec_replace(template, gens[0].0, int_str(gen_value(gens[0].1, idx))),
            gens.skip(1),
            idx,
        )
    }
}

/// The buffered output: the copies for indices `0..n`, concatenated in order
/// with no separator.
pub open spec fn spec_generate(
    template: Seq<char>,
    n: int,
    gens: Seq<(Seq<char>, Generator)>,
) -> Seq<char>
    decreases n,
{
    if n <= 0 {
        Seq::empty()
    } else {
        spec_generate(template, n - 1, gens) + spec_render_copy(template, gens, n - 1)
    }
}

/// Relies on `String: FromIterator<char>`: collecting an iterator over the
/// vector's characters yields the string of exactly those characters.
#[verifier::external_body]
fn chars_to_string(v: &Vec<char>) -> (s: String)
    ensures
        s@ == v@,
{
    v.iter().collect()
}

fn render_copy_chars(tmpl: &Vec<char>, generators: &Vec<CompiledGenerator>, idx: u32) -> (out: Vec<
    char,
>)
    requires
        wf_gens(gens_view(generators@)),
    ensures
        out@ == spec_render_copy(tmpl@, gens_view(generators@), idx as int),
{
    let ghost gs = gens_view(generators@);
    let mut s = copy_chars(tmpl);
    let n = generators.len();
    let mut j: usize = 0;
    proof {
        assert(gs.skip(0) =~= gs);
    }
    while j < n
        invariant
            j <= n,
            n == generators@.len(),
            gs == gens_view(generators@),
            wf_gens(gs),
            spec_render_copy(tmpl@, gs, idx as int) == spec_render_copy(
                s@,
                gs.skip(j as int),
                idx as int,
            ),
        decreases n - j,
    {
        let g = &generators[j];
        proof {
            assert(gs[j as int] == generators@[j as int]@);
            assert(wf_gen(gs[j as int].1));
        }
        let v = evaluate(&g.gen, idx);
        let val_chars = int_to_chars(v);
        let ph = crate::parser::str_to_char_vec(g.placeholder.as_str());
        let next = replace_chars(&s, &ph, &val_chars);
        proof {
            let tail = gs.skip(j as int);
            assert(tail[0] == gs[j as int]);
            assert(tail.skip(1) =~= gs.skip(j as int + 1));
            assert(spec_render_copy(s@, tail, idx as int) == spec_render_copy(
                spec_replace(s@, gs[j as int].0, int_str(gen_value(gs[j as int].1, idx as int))),
                gs.skip(j as int + 1),
                idx as int,
            ));
        }
        s = next;
        j += 1;
    }
    proof {
        assert(gs.skip(n as int) =~= Seq::<(Seq<char>, Generator)>::empty());
    }
    s
}

/// The text of the copy at index `idx`: the streaming discipline produces
/// exactly these strings, one per index, in ascending order.
pub fn render_copy(template: &str, generators: &Vec<CompiledGenerator>, idx: u32) -> (out: String)
    requires
        wf_gens(gens_view(generators@)),
    ensures
        out@ == spec_render_copy(template@, gens_view(generators@), idx as int),
{
    let tmpl = crate::parser::str_to_char_vec(template);
    let chars = render_copy_chars(&tmpl, generators, idx);
    chars_to_string(&chars)
}

/// The buffered driver: every copy for indices `0..total_copies`,
/// concatenated in order into one string.
pub fn generate(template: &str, total_copies: u32, generators: &Vec<CompiledGenerator>) -> (out:
    String)
    requires
        wf_gens(gens_view(generators@)),
    ensures
        out@ == spec_generate(template@, total_copies as int, gens_view(generators@)),
{
    let tmpl = crate::parser::str_to_char_vec(template);
    let mut out: Vec<char> = Vec::new();
    let mut i: u32 = 0;
    while i < total_copies
        invariant
            i <= total_copies,
            tmpl@ == template@,
            wf_gens(gens_view(generators@)),
            out@ == spec_generate(template@, i as int, gens_view(generators@)),
        decreases total_copies - i,
    {
        let mut copy = render_copy_chars(&tmpl, generators, i);
        out.append(&mut copy);
        i += 1;
    }
    chars_to_string(&out)
}

/// The copy-count text is accepted exactly as `str::parse::<u32>` accepts it:
/// an optional plus sign, then at least one digit, with the value in range.
pub open spec fn is_count(s: Seq<char>) -> bool {
    let d = if s.len() >= 1 && s[0] == '+' {
        s.skip(1)
    } else {
        s
    };
    d.len() >= 1 && all_digits(d) && digits_val(d) <= 0xffff_ffff
}

pub open spec fn count_val(s: Seq<char>) -> int
    recommends
        is_count(s),
{
    let d = if s.len() >= 1 && s[0] == '+' {
        s.skip(1)
    } else {
        s
    };
    digits_val(d)
}

/// Parse the copy-count text.
fn parse_count(s: &str) -> (r: Option<u32>)
    ensures
        match r {
            Some(c) => is_count(s@) && c as int == count_val(s@),
            None => !is_count(s@),
        },
{
    let chars = crate::parser::str_to_char_vec(s);
    let n = chars.len();
    if n == 0 {
        return None;
    }
    let plus = chars[0] == '+';
    let start: usize = if plus {
        1
    } else {
        0
    };
    if start == n {
        return None;
    }
    let ghost d = if plus {
        s@.skip(1)
    } else {
        s@
    };
    proof {
        assert(chars@.subrange(start as int, n as int) =~= d);
    }
    let mut acc: u64 = 0;
    let mut big = false;
    let mut i = start;
    while i < n
        invariant
            start <= i <= n == chars@.len(),
            start < n,
            chars@ == s@,
            d == chars@.subrange(start as int, n as int),
            plus ==> start == 1 && s@[0] == '+',
            !plus ==> start == 0 && s@[0] != '+',
            d == (if s@.len() >= 1 && s@[0] == '+' {
                s@.skip(1)
            } else {
                s@
            }),
            all_digits(chars@.subrange(start as int, i as int)),
            !big ==> acc as int == digits_val(chars@.subrange(start as int, i as int)) && acc
                <= 0xffff_ffff,
            big ==> digits_val(chars@.subrange(start as int, i as int)) > 0xffff_ffff,
        decreases n - i,
    {
        let c = chars[i];
        let ghost pre = chars@.subrange(start as int, i as int);
        let ghost pre1 = chars@.subrange(start as int, i as int + 1);
        proof {
            assert(pre1.drop_last() =~= pre);
            assert(pre1.last() == chars@[i as int]);
        }
        let dig = crate::parser::digit_of(c);
        if dig.is_none() {
            proof {
                let j = i - start;
                assert(d[j as int] == chars@[i as int]);
                assert(!is_digit(d[j as int]));
            }
            return None;
        }
        let dv = dig.unwrap() as u64;
        proof {
            assert(is_digit(chars@[i as int]));
            assert(digits_val(pre1) == digits_val(pre) * 10 + crate::numeral::digit_val(
                chars@[i as int],
            ));
            assert forall|k: int| 0 <= k < pre1.len() implies is_digit(#[trigger] pre1[k]) by {
                if k < pre.len() {
                    assert(pre1[k] == pre[k]);
                    assert(is_digit(pre[k]));
                }
            }
        }
        if big {
            proof {
                crate::numeral::lemma_digits_val_nonneg(pre);
            }
        } else {
            let next = acc * 10 + dv;
            if next > 0xffff_ffff {
                big = true;
            } else {
                acc = next;
            }
        }
        i += 1;
    }
    proof {
        assert(chars@.subrange(start as int, n as int) == d);
    }
    if big {
        None
    } else {
        Some(acc as u32)
    }
}

/// The state of one duplication invocation: the template text, the copy-count
/// text, the pattern pairs, and the buffered output.
pub struct AppBody {
    /// The template to duplicate.
    pub text_in: String,
    /// The copy count, as entered.
    pub num: String,
    /// The (placeholder, pattern) pairs; a pair with an empty field is inert.
    pub rep: Vec<(String, String)>,
    /// The buffered output of the last successful run.
    pub text_out: String,
}

impl Default for AppBody {
    /// An invocation with everything empty.
    fn default() -> (r: AppBody)
        ensures
            r.text_in@ =~= Seq::<char>::empty(),
            r.num@ =~= Seq::<char>::empty(),
            r.rep@ =~= Seq::<(String, String)>::empty(),
            r.text_out@ =~= Seq::<char>::empty(),
    {
        AppBody {
            text_in: String::new(),
            num: String::new(),
            rep: Vec::new(),
            text_out: String::new(),
        }
    }
}

impl AppBody {
    /// Buffered duplication: parse the copy count, compile the pattern pairs,
    /// and rebuild `text_out` as the concatenation of all copies.
    ///
    /// On an invalid count nothing changes; on a malformed pattern the output
    /// buffer has been cleared but nothing else changes; inputs are never
    /// modified.
    pub fn txt_proc(&mut self) -> (r: Result<(), DupError>)
        ensures
            final(self).text_in == old(self).text_in,
            final(self).num == old(self).num,
            final(self).rep == old(self).rep,
            match r {
                Ok(()) => ({
                    &&& is_count(old(self).num@)
                    &&& spec_parse_sequence(old(self).rep@, count_val(old(self).num@) as u32)
                        matches Some(gens) && final(self).text_out@ == spec_generate(
                        old(self).text_in@,
                        count_val(old(self).num@),
                        gens,
                    )
                }),
                Err(DupError::InvalidCount) => !is_count(old(self).num@) && final(self).text_out
                    == old(self).text_out,
                Err(DupError::MalformedPattern) => is_count(old(self).num@)
                    && spec_parse_sequence(
                    old(self).rep@,
                    count_val(old(self).num@) as u32,
                ) is None && final(self).text_out@ =~= Seq::<char>::empty(),
                Err(DupError::SinkFailure) => false,
            },
    {
        let count = match parse_count(self.num.as_str()) {
            Some(c) => c,
            None => {
                return Err(DupError::InvalidCount);
            },
        };
        self.text_out = String::new();
        let gens = match parse_sequence(&self.rep, count) {
            Ok(g) => g,
            Err(e) => {
                return Err(e);
            },
        };
        self.text_out = generate(self.text_in.as_str(), count, &gens);
        Ok(())
    }

    /// Streaming duplication: the same validation as `txt_proc`, but the
    /// copies are handed back one string per index for the caller to write
    /// to its sink in order, instead of being buffered here.
    pub fn txt_proc_direct(&self) -> (r: Result<Vec<String>, DupError>)
        ensures
            match r {
                Ok(copies) => ({
                    &&& is_count(self.num@)
                    &&& spec_parse_sequence(self.rep@, count_val(self.num@) as u32)
                        matches Some(gens) && copies@.len() == count_val(self.num@) && forall|
                        k: int,
                    |
                        0 <= k < copies@.len() ==> (#[trigger] copies@[k])@ == spec_render_copy(
                            self.text_in@,
                            gens,
                            k,
                        )
                }),
                Err(DupError::InvalidCount) => !is_count(self.num@),
                Err(DupError::MalformedPattern) => is_count(self.num@) && spec_parse_sequence(
                    self.rep@,
                    count_val(self.num@) as u32,
                ) is None,
                Err(DupError::SinkFailure) => false,
            },
    {
        let count = match parse_count(self.num.as_str()) {
            Some(c) => c,
            None => {
                return Err(DupError::InvalidCount);
            },
        };
        let gens = match parse_sequence(&self.rep, count) {
            Ok(g) => g,
            Err(e) => {
                return Err(e);
            },
        };
        let tmpl = crate::parser::str_to_char_vec(self.text_in.as_str());
        let mut copies: Vec<String> = Vec::new();
        let mut i: u32 = 0;
        while i < count
            invariant
                i <= count,
                tmpl@ == self.text_in@,
                wf_gens(gens_view(gens@)),
                copies@.len() == i,
                forall|k: int|
                    0 <= k < i ==> (#[trigger] copies@[k])@ == spec_render_copy(
                        self.text_in@,
                        gens_view(gens@),
                        k,
                    ),
            decreases count - i,
        {
            let chars = render_copy_chars(&tmpl, &gens, i);
            copies.push(chars_to_string(&chars));
            i += 1;
        }
        Ok(copies)
    }
}

} // verus!
