//! The OBJ text format, as a grammar over bytes.
//!
//! A file is a sequence of lines separated by `\n` (a trailing `\r` per line
//! is dropped). Lines starting with `"v "` carry three decimal numbers; lines
//! starting with `"f "` carry three `vertex/texture/normal` integer triples,
//! of which only the vertex index is consumed. Any other line is ignored. A
//! `v` or `f` line that does not match its grammar exactly is a fatal load
//! error. Numbers are plain decimals (an optional minus, up to 14 integer
//! digits, optionally a point and up to 9 fraction digits) and are read into
//! Q16.16 by truncation toward zero.

use vstd::prelude::*;
use crate::fixed::{sdiv, FP_ONE};

verus! {

pub open spec fn is_digit(b: u8) -> bool {
    0x30 <= b <= 0x39
}

pub open spec fn all_digits(s: Seq<u8>) -> bool {
    forall|i: int| 0 <= i < s.len() ==> is_digit(#[trigger] s[i])
}

/// The value of a digit string, most significant first.
pub open spec fn digits_val(s: Seq<u8>) -> int
    decreases s.len(),
{
    if s.len() == 0 {
        0
    } else {
        digits_val(s.drop_last()) * 10 + (s.last() - 0x30)
    }
}

pub open spec fn pow10(k: nat) -> int
    decreases k,
{
    if k == 0 {
        1
    } else {
        10 * pow10((k - 1) as nat)
    }
}

/// The index of the first occurrence of `b` in `s`, or `s.len()`.
pub open spec fn first_byte(s: Seq<u8>, b: u8) -> int
    decreases s.len(),
{
    if s.len() == 0 {
        0
    } else if s[0] == b {
        0
    } else {
        1 + first_byte(s.drop_first(), b)
    }
}

/// `first_byte` always lands inside `[0, s.len()]`.
pub proof fn lemma_first_byte_range(s: Seq<u8>, b: u8)
    ensures
        0 <= first_byte(s, b) <= s.len(),
    decreases s.len(),
{
    if s.len() > 0 && s[0] != b {
        lemma_first_byte_range(s.drop_first(), b);
    }
}

#[via_fn]
proof fn split_on_decreases(s: Seq<u8>, b: u8) {
    lemma_first_byte_range(s, b);
}

/// Splits `s` at every occurrence of `b`, keeping empty fields.
pub open spec fn split_on(s: Seq<u8>, b: u8) -> Seq<Seq<u8>>
    decreases s.len(),
    via split_on_decreases
{
    let d = first_byte(s, b);
    if d == s.len() {
        seq![s]
    } else {
        seq![s.subrange(0, d)] + split_on(s.subrange(d + 1, s.len() as int), b)
    }
}

/// An unsigned decimal: digits, optionally a point and more digits, within
/// the digit-count caps that keep the value exactly representable.
pub open spec fn valid_unsigned_num(s: Seq<u8>) -> bool {
    let d = first_byte(s, 0x2e);
    if d == s.len() {
        1 <= s.len() <= 14 && all_digits(s)
    } else {
        let ip = s.subrange(0, d);
        let fp = s.subrange(d + 1, s.len() as int);
        &&& 1 <= ip.len() <= 14
        &&& all_digits(ip)
        &&& 1 <= fp.len() <= 9
        &&& all_digits(fp)
        &&& first_byte(fp, 0x2e) == fp.len()
    }
}

/// Its Q16.16 value, truncated toward zero.
pub open spec fn unsigned_num_val(s: Seq<u8>) -> int {
    let d = first_byte(s, 0x2e);
    if d == s.len() {
        digits_val(s) * (FP_ONE as int)
    } else {
        let ip = s.subrange(0, d);
        let fp = s.subrange(d + 1, s.len() as int);
        sdiv(
            (digits_val(ip) * pow10(fp.len()) + digits_val(fp)) * (FP_ONE as int),
            pow10(fp.len()),
        )
    }
}

/// A decimal with an optional leading minus.
pub open spec fn valid_num(s: Seq<u8>) -> bool {
    if s.len() > 0 && s[0] == 0x2d {
        valid_unsigned_num(s.drop_first())
    } else {
        valid_unsigned_num(s)
    }
}

pub open spec fn num_val(s: Seq<u8>) -> int {
    if s.len() > 0 && s[0] == 0x2d {
        -unsigned_num_val(s.drop_first())
    } else {
        unsigned_num_val(s)
    }
}

/// An integer: an optional minus and up to 9 digits.
pub open spec fn valid_int(s: Seq<u8>) -> bool {
    if s.len() > 0 && s[0] == 0x2d {
        1 <= s.len() - 1 <= 9 && all_digits(s.drop_first())
    } else {
        1 <= s.len() <= 9 && all_digits(s)
    }
}

pub open spec fn int_val(s: Seq<u8>) -> int {
    if s.len() > 0 && s[0] == 0x2d {
        -digits_val(s.drop_first())
    } else {
        digits_val(s)
    }
}

// ======================================================================
//  Characterization lemmas
// ======================================================================

/// `first_byte` is the unique index below which `b` does not occur.
pub proof fn lemma_first_byte(s: Seq<u8>, b: u8, k: int)
    requires
        0 <= k <= s.len(),
        forall|m: int| 0 <= m < k ==> s[m] != b,
        k == s.len() || s[k] == b,
    ensures
        first_byte(s, b) == k,
    decreases s.len(),
{
    if s.len() == 0 {
    } else if s[0] == b {
        assert(k == 0);
    } else {
        assert(k >= 1);
        let t = s.drop_first();
        assert(forall|m: int| 0 <= m < k - 1 ==> t[m] == s[m + 1] && t[m] != b);
        lemma_first_byte(t, b, k - 1);
    }
}

/// A sequence with no separator splits into itself alone.
pub proof fn lemma_split1(s: Seq<u8>, b: u8)
    requires
        first_byte(s, b) == s.len(),
    ensures
        split_on(s, b) == seq![s],
{
}


} // verus!

verus! {

// ======================================================================
//  Executable scanning primitives
// ======================================================================

/// Finds the first occurrence of `b` in `v[from..to]`, as an absolute index
/// (`to` when absent).
pub fn find_byte(v: &Vec<u8>, from: usize, to: usize, b: u8) -> (r: usize)
    requires
        from <= to <= v@.len(),
    ensures
        from <= r <= to,
        r - from == first_byte(v@.subrange(from as int, to as int), b),
        r < to ==> v@[r as int] == b,
        forall|m: int| from as int <= m < r as int ==> v@[m] != b,
{
    let mut k: usize = from;
    while k < to
        invariant
            from <= k <= to <= v@.len(),
            forall|m: int| from as int <= m < k as int ==> v@[m] != b,
        decreases to - k,
    {
        if v[k] == b {
            proof {
                let s = v@.subrange(from as int, to as int);
                assert(forall|m: int|
                    0 <= m < k as int - from as int ==> s[m] == v@[m + from as int]);
                lemma_first_byte(s, b, k as int - from as int);
            }
            return k;
        }
        k += 1;
    }
    proof {
        let s = v@.subrange(from as int, to as int);
        assert(forall|m: int| 0 <= m < s.len() ==> s[m] == v@[m + from as int]);
        lemma_first_byte(s, b, s.len() as int);
    }
    to
}

/// Whether every byte of `v[from..to]` is a decimal digit, with at least one.
fn check_digits(v: &Vec<u8>, from: usize, to: usize) -> (r: bool)
    requires
        from <= to <= v@.len(),
    ensures
        r == (from < to && all_digits(v@.subrange(from as int, to as int))),
{
    if from == to {
        return false;
    }
    let mut k: usize = from;
    while k < to
        invariant
            from <= k <= to <= v@.len(),
            forall|m: int| from as int <= m < k as int ==> is_digit(#[trigger] v@[m]),
        decreases to - k,
    {
        let c: u8 = v[k];
        if c < 0x30 || c > 0x39 {
            proof {
                let s = v@.subrange(from as int, to as int);
                assert(s[k as int - from as int] == v@[k as int]);
            }
            return false;
        }
        k += 1;
    }
    proof {
        let s = v@.subrange(from as int, to as int);
        assert(forall|m: int| 0 <= m < s.len() ==> s[m] == v@[m + from as int]);
    }
    true
}

/// Reads the value of the digit run `v[from..to]` (at most 14 digits).
fn read_digits(v: &Vec<u8>, from: usize, to: usize) -> (r: u64)
    requires
        from <= to <= v@.len(),
        to - from <= 14,
        all_digits(v@.subrange(from as int, to as int)),
    ensures
        r as int == digits_val(v@.subrange(from as int, to as int)),
        (r as int) < pow10((to - from) as nat),
        r < 100_000_000_000_000,
{
    let mut acc: u64 = 0;
    let mut k: usize = from;
    proof {
        assert(v@.subrange(from as int, from as int) =~= Seq::<u8>::empty());
        lemma_digits_val_bound(v@.subrange(from as int, to as int));
        lemma_pow10_mono(0nat, 14nat);
        assert(pow10(14nat) == 100_000_000_000_000) by {
            reveal_with_fuel(pow10, 15);
        }
    }
    while k < to
        invariant
            from <= k <= to <= v@.len(),
            to - from <= 14,
            all_digits(v@.subrange(from as int, to as int)),
            acc as int == digits_val(v@.subrange(from as int, k as int)),
            (acc as int) < pow10((k - from) as nat),
            pow10((k - from) as nat) <= pow10(14),
            pow10(14) == 100_000_000_000_000,
        decreases to - k,
    {
        proof {
            let s = v@.subrange(from as int, to as int);
            assert(s[k as int - from as int] == v@[k as int]);
            assert(is_digit(v@[k as int]));
            lemma_pow10_mono((k - from + 1) as nat, 14);
            assert(pow10((k - from + 1) as nat) == 10 * pow10((k - from) as nat));
        }
        let d: u8 = v[k] - 0x30;
        acc = acc * 10 + d as u64;
        k += 1;
        proof {
            let snew = v@.subrange(from as int, k as int);
            assert(snew.drop_last() =~= v@.subrange(from as int, k as int - 1));
            assert(snew.last() == v@[k as int - 1]);
        }
    }
    proof {
        assert(pow10((to - from) as nat) <= pow10(14)) by {
            lemma_pow10_mono((to - from) as nat, 14);
        }
    }
    acc
}

/// Digit strings are bounded by the power of ten of their length.
proof fn lemma_digits_val_bound(s: Seq<u8>)
    requires
        all_digits(s),
    ensures
        0 <= digits_val(s) < pow10(s.len()),
    decreases s.len(),
{
    if s.len() == 0 {
    } else {
        assert(all_digits(s.drop_last())) by {
            assert(forall|i: int| 0 <= i < s.len() - 1 ==> s.drop_last()[i] == s[i]);
        }
        lemma_digits_val_bound(s.drop_last());
        assert(pow10(s.len()) == 10 * pow10((s.len() - 1) as nat));
    }
}

proof fn lemma_pow10_mono(a: nat, b: nat)
    requires
        a <= b,
    ensures
        0 < pow10(a) <= pow10(b),
    decreases b,
{
    if b == 0 {
    } else if a == b {
        lemma_pow10_mono((b - 1) as nat, (b - 1) as nat);
    } else {
        lemma_pow10_mono(a, (b - 1) as nat);
    }
}

/// Ten to the `k`, for `k <= 9`.
fn pow10_u64(k: usize) -> (r: u64)
    requires
        k <= 9,
    ensures
        r as int == pow10(k as nat),
        r >= 1,
{
    let mut acc: u64 = 1;
    let mut i: usize = 0;
    while i < k
        invariant
            0 <= i <= k <= 9,
            acc as int == pow10(i as nat),
            acc >= 1,
            (acc as int) <= 1_000_000_000,
        decreases k - i,
    {
        proof {
            lemma_pow10_mono((i + 1) as nat, 9);
            assert(pow10((i + 1) as nat) == 10 * pow10(i as nat));
            assert(pow10(9nat) == 1_000_000_000) by {
                reveal_with_fuel(pow10, 10);
            }
        }
        acc = acc * 10;
        i += 1;
    }
    acc
}

} // verus!

verus! {

/// Parses the decimal number in `v[from..to]` into Q16.16; errs exactly when
/// the bytes do not match the number grammar.
pub fn parse_num(v: &Vec<u8>, from: usize, to: usize) -> (r: Result<i64, ()>)
    requires
        from <= to <= v@.len(),
    ensures
        r is Ok <==> valid_num(v@.subrange(from as int, to as int)),
        r is Ok ==> r->Ok_0 as int == num_val(v@.subrange(from as int, to as int)),
{
    let ghost s = v@.subrange(from as int, to as int);
    let neg: bool = from < to && v[from] == 0x2d;
    let start: usize = if neg {
        from + 1
    } else {
        from
    };
    let ghost u = v@.subrange(start as int, to as int);
    proof {
        if neg {
            assert(s.drop_first() =~= u);
        } else {
            assert(s =~= u);
        }
    }
    let dot: usize = find_byte(v, start, to, 0x2e);
    proof {
        assert(first_byte(u, 0x2e) == dot - start);
    }
    if dot == to {
        // plain integer
        if !check_digits(v, start, to) || to - start > 14 {
            proof {
                if valid_unsigned_num(u) {
                    assert(u =~= v@.subrange(start as int, to as int));
                }
            }
            return Err(());
        }
        let dv: u64 = read_digits(v, start, to);
        proof {
            assert(u =~= v@.subrange(start as int, to as int));
            assert((dv as int) * (FP_ONE as int) < 6_553_600_000_000_000_000)
                by (nonlinear_arith)
                requires (dv as int) < 100_000_000_000_000;
        }
        let val: i64 = (dv as i64) * FP_ONE;
        if neg {
            Ok(-val)
        } else {
            Ok(val)
        }
    } else {
        // integer part, point, fraction part
        let fstart: usize = dot + 1;
        proof {
            assert(u.subrange(0, dot - start) =~= v@.subrange(start as int, dot as int));
            assert(u.subrange(dot - start + 1, u.len() as int) =~= v@.subrange(
                fstart as int,
                to as int,
            ));
        }
        if !check_digits(v, start, dot) || dot - start > 14 || !check_digits(v, fstart, to) || to
            - fstart > 9 {
            return Err(());
        }
        proof {
            let fp = v@.subrange(fstart as int, to as int);
            lemma_first_byte(fp, 0x2e, fp.len() as int);
        }
        let ip: u64 = read_digits(v, start, dot);
        let f: u64 = read_digits(v, fstart, to);
        let p: u64 = pow10_u64(to - fstart);
        proof {
            lemma_pow10_mono((to - fstart) as nat, 9nat);
            assert(pow10(9nat) == 1_000_000_000) by {
                reveal_with_fuel(pow10, 10);
            }
            assert((ip as int) * (p as int) + (f as int) < 200_000_000_000_000_000_000_000)
                by (nonlinear_arith)
                requires
                    (ip as int) < 100_000_000_000_000,
                    1 <= p as int <= 1_000_000_000,
                    0 <= (f as int) < p as int;
            assert(((ip as int) * (p as int) + (f as int)) * (FP_ONE as int)
                < 200_000_000_000_000_000_000_000 * 65536) by (nonlinear_arith)
                requires 0 <= (ip as int) * (p as int) + (f as int)
                    < 200_000_000_000_000_000_000_000;
        }
        let num: u128 = ((ip as u128) * (p as u128) + (f as u128)) * 65536;
        let q: u128 = num / (p as u128);
        proof {
            assert((num as int) < ((ip as int) + 1) * (p as int) * 65536) by (nonlinear_arith)
                requires
                    num as int == ((ip as int) * (p as int) + (f as int)) * 65536,
                    0 <= (f as int) < p as int,
                    0 <= ip as int,
                    1 <= p as int;
            assert((q as int) < ((ip as int) + 1) * 65536) by {
                assert((num as int) < (((ip as int) + 1) * 65536) * (p as int)) by (nonlinear_arith)
                    requires (num as int) < ((ip as int) + 1) * (p as int) * 65536;
                assert((((ip as int) + 1) * 65536) * (p as int) == (p as int) * (((ip as int) + 1)
                    * 65536)) by (nonlinear_arith);
                vstd::arithmetic::div_mod::lemma_multiply_divide_lt(
                    num as int,
                    p as int,
                    ((ip as int) + 1) * 65536,
                );
            }
            assert(((ip as int) + 1) * 65536 <= 6_553_600_000_000_000_065_536)
                by (nonlinear_arith)
                requires (ip as int) < 100_000_000_000_000;
            assert(q as int == sdiv(num as int, p as int));
        }
        let val: i64 = q as i64;
        if neg {
            Ok(-val)
        } else {
            Ok(val)
        }
    }
}

/// Parses the integer in `v[from..to]`; errs exactly when the bytes do not
/// match the integer grammar.
pub fn parse_int(v: &Vec<u8>, from: usize, to: usize) -> (r: Result<i32, ()>)
    requires
        from <= to <= v@.len(),
    ensures
        r is Ok <==> valid_int(v@.subrange(from as int, to as int)),
        r is Ok ==> r->Ok_0 as int == int_val(v@.subrange(from as int, to as int)),
{
    let ghost s = v@.subrange(from as int, to as int);
    let neg: bool = from < to && v[from] == 0x2d;
    let start: usize = if neg {
        from + 1
    } else {
        from
    };
    proof {
        if neg {
            assert(s.drop_first() =~= v@.subrange(start as int, to as int));
        } else {
            assert(s =~= v@.subrange(start as int, to as int));
        }
    }
    if !check_digits(v, start, to) || to - start > 9 {
        return Err(());
    }
    let dv: u64 = read_digits(v, start, to);
    proof {
        lemma_pow10_mono((to - start) as nat, 9nat);
        assert(pow10(9nat) == 1_000_000_000) by {
            reveal_with_fuel(pow10, 10);
        }
    }
    let val: i32 = dv as i32;
    if neg {
        Ok(-val)
    } else {
        Ok(val)
    }
}

} // verus!

verus! {

// ======================================================================
//  Vertex and face lines
// ======================================================================

/// Unfolding one split step at the first separator.
pub proof fn lemma_split_step(s: Seq<u8>, b: u8)
    requires
        first_byte(s, b) < s.len(),
    ensures
        split_on(s, b) == seq![s.subrange(0, first_byte(s, b))] + split_on(
            s.subrange(first_byte(s, b) + 1, s.len() as int),
            b,
        ),
{
    lemma_first_byte_range(s, b);
}

/// Every split has at least one field.
pub proof fn lemma_split_len_pos(s: Seq<u8>, b: u8)
    ensures
        split_on(s, b).len() >= 1,
{
    lemma_first_byte_range(s, b);
}

/// The body of a vertex line: three space-separated decimal numbers.
pub open spec fn valid_vertex_body(s: Seq<u8>) -> bool {
    let fs = split_on(s, 0x20);
    fs.len() == 3 && valid_num(fs[0]) && valid_num(fs[1]) && valid_num(fs[2])
}

pub open spec fn vertex_val(s: Seq<u8>) -> (int, int, int) {
    let fs = split_on(s, 0x20);
    (num_val(fs[0]), num_val(fs[1]), num_val(fs[2]))
}

/// One corner of a face line: `vertex/texture/normal` integer indices; only
/// the vertex index is consumed.
pub open spec fn valid_face_triple(s: Seq<u8>) -> bool {
    let ps = split_on(s, 0x2f);
    ps.len() == 3 && valid_int(ps[0]) && valid_int(ps[1]) && valid_int(ps[2])
}

pub open spec fn triple_vertex_index(s: Seq<u8>) -> int {
    int_val(split_on(s, 0x2f)[0])
}

/// The body of a face line: three space-separated corners.
pub open spec fn valid_face_body(s: Seq<u8>) -> bool {
    let fs = split_on(s, 0x20);
    fs.len() == 3 && valid_face_triple(fs[0]) && valid_face_triple(fs[1]) && valid_face_triple(
        fs[2],
    )
}

pub open spec fn face_val(s: Seq<u8>) -> (int, int, int) {
    let fs = split_on(s, 0x20);
    (triple_vertex_index(fs[0]), triple_vertex_index(fs[1]), triple_vertex_index(fs[2]))
}

/// Locates the three fields of `v[from..to]` around exactly two separators
/// `b`, and ties them to `split_on`; errs iff the field count is not three.
fn find_three_fields(v: &Vec<u8>, from: usize, to: usize, b: u8) -> (r: Result<
    (usize, usize),
    (),
>)
    requires
        from <= to <= v@.len(),
    ensures
        ({
            let body = v@.subrange(from as int, to as int);
            let fs = split_on(body, b);
            match r {
                Ok((d1, d2)) => {
                    &&& from <= d1 < d2 < to
                    &&& fs.len() == 3
                    &&& fs[0] == v@.subrange(from as int, d1 as int)
                    &&& fs[1] == v@.subrange(d1 as int + 1, d2 as int)
                    &&& fs[2] == v@.subrange(d2 as int + 1, to as int)
                },
                Err(e) => fs.len() != 3,
            }
        }),
{
    let ghost body = v@.subrange(from as int, to as int);
    let d1: usize = find_byte(v, from, to, b);
    if d1 == to {
        proof {
            lemma_split1(body, b);
        }
        return Err(());
    }
    let ghost rest1 = v@.subrange(d1 as int + 1, to as int);
    proof {
        assert(first_byte(body, b) == d1 - from);
        lemma_split_step(body, b);
        assert(body.subrange(first_byte(body, b) + 1, body.len() as int) =~= rest1);
        assert(body.subrange(0, first_byte(body, b)) =~= v@.subrange(from as int, d1 as int));
    }
    let d2: usize = find_byte(v, d1 + 1, to, b);
    if d2 == to {
        proof {
            assert(first_byte(rest1, b) == rest1.len());
            lemma_split1(rest1, b);
        }
        return Err(());
    }
    let ghost rest2 = v@.subrange(d2 as int + 1, to as int);
    proof {
        assert(first_byte(rest1, b) == d2 - d1 - 1);
        lemma_split_step(rest1, b);
        assert(rest1.subrange(first_byte(rest1, b) + 1, rest1.len() as int) =~= rest2);
        assert(rest1.subrange(0, first_byte(rest1, b)) =~= v@.subrange(d1 as int + 1, d2 as int));
    }
    let d3: usize = find_byte(v, d2 + 1, to, b);
    if d3 < to {
        proof {
            assert(first_byte(rest2, b) == d3 - d2 - 1);
            lemma_split_step(rest2, b);
            lemma_split_len_pos(
                rest2.subrange(first_byte(rest2, b) + 1, rest2.len() as int),
                b,
            );
        }
        return Err(());
    }
    proof {
        assert(first_byte(rest2, b) == rest2.len());
        lemma_split1(rest2, b);
    }
    Ok((d1, d2))
}

/// Parses a vertex-line body into its three Q16.16 coordinates; errs exactly
/// when the body does not match the vertex grammar.
pub fn parse_vertex_body(v: &Vec<u8>, from: usize, to: usize) -> (r: Result<(i64, i64, i64), ()>)
    requires
        from <= to <= v@.len(),
    ensures
        ({
            let body = v@.subrange(from as int, to as int);
            match r {
                Ok(c) => valid_vertex_body(body) && (c.0 as int, c.1 as int, c.2 as int)
                    == vertex_val(body),
                Err(e) => !valid_vertex_body(body),
            }
        }),
{
    let fields = find_three_fields(v, from, to, 0x20);
    match fields {
        Err(e) => Err(()),
        Ok((d1, d2)) => {
            let n0 = parse_num(v, from, d1);
            let n1 = parse_num(v, d1 + 1, d2);
            let n2 = parse_num(v, d2 + 1, to);
            match (n0, n1, n2) {
                (Ok(x), Ok(y), Ok(z)) => Ok((x, y, z)),
                _ => Err(()),
            }
        },
    }
}

/// Parses one face corner (`vertex/texture/normal`), returning the vertex
/// index; errs exactly when the corner does not match the grammar.
fn parse_face_triple(v: &Vec<u8>, from: usize, to: usize) -> (r: Result<i32, ()>)
    requires
        from <= to <= v@.len(),
    ensures
        ({
            let t = v@.subrange(from as int, to as int);
            match r {
                Ok(a) => valid_face_triple(t) && a as int == triple_vertex_index(t),
                Err(e) => !valid_face_triple(t),
            }
        }),
{
    let fields = find_three_fields(v, from, to, 0x2f);
    match fields {
        Err(e) => Err(()),
        Ok((d1, d2)) => {
            let i0 = parse_int(v, from, d1);
            let i1 = parse_int(v, d1 + 1, d2);
            let i2 = parse_int(v, d2 + 1, to);
            match (i0, i1, i2) {
                (Ok(a), Ok(t1), Ok(t2)) => Ok(a),
                _ => Err(()),
            }
        },
    }
}

/// Parses a face-line body into its three vertex indices; errs exactly when
/// the body does not match the face grammar.
pub fn parse_face_body(v: &Vec<u8>, from: usize, to: usize) -> (r: Result<(i32, i32, i32), ()>)
    requires
        from <= to <= v@.len(),
    ensures
        ({
            let body = v@.subrange(from as int, to as int);
            match r {
                Ok(c) => valid_face_body(body) && (c.0 as int, c.1 as int, c.2 as int) == face_val(
                    body,
                ),
                Err(e) => !valid_face_body(body),
            }
        }),
{
    let fields = find_three_fields(v, from, to, 0x20);
    match fields {
        Err(e) => Err(()),
        Ok((d1, d2)) => {
            let t0 = parse_face_triple(v, from, d1);
            let t1 = parse_face_triple(v, d1 + 1, d2);
            let t2 = parse_face_triple(v, d2 + 1, to);
            match (t0, t1, t2) {
                (Ok(a), Ok(b), Ok(c)) => Ok((a, b, c)),
                _ => Err(()),
            }
        },
    }
}

} // verus!
