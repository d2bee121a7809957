//! Decimal numerals: printing a number as digits and reading it back.

use vstd::prelude::*;

verus! {

/// The digit character for one decimal digit.
pub open spec fn digit_char(d: nat) -> char {
    if d == 0 {
        '0'
    } else if d == 1 {
        '1'
    } else if d == 2 {
        '2'
    } else if d == 3 {
        '3'
    } else if d == 4 {
        '4'
    } else if d == 5 {
        '5'
    } else if d == 6 {
        '6'
    } else if d == 7 {
        '7'
    } else if d == 8 {
        '8'
    } else {
        '9'
    }
}

/// The numeric value of a digit character; ten marks a non-digit.
pub open spec fn digit_val(c: char) -> nat {
    if c == '0' {
        0
    } else if c == '1' {
        1
    } else if c == '2' {
        2
    } else if c == '3' {
        3
    } else if c == '4' {
        4
    } else if c == '5' {
        5
    } else if c == '6' {
        6
    } else if c == '7' {
        7
    } else if c == '8' {
        8
    } else if c == '9' {
        9
    } else {
        10
    }
}

/// Decimal digits of `n`, most significant first, no leading zeros
/// (a single zero for zero).
pub open spec fn dec_digits(n: nat) -> Seq<char>
    decreases n,
{
    if n < 10 {
        seq![digit_char(n)]
    } else {
        dec_digits(n / 10).push(digit_char(n % 10))
    }
}

/// The number a digit string stands for, read left to right.
pub open spec fn dec_value(s: Seq<char>) -> nat
    decreases s.len(),
{
    if s.len() == 0 {
        0
    } else {
        dec_value(s.drop_last()) * 10 + digit_val(s.last())
    }
}

/// Every character printed for a number is a decimal digit.
pub proof fn lemma_dec_digits_are_digits(n: nat)
    ensures
        forall|k: int|
            0 <= k < dec_digits(n).len() ==> digit_val(#[trigger] dec_digits(n)[k]) < 10,
        dec_digits(n).len() >= 1,
    decreases n,
{
    if n >= 10 {
        lemma_dec_digits_are_digits(n / 10);
        let rest = dec_digits(n / 10);
        let cur = dec_digits(n);
        assert forall|k: int| 0 <= k < cur.len() implies digit_val(#[trigger] cur[k]) < 10 by {
            if k < rest.len() {
                assert(cur[k] == rest[k]);
            } else {
                assert(cur[k] == digit_char(n % 10));
            }
        }
    }
}

/// Reading back the printed digits of `n` yields `n`.
pub proof fn lemma_dec_round_trip(n: nat)
    ensures
        dec_value(dec_digits(n)) == n,
    decreases n,
{
    if n < 10 {
        let s = dec_digits(n);
        assert(s == seq![digit_char(n)]);
        assert(s.len() == 1);
        assert(s.drop_last() =~= Seq::<char>::empty());
        assert(s.last() == digit_char(n));
        assert(dec_value(s.drop_last()) == 0);
        assert(digit_val(digit_char(n)) == n);
        assert(dec_value(s) == dec_value(s.drop_last()) * 10 + digit_val(s.last()));
    } else {
        lemma_dec_round_trip(n / 10);
        let s = dec_digits(n);
        let rest = dec_digits(n / 10);
        assert(s == rest.push(digit_char(n % 10)));
        assert(s.drop_last() =~= rest);
        assert(s.last() == digit_char(n % 10));
        assert(digit_val(digit_char(n % 10)) == n % 10);
        assert(dec_value(s) == dec_value(rest) * 10 + n % 10);
        assert(n / 10 * 10 + n % 10 == n) by {
            vstd::arithmetic::div_mod::lemma_fundamental_div_mod(n as int, 10);
        }
    }
}

/// The digit character for a value below ten.
pub fn digit_of(d: u64) -> (c: char)
    requires
        d < 10,
    ensures
        c == digit_char(d as nat),
{
    match d {
        0 => '0',
        1 => '1',
        2 => '2',
        3 => '3',
        4 => '4',
        5 => '5',
        6 => '6',
        7 => '7',
        8 => '8',
        _ => '9',
    }
}

/// Print `n` in decimal.
pub fn u64_to_digits(n: u64) -> (r: Vec<char>)
    ensures
        r@ == dec_digits(n as nat),
    decreases n,
{
    if n < 10 {
        let mut r: Vec<char> = Vec::new();
        r.push(digit_of(n));
        assert(r@ =~= seq![digit_char(n as nat)]);
        r
    } else {
        let mut r = u64_to_digits(n / 10);
        r.push(digit_of(n % 10));
        assert(r@ =~= dec_digits((n / 10) as nat).push(digit_char((n % 10) as nat)));
        assert((n / 10) as nat == (n as nat) / 10);
        assert((n % 10) as nat == (n as nat) % 10);
        r
    }
}

/// The numeric value of a digit character, ten for a non-digit.
pub fn digit_value(c: char) -> (d: u64)
    ensures
        d == digit_val(c),
{
    match c {
        '0' => 0,
        '1' => 1,
        '2' => 2,
        '3' => 3,
        '4' => 4,
        '5' => 5,
        '6' => 6,
        '7' => 7,
        '8' => 8,
        '9' => 9,
        _ => 10,
    }
}

/// A digit string's value never shrinks as digits are appended.
pub proof fn lemma_dec_value_prefix(t: Seq<char>, i: int)
    requires
        0 <= i <= t.len(),
    ensures
        dec_value(t) >= dec_value(t.subrange(0, i)),
    decreases t.len() - i,
{
    if i < t.len() {
        if i + 1 == t.len() {
            assert(t.subrange(0, t.len() as int) =~= t);
            assert(t.drop_last() =~= t.subrange(0, i));
        } else {
            lemma_dec_value_prefix(t.subrange(0, t.len() - 1), i);
            assert(t.subrange(0, t.len() - 1).subrange(0, i) =~= t.subrange(0, i));
            assert(t.drop_last() =~= t.subrange(0, t.len() - 1));
        }
    } else {
        assert(t.subrange(0, t.len() as int) =~= t);
    }
}

/// Read the decimal number in `s[from..to]`. Yields nothing exactly
/// when the range is empty, holds a non-digit, or its value does not
/// fit 64 bits.
pub fn digits_to_u64(s: &Vec<char>, from: usize, to: usize) -> (r: Option<u64>)
    requires
        from <= to <= s@.len(),
    ensures
        match r {
            Some(v) => {
                &&& v as nat == dec_value(s@.subrange(from as int, to as int))
                &&& forall|k: int| from <= k < to ==> digit_val(#[trigger] s@[k]) < 10
                &&& from < to
            },
            Option::None => from == to || (exists|k: int|
                from <= k < to && digit_val(#[trigger] s@[k]) >= 10) || dec_value(
                s@.subrange(from as int, to as int),
            ) > 0xFFFF_FFFF_FFFF_FFFF,
        },
{
    let ghost whole = s@.subrange(from as int, to as int);
    if from == to {
        return Option::None;
    }
    let mut acc: u64 = 0;
    let mut i: usize = from;
    while i < to
        invariant
            from <= i <= to <= s@.len(),
            whole == s@.subrange(from as int, to as int),
            acc as nat == dec_value(s@.subrange(from as int, i as int)),
            forall|k: int| from <= k < i ==> digit_val(#[trigger] s@[k]) < 10,
        decreases to - i,
    {
        let d = digit_value(s[i]);
        if d >= 10 {
            return Option::None;
        }
        let ghost pre = s@.subrange(from as int, i as int);
        proof {
            let cur = s@.subrange(from as int, i + 1);
            assert(cur.drop_last() =~= pre);
            assert(cur.last() == s@[i as int]);
            assert(dec_value(cur) == dec_value(pre) * 10 + digit_val(s@[i as int]));
        }
        if acc > 0xFFFF_FFFF_FFFF_FFFFu64 / 10 {
            proof {
                lemma_overflow_rest(s, from, i, to);
            }
            return Option::None;
        }
        let next = acc * 10;
        if next > 0xFFFF_FFFF_FFFF_FFFFu64 - d {
            proof {
                lemma_overflow_rest(s, from, i, to);
            }
            return Option::None;
        }
        acc = next + d;
        i += 1;
    }
    proof {
        assert(s@.subrange(from as int, i as int) =~= whole);
    }
    Some(acc)
}

/// When the value of the digits read so far, extended by the digit at
/// `i`, exceeds 64 bits, so does the whole range's value.
proof fn lemma_overflow_rest(s: &Vec<char>, from: usize, i: usize, to: usize)
    requires
        from <= i < to <= s@.len(),
        digit_val(s@[i as int]) < 10,
        dec_value(s@.subrange(from as int, i as int)) * 10 + digit_val(s@[i as int])
            > 0xFFFF_FFFF_FFFF_FFFF,
    ensures
        dec_value(s@.subrange(from as int, to as int)) > 0xFFFF_FFFF_FFFF_FFFF,
{
    let whole = s@.subrange(from as int, to as int);
    let cur = s@.subrange(from as int, i + 1);
    assert(cur.drop_last() =~= s@.subrange(from as int, i as int));
    assert(cur.last() == s@[i as int]);
    assert(dec_value(cur) > 0xFFFF_FFFF_FFFF_FFFF);
    lemma_dec_value_prefix(whole, i + 1 - from);
    assert(whole.subrange(0, i + 1 - from) =~= cur);
}

} // verus!
