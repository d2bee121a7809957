//! Reading raw host-store text into typed setting values.
//!
//! The grammar is exact: an integer is an optional minus sign and
//! decimal digits; a float adds an optional dot and fraction digits,
//! of which the first two land in the fixed-point value (hundredths);
//! a boolean is one of the six words the host store uses; a string is
//! taken as it is. Anything else is rejected, and the contract says
//! precisely when.

use vstd::prelude::*;

use crate::numerals::{dec_value, digit_val, digits_to_u64};
use crate::settings::{SettingValue, ValueModel, ValueType};
use crate::strops::chars_of;
use vstd::string::StringExecFns;

verus! {

/// Every character in the range is a decimal digit.
pub open spec fn all_digits(s: Seq<char>) -> bool {
    forall|k: int| 0 <= k < s.len() ==> digit_val(#[trigger] s[k]) < 10
}

/// A true word of the host store's boolean encoding.
pub open spec fn bool_true_token(s: Seq<char>) -> bool {
    s == "1"@ || s == "true"@ || s == "yes"@
}

/// A false word of the host store's boolean encoding.
pub open spec fn bool_false_token(s: Seq<char>) -> bool {
    s == "0"@ || s == "false"@ || s == "no"@
}

/// The unsigned digit part of `s` (everything after an optional
/// leading minus sign).
pub open spec fn unsigned_part(s: Seq<char>) -> Seq<char> {
    if s.len() > 0 && s[0] == '-' {
        s.drop_first()
    } else {
        s
    }
}

/// Whether `s` starts with a minus sign.
pub open spec fn is_negative(s: Seq<char>) -> bool {
    s.len() > 0 && s[0] == '-'
}

/// A well-formed integer token whose value fits a signed 64-bit
/// integer.
pub open spec fn int_token(s: Seq<char>) -> bool {
    let u = unsigned_part(s);
    &&& u.len() > 0
    &&& all_digits(u)
    &&& if is_negative(s) {
        dec_value(u) <= 0x8000_0000_0000_0000
    } else {
        dec_value(u) <= 0x7FFF_FFFF_FFFF_FFFF
    }
}

/// The value of an integer token.
pub open spec fn int_token_val(s: Seq<char>) -> int {
    if is_negative(s) {
        -(dec_value(unsigned_part(s)) as int)
    } else {
        dec_value(unsigned_part(s)) as int
    }
}

/// The hundredths contributed by a fraction-digit string: the first
/// two digits, missing places reading as zero.
pub open spec fn frac_hundredths(f: Seq<char>) -> int {
    (if f.len() >= 1 {
        (digit_val(f[0]) * 10) as int
    } else {
        0int
    }) + (if f.len() >= 2 {
        digit_val(f[1]) as int
    } else {
        0int
    })
}

/// A well-formed unsigned float body: digits, optionally followed by
/// a dot and fraction digits. (Fraction digits past the second are
/// checked but do not reach the fixed-point value.)
pub open spec fn float_body_ok(s: Seq<char>) -> bool {
    match s.index_of_first('.') {
        Some(d) => {
            &&& d > 0
            &&& all_digits(s.subrange(0, d))
            &&& all_digits(s.subrange(d + 1, s.len() as int))
        },
        Option::None => s.len() > 0 && all_digits(s),
    }
}

/// The hundredths value of an unsigned float body.
pub open spec fn float_body_val(s: Seq<char>) -> int {
    match s.index_of_first('.') {
        Some(d) => dec_value(s.subrange(0, d)) * 100 + frac_hundredths(
            s.subrange(d + 1, s.len() as int),
        ),
        Option::None => (dec_value(s) * 100) as int,
    }
}

/// A well-formed float token whose hundredths value fits a signed
/// 64-bit integer.
pub open spec fn float_token(s: Seq<char>) -> bool {
    let u = unsigned_part(s);
    &&& float_body_ok(u)
    &&& if is_negative(s) {
        float_body_val(u) <= 0x8000_0000_0000_0000
    } else {
        float_body_val(u) <= 0x7FFF_FFFF_FFFF_FFFF
    }
}

/// The hundredths value of a float token.
pub open spec fn float_token_val(s: Seq<char>) -> int {
    if is_negative(s) {
        -float_body_val(unsigned_part(s))
    } else {
        float_body_val(unsigned_part(s))
    }
}

/// What `parse_value` accepts for each declared type.
pub open spec fn parse_ok(s: Seq<char>, t: ValueType) -> bool {
    match t {
        ValueType::Float => float_token(s),
        ValueType::Bool => bool_true_token(s) || bool_false_token(s),
        ValueType::Int => int_token(s),
        ValueType::Str => true,
    }
}

/// The value `parse_value` returns where it accepts.
pub open spec fn parse_val(s: Seq<char>, t: ValueType) -> ValueModel {
    match t {
        ValueType::Float => ValueModel::Float(float_token_val(s)),
        ValueType::Bool => ValueModel::Bool(bool_true_token(s)),
        ValueType::Int => ValueModel::Int(int_token_val(s)),
        ValueType::Str => ValueModel::Str(s),
    }
}

/// Turn an unsigned 64-bit magnitude and a sign into a signed value,
/// if it fits.
fn signed_of(mag: u64, neg: bool) -> (r: Option<i64>)
    ensures
        match r {
            Some(v) => {
                &&& if neg {
                    mag <= 0x8000_0000_0000_0000 && v as int == -(mag as int)
                } else {
                    mag <= 0x7FFF_FFFF_FFFF_FFFF && v as int == mag as int
                }
            },
            Option::None => if neg {
                mag > 0x8000_0000_0000_0000
            } else {
                mag > 0x7FFF_FFFF_FFFF_FFFF
            },
        },
{
    if neg {
        if mag > 0x8000_0000_0000_0000u64 {
            Option::None
        } else if mag == 0x8000_0000_0000_0000u64 {
            Some(i64::MIN)
        } else {
            Some(-(mag as i64))
        }
    } else {
        if mag > 0x7FFF_FFFF_FFFF_FFFFu64 {
            Option::None
        } else {
            Some(mag as i64)
        }
    }
}

/// Read the signed integer in `s[from..]`, if there is exactly one
/// and it fits.
fn parse_int_chars(s: &Vec<char>, from: usize) -> (r: Option<i64>)
    requires
        from <= s@.len(),
    ensures
        match r {
            Some(v) => int_token(s@.skip(from as int)) && v as int == int_token_val(
                s@.skip(from as int),
            ),
            Option::None => !int_token(s@.skip(from as int)),
        },
{
    let ghost tok = s@.skip(from as int);
    let n = s.len();
    let neg = from < n && s[from] == '-';
    let start = if neg {
        from + 1
    } else {
        from
    };
    proof {
        if from < n {
            assert(tok[0] == s@[from as int]);
        }
        assert(is_negative(tok) == neg);
        assert(unsigned_part(tok) =~= s@.subrange(start as int, n as int));
    }
    let ghost u = unsigned_part(tok);
    match digits_to_u64(s, start, n) {
        Some(mag) => {
            proof {
                assert forall|k: int| 0 <= k < u.len() implies digit_val(#[trigger] u[k])
                    < 10 by {
                    assert(u[k] == s@[start + k]);
                }
            }
            signed_of(mag, neg)
        },
        Option::None => {
            proof {
                if start == n {
                    assert(u.len() == 0);
                } else if exists|k: int| start <= k < n && digit_val(#[trigger] s@[k]) >= 10 {
                    let k = choose|k: int| start <= k < n && digit_val(#[trigger] s@[k]) >= 10;
                    assert(u[k - start] == s@[k]);
                    assert(!all_digits(u));
                } else {
                    assert(dec_value(u) > 0xFFFF_FFFF_FFFF_FFFF);
                }
            }
            Option::None
        },
    }
}

/// Locate the first dot at or after `start`.
fn find_dot(s: &Vec<char>, start: usize) -> (r: Option<usize>)
    requires
        start <= s@.len(),
    ensures
        match r {
            Some(d) => {
                &&& start <= d < s@.len()
                &&& s@.skip(start as int).index_of_first('.') == Some(d - start)
                &&& s@[d as int] == '.'
            },
            Option::None => s@.skip(start as int).index_of_first('.') is None,
        },
{
    let ghost u = s@.skip(start as int);
    let n = s.len();
    let mut i: usize = start;
    while i < n
        invariant
            start <= i <= n,
            n == s@.len(),
            u == s@.skip(start as int),
            forall|j: int| start <= j < i ==> s@[j] != '.',
        decreases n - i,
    {
        if s[i] == '.' {
            proof {
                u.index_of_first_ensures('.');
                assert(u[i - start] == s@[i as int]);
                assert(u.contains('.'));
                match u.index_of_first('.') {
                    Some(idx) => {
                        assert(u[idx] == '.');
                        if idx < i - start {
                            assert(u[idx] == s@[start + idx]);
                        }
                        if idx > i - start {
                            assert(false);
                        }
                    },
                    Option::None => {
                        assert(false);
                    },
                }
            }
            return Some(i);
        }
        i += 1;
    }
    proof {
        u.index_of_first_ensures('.');
        match u.index_of_first('.') {
            Some(idx) => {
                assert(u[idx] == s@[start + idx]);
                assert(false);
            },
            Option::None => {},
        }
    }
    Option::None
}

/// Read the signed fixed-point number in `s[from..]` as hundredths,
/// if there is exactly one and it fits.
fn parse_float_chars(s: &Vec<char>, from: usize) -> (r: Option<i64>)
    requires
        from <= s@.len(),
    ensures
        match r {
            Some(v) => float_token(s@.skip(from as int)) && v as int == float_token_val(
                s@.skip(from as int),
            ),
            Option::None => !float_token(s@.skip(from as int)),
        },
{
    let ghost tok = s@.skip(from as int);
    let n = s.len();
    let neg = from < n && s[from] == '-';
    let start = if neg {
        from + 1
    } else {
        from
    };
    proof {
        if from < n {
            assert(tok[0] == s@[from as int]);
        }
        assert(is_negative(tok) == neg);
        assert(unsigned_part(tok) =~= s@.subrange(start as int, n as int));
        assert(unsigned_part(tok) =~= s@.skip(start as int));
    }
    let ghost u = unsigned_part(tok);
    match find_dot(s, start) {
        Option::None => {
            proof {
                assert(u.index_of_first('.') is None);
            }
            match digits_to_u64(s, start, n) {
                Some(ip) => {
                    proof {
                        assert(u =~= s@.subrange(start as int, n as int));
                        assert forall|k: int| 0 <= k < u.len() implies digit_val(
                            #[trigger] u[k],
                        ) < 10 by {
                            assert(u[k] == s@[start + k]);
                        }
                    }
                    if ip > 0xFFFF_FFFF_FFFF_FFFFu64 / 100 {
                        assert(float_body_val(u) > 0x8000_0000_0000_0000);
                        Option::None
                    } else {
                        signed_of(ip * 100, neg)
                    }
                },
                Option::None => {
                    proof {
                        if start == n {
                            assert(u.len() == 0);
                        } else if exists|k: int|
                            start <= k < n && digit_val(#[trigger] s@[k]) >= 10 {
                            let k = choose|k: int|
                                start <= k < n && digit_val(#[trigger] s@[k]) >= 10;
                            assert(u[k - start] == s@[k]);
                            assert(!all_digits(u));
                        } else {
                            assert(dec_value(u) > 0xFFFF_FFFF_FFFF_FFFF);
                            assert(float_body_val(u) == dec_value(u) * 100);
                        }
                    }
                    Option::None
                },
            }
        },
        Some(dot) => {
            let ghost d = dot - start;
            proof {
                assert(u.index_of_first('.') == Some(d));
                assert(u.subrange(0, d) =~= s@.subrange(start as int, dot as int));
                assert(u.subrange(d + 1, u.len() as int) =~= s@.subrange(dot + 1, n as int));
            }
            if dot == start {
                assert(!float_body_ok(u));
                return Option::None;
            }
            match digits_to_u64(s, start, dot) {
                Option::None => {
                    proof {
                        let ipart = u.subrange(0, d);
                        if exists|k: int|
                            start <= k < dot && digit_val(#[trigger] s@[k]) >= 10 {
                            let k = choose|k: int|
                                start <= k < dot && digit_val(#[trigger] s@[k]) >= 10;
                            assert(ipart[k - start] == s@[k]);
                            assert(!all_digits(ipart));
                        } else {
                            assert(dec_value(ipart) > 0xFFFF_FFFF_FFFF_FFFF);
                            assert(frac_hundredths(u.subrange(d + 1, u.len() as int)) >= 0);
                            assert(float_body_val(u) > 0x8000_0000_0000_0000);
                        }
                    }
                    Option::None
                },
                Some(ip) => {
                    proof {
                        let ipart = u.subrange(0, d);
                        assert forall|k: int| 0 <= k < ipart.len() implies digit_val(
                            #[trigger] ipart[k],
                        ) < 10 by {
                            assert(ipart[k] == s@[start + k]);
                        }
                    }
                    let mut f2: u64 = 0;
                    let mut j: usize = dot + 1;
                    let ghost frac = u.subrange(d + 1, u.len() as int);
                    while j < n
                        invariant
                            dot + 1 <= j <= n,
                            n == s@.len(),
                            from <= start <= dot < n,
                            tok == s@.skip(from as int),
                            neg == is_negative(tok),
                            u == unsigned_part(tok),
                            u == s@.skip(start as int),
                            d == dot - start,
                            u.index_of_first('.') == Some(d),
                            frac == u.subrange(d + 1, u.len() as int),
                            frac =~= s@.subrange(dot + 1, n as int),
                            forall|k: int| dot + 1 <= k < j ==> digit_val(#[trigger] s@[k]) < 10,
                            f2 as int == (if j > dot + 1 {
                                (digit_val(frac[0]) * 10) as int
                            } else {
                                0int
                            }) + (if j > dot + 2 {
                                digit_val(frac[1]) as int
                            } else {
                                0int
                            }),
                            f2 <= 99,
                        decreases n - j,
                    {
                        let dv = crate::numerals::digit_value(s[j]);
                        if dv >= 10 {
                            proof {
                                assert(frac[j - (dot + 1)] == s@[j as int]);
                                assert(!all_digits(frac));
                            }
                            return Option::None;
                        }
                        proof {
                            assert(frac[j - (dot + 1)] == s@[j as int]);
                        }
                        if j == dot + 1 {
                            f2 = dv * 10;
                        } else if j == dot + 2 {
                            f2 = f2 + dv;
                        }
                        j += 1;
                    }
                    proof {
                        assert forall|k: int| 0 <= k < frac.len() implies digit_val(
                            #[trigger] frac[k],
                        ) < 10 by {
                            assert(frac[k] == s@[dot + 1 + k]);
                        }
                        assert(float_body_ok(u));
                        assert(f2 as int == frac_hundredths(frac));
                    }
                    if ip > (0xFFFF_FFFF_FFFF_FFFFu64 - 99) / 100 {
                        proof {
                            assert(dec_value(u.subrange(0, d)) * 100 > 0x8000_0000_0000_0000);
                            assert(frac_hundredths(frac) >= 0);
                        }
                        Option::None
                    } else {
                        signed_of(ip * 100 + f2, neg)
                    }
                },
            }
        },
    }
}

/// Parse a raw host-store string as a value of the declared type.
/// Accepts exactly the well-formed tokens of that type; the error
/// carries the offending text.
pub fn parse_value(raw: &str, value_type: ValueType) -> (r: Result<SettingValue, String>)
    ensures
        r is Ok <==> parse_ok(raw@, value_type),
        r matches Ok(v) ==> v@ == parse_val(raw@, value_type),
{
    let chars = chars_of(raw);
    proof {
        assert(chars@.skip(0) =~= raw@);
    }
    match value_type {
        ValueType::Float => {
            match parse_float_chars(&chars, 0) {
                Some(v) => Ok(SettingValue::Float(v)),
                Option::None => Err(String::from_str("unreadable float value")),
            }
        },
        ValueType::Bool => {
            let raw_string: String = raw.to_owned();
            if <String as PartialEq>::eq(&raw_string, &String::from_str("1"))
                || <String as PartialEq>::eq(&raw_string, &String::from_str("true"))
                || <String as PartialEq>::eq(&raw_string, &String::from_str("yes")) {
                Ok(SettingValue::Bool(true))
            } else if <String as PartialEq>::eq(&raw_string, &String::from_str("0"))
                || <String as PartialEq>::eq(&raw_string, &String::from_str("false"))
                || <String as PartialEq>::eq(&raw_string, &String::from_str("no")) {
                Ok(SettingValue::Bool(false))
            } else {
                Err(String::from_str("unexpected boolean word"))
            }
        },
        ValueType::Int => {
            match parse_int_chars(&chars, 0) {
                Some(v) => Ok(SettingValue::Int(v)),
                Option::None => Err(String::from_str("unreadable integer value")),
            }
        },
        ValueType::Str => Ok(SettingValue::Str(raw.to_owned())),
    }
}

} // verus!
