//! The serialized form of a profile, and its reader.
//!
//! Every piece is length-prefixed or sign-tagged, so the text decodes
//! in one deterministic pass: decoding what `export_profile` wrote
//! gives back the same name, timestamp and value mapping, and that
//! round trip is proved below ([`lemma_decode_encode`]).

use vstd::prelude::*;

use crate::numerals::{
    dec_digits, dec_value, digit_val, digit_value, digits_to_u64, lemma_dec_digits_are_digits,
    lemma_dec_round_trip, u64_to_digits,
};
use crate::profile::{Profile, ProfileModel, entries_model};
use crate::settings::{SettingValue, ValueModel};
use crate::strops::{chars_of, string_from_chars};

verus! {

/// A natural number: its digits closed by a colon.
pub open spec fn enc_nat(n: nat) -> Seq<char> {
    dec_digits(n).push(':')
}

/// A string: its length, then its characters.
pub open spec fn enc_str(t: Seq<char>) -> Seq<char> {
    enc_nat(t.len()) + t
}

/// A signed number: an explicit sign, then the magnitude.
pub open spec fn enc_int(i: int) -> Seq<char> {
    if i < 0 {
        seq!['-'] + enc_nat((-i) as nat)
    } else {
        seq!['+'] + enc_nat(i as nat)
    }
}

/// A tagged value.
pub open spec fn enc_val(v: ValueModel) -> Seq<char> {
    match v {
        ValueModel::Float(h) => seq!['F'] + enc_int(h),
        ValueModel::Bool(b) => if b {
            seq!['B', '1']
        } else {
            seq!['B', '0']
        },
        ValueModel::Int(i) => seq!['I'] + enc_int(i),
        ValueModel::Str(t) => seq!['S'] + enc_str(t),
    }
}

/// The entry list, one entry after the other.
pub open spec fn enc_entries(es: Seq<(Seq<char>, ValueModel)>) -> Seq<char>
    decreases es.len(),
{
    if es.len() == 0 {
        Seq::empty()
    } else {
        enc_str(es[0].0) + enc_val(es[0].1) + enc_entries(es.drop_first())
    }
}

/// The whole profile.
pub open spec fn enc_profile(m: ProfileModel) -> Seq<char> {
    "MSP:"@ + enc_str(m.name) + enc_int(m.created_at) + enc_nat(m.settings.len())
        + enc_entries(m.settings)
}

/// Where the digit run starting at `i` ends.
pub open spec fn digits_end(s: Seq<char>, i: int) -> int
    decreases s.len() - i,
{
    if 0 <= i < s.len() && digit_val(s[i]) < 10 {
        digits_end(s, i + 1)
    } else {
        i
    }
}

/// Read a natural number closed by a colon.
pub open spec fn take_nat(s: Seq<char>, i: int) -> Option<(nat, int)> {
    let e = digits_end(s, i);
    if i < e && e < s.len() && s[e] == ':' && dec_value(s.subrange(i, e))
        <= 0xFFFF_FFFF_FFFF_FFFF {
        Some((dec_value(s.subrange(i, e)), e + 1))
    } else {
        Option::None
    }
}

/// Read a length-prefixed string.
pub open spec fn take_str(s: Seq<char>, i: int) -> Option<(Seq<char>, int)> {
    match take_nat(s, i) {
        Some((n, j)) => if j + n <= s.len() {
            Some((s.subrange(j, j + n), j + n))
        } else {
            Option::None
        },
        Option::None => Option::None,
    }
}

/// Read a signed number.
pub open spec fn take_int(s: Seq<char>, i: int) -> Option<(int, int)> {
    if 0 <= i < s.len() && (s[i] == '+' || s[i] == '-') {
        match take_nat(s, i + 1) {
            Some((n, j)) => if s[i] == '-' && n <= 0x8000_0000_0000_0000 {
                Some((-(n as int), j))
            } else if s[i] == '+' && n <= 0x7FFF_FFFF_FFFF_FFFF {
                Some((n as int, j))
            } else {
                Option::None
            },
            Option::None => Option::None,
        }
    } else {
        Option::None
    }
}

/// Read a tagged value.
pub open spec fn take_val(s: Seq<char>, i: int) -> Option<(ValueModel, int)> {
    if 0 <= i < s.len() {
        if s[i] == 'F' {
            match take_int(s, i + 1) {
                Some((h, j)) => Some((ValueModel::Float(h), j)),
                Option::None => Option::None,
            }
        } else if s[i] == 'B' {
            if i + 1 < s.len() && (s[i + 1] == '0' || s[i + 1] == '1') {
                Some((ValueModel::Bool(s[i + 1] == '1'), i + 2))
            } else {
                Option::None
            }
        } else if s[i] == 'I' {
            match take_int(s, i + 1) {
                Some((v, j)) => Some((ValueModel::Int(v), j)),
                Option::None => Option::None,
            }
        } else if s[i] == 'S' {
            match take_str(s, i + 1) {
                Some((t, j)) => Some((ValueModel::Str(t), j)),
                Option::None => Option::None,
            }
        } else {
            Option::None
        }
    } else {
        Option::None
    }
}

/// Read `count` entries.
pub open spec fn take_entries(s: Seq<char>, i: int, count: nat) -> Option<
    (Seq<(Seq<char>, ValueModel)>, int),
>
    decreases count,
{
    if count == 0 {
        Some((Seq::empty(), i))
    } else {
        match take_str(s, i) {
            Some((id, j)) => match take_val(s, j) {
                Some((v, k)) => match take_entries(s, k, (count - 1) as nat) {
                    Some((rest, e)) => Some((seq![(id, v)].add(rest), e)),
                    Option::None => Option::None,
                },
                Option::None => Option::None,
            },
            Option::None => Option::None,
        }
    }
}

/// Decode a whole profile text: the mark, the name, the timestamp,
/// the entry count and the entries, with nothing left over.
pub open spec fn decode_profile(s: Seq<char>) -> Option<ProfileModel> {
    if s.len() >= 4 && s.subrange(0, 4) == "MSP:"@ {
        match take_str(s, 4) {
            Some((name, i)) => match take_int(s, i) {
                Some((created, j)) => match take_nat(s, j) {
                    Some((count, k)) => match take_entries(s, k, count) {
                        Some((es, e)) => if e == s.len() {
                            Some(ProfileModel { name, created_at: created, settings: es })
                        } else {
                            Option::None
                        },
                        Option::None => Option::None,
                    },
                    Option::None => Option::None,
                },
                Option::None => Option::None,
            },
            Option::None => Option::None,
        }
    } else {
        Option::None
    }
}

/// Writing one entry more extends the encoding at the end.
proof fn lemma_enc_entries_snoc(es: Seq<(Seq<char>, ValueModel)>, i: int)
    requires
        0 <= i < es.len(),
    ensures
        enc_entries(es.subrange(0, i + 1)) == enc_entries(es.subrange(0, i)) + enc_str(es[i].0)
            + enc_val(es[i].1),
    decreases i,
{
    if i == 0 {
        let one = es.subrange(0, 1);
        assert(one[0] == es[0]);
        assert(one.drop_first() =~= Seq::<(Seq<char>, ValueModel)>::empty());
        assert(es.subrange(0, 0) =~= Seq::<(Seq<char>, ValueModel)>::empty());
        assert(enc_entries(one) == enc_str(es[0].0) + enc_val(es[0].1) + enc_entries(
            one.drop_first(),
        ));
        assert(enc_entries(one) =~= enc_entries(es.subrange(0, 0)) + enc_str(es[0].0) + enc_val(
            es[0].1,
        ));
    } else {
        let tail = es.drop_first();
        lemma_enc_entries_snoc(tail, i - 1);
        let a = es.subrange(0, i + 1);
        let b = es.subrange(0, i);
        assert(a[0] == es[0]);
        assert(b[0] == es[0]);
        assert(a.drop_first() =~= tail.subrange(0, i));
        assert(b.drop_first() =~= tail.subrange(0, i - 1));
        assert(tail[i - 1] == es[i]);
        assert(enc_entries(a) == enc_str(es[0].0) + enc_val(es[0].1) + enc_entries(
            a.drop_first(),
        ));
        assert(enc_entries(b) == enc_str(es[0].0) + enc_val(es[0].1) + enc_entries(
            b.drop_first(),
        ));
        assert(enc_entries(a) =~= enc_entries(b) + enc_str(es[i].0) + enc_val(es[i].1));
    }
}

/// Append the encoding of a number.
fn push_nat(out: &mut Vec<char>, n: u64)
    ensures
        final(out)@ == old(out)@ + enc_nat(n as nat),
{
    let mut d = u64_to_digits(n);
    out.append(&mut d);
    out.push(':');
    assert(out@ =~= old(out)@ + enc_nat(n as nat));
}

/// Append the encoding of a string.
fn push_str(out: &mut Vec<char>, t: &str)
    ensures
        final(out)@ == old(out)@ + enc_str(t@),
        t@.len() <= 0xFFFF_FFFF_FFFF_FFFF,
{
    let l = vstd::string::StrSliceExecFns::unicode_len(t);
    push_nat(out, l as u64);
    let mut cs = chars_of(t);
    out.append(&mut cs);
    assert(out@ =~= old(out)@ + enc_str(t@));
}

/// Append the encoding of a signed number.
fn push_int(out: &mut Vec<char>, v: i64)
    ensures
        final(out)@ == old(out)@ + enc_int(v as int),
{
    let mag: u64 = if v < 0 {
        (-(v as i128)) as u64
    } else {
        v as u64
    };
    if v < 0 {
        out.push('-');
    } else {
        out.push('+');
    }
    push_nat(out, mag);
    assert(out@ =~= old(out)@ + enc_int(v as int));
}

/// Append the encoding of a tagged value.
fn push_val(out: &mut Vec<char>, v: &SettingValue)
    ensures
        final(out)@ == old(out)@ + enc_val(v@),
        val_repr(v@),
{
    match v {
        SettingValue::Float(h) => {
            out.push('F');
            push_int(out, *h);
            assert(out@ =~= old(out)@ + enc_val(v@));
        },
        SettingValue::Bool(b) => {
            out.push('B');
            if *b {
                out.push('1');
            } else {
                out.push('0');
            }
            assert(out@ =~= old(out)@ + enc_val(v@));
        },
        SettingValue::Int(n) => {
            out.push('I');
            push_int(out, *n);
            assert(out@ =~= old(out)@ + enc_val(v@));
        },
        SettingValue::Str(t) => {
            out.push('S');
            push_str(out, t.as_str());
            assert(out@ =~= old(out)@ + enc_val(v@));
        },
    }
}

/// Serialize a profile. Decoding the result gives back the same
/// name, timestamp and value mapping ([`lemma_decode_encode`]).
pub fn export_profile(p: &Profile) -> (r: String)
    ensures
        r@ == enc_profile(p@),
        decode_profile(r@) == Some(p@),
{
    let mut out: Vec<char> = Vec::new();
    out.push('M');
    out.push('S');
    out.push('P');
    out.push(':');
    proof {
        reveal_strlit("MSP:");
        assert(out@ =~= "MSP:"@);
    }
    push_str(&mut out, p.name.as_str());
    push_int(&mut out, p.created_at);
    push_nat(&mut out, p.settings.len() as u64);
    let ghost head = out@;
    let m = p.settings.len();
    let mut i: usize = 0;
    while i < m
        invariant
            i <= m,
            m == p.settings@.len(),
            out@ == head + enc_entries(p@.settings.subrange(0, i as int)),
            forall|k: int|
                0 <= k < i ==> (#[trigger] p@.settings[k]).0.len() <= 0xFFFF_FFFF_FFFF_FFFF
                    && val_repr(p@.settings[k].1),
        decreases m - i,
    {
        assert(p@.settings[i as int] == (p.settings@[i as int].0@, p.settings@[i as int].1@));
        let pair = &p.settings[i];
        push_str(&mut out, pair.0.as_str());
        push_val(&mut out, &pair.1);
        proof {
            lemma_enc_entries_snoc(p@.settings, i as int);
            assert(out@ =~= head + enc_entries(p@.settings.subrange(0, i + 1)));
        }
        i += 1;
    }
    proof {
        assert(p@.settings.subrange(0, m as int) =~= p@.settings);
        assert(out@ =~= enc_profile(p@));
        assert(profile_repr(p@));
        lemma_decode_encode(p@);
    }
    string_from_chars(&out)
}

/// Characters in a digit run are all digits.
proof fn lemma_digits_end_digits(s: Seq<char>, i: int)
    requires
        0 <= i <= s.len(),
    ensures
        i <= digits_end(s, i) <= s.len(),
        forall|k: int| i <= k < digits_end(s, i) ==> digit_val(#[trigger] s[k]) < 10,
    decreases s.len() - i,
{
    if i < s.len() && digit_val(s[i]) < 10 {
        lemma_digits_end_digits(s, i + 1);
    }
}

/// Find the end of the digit run starting at `i`.
fn scan_digits(s: &Vec<char>, i: usize) -> (e: usize)
    requires
        i <= s@.len(),
    ensures
        i <= e <= s@.len(),
        e as int == digits_end(s@, i as int),
{
    let n = s.len();
    let mut j: usize = i;
    while j < n && digit_value(s[j]) < 10
        invariant
            i <= j <= n,
            n == s@.len(),
            digits_end(s@, i as int) == digits_end(s@, j as int),
        decreases n - j,
    {
        j += 1;
    }
    j
}

/// Read a number closed by a colon.
fn take_nat_exec(s: &Vec<char>, i: usize) -> (r: Option<(u64, usize)>)
    requires
        i <= s@.len(),
    ensures
        match r {
            Some((v, j)) => take_nat(s@, i as int) == Some((v as nat, j as int)) && i < j
                <= s@.len(),
            Option::None => take_nat(s@, i as int) is None,
        },
{
    let e = scan_digits(s, i);
    proof {
        lemma_digits_end_digits(s@, i as int);
    }
    if e == i || e >= s.len() {
        return Option::None;
    }
    if !(s[e] == ':') {
        return Option::None;
    }
    match digits_to_u64(s, i, e) {
        Some(v) => Some((v, e + 1)),
        Option::None => {
            proof {
                assert(dec_value(s@.subrange(i as int, e as int)) > 0xFFFF_FFFF_FFFF_FFFF);
            }
            Option::None
        },
    }
}

/// Copy out a character range.
fn sub_chars(s: &Vec<char>, from: usize, to: usize) -> (r: Vec<char>)
    requires
        from <= to <= s@.len(),
    ensures
        r@ == s@.subrange(from as int, to as int),
{
    let mut r: Vec<char> = Vec::new();
    let mut i: usize = from;
    while i < to
        invariant
            from <= i <= to <= s@.len(),
            r@ == s@.subrange(from as int, i as int),
        decreases to - i,
    {
        r.push(s[i]);
        assert(r@ =~= s@.subrange(from as int, i + 1));
        i += 1;
    }
    r
}

/// Read a length-prefixed string.
fn take_str_exec(s: &Vec<char>, i: usize) -> (r: Option<(String, usize)>)
    requires
        i <= s@.len(),
    ensures
        match r {
            Some((t, j)) => take_str(s@, i as int) == Some((t@, j as int)) && i < j <= s@.len(),
            Option::None => take_str(s@, i as int) is None,
        },
{
    match take_nat_exec(s, i) {
        Some((n, j)) => {
            let remaining = s.len() - j;
            if n > remaining as u64 {
                return Option::None;
            }
            let ln = n as usize;
            let chars = sub_chars(s, j, j + ln);
            Some((string_from_chars(&chars), j + ln))
        },
        Option::None => Option::None,
    }
}

/// Read a signed number.
fn take_int_exec(s: &Vec<char>, i: usize) -> (r: Option<(i64, usize)>)
    requires
        i <= s@.len(),
    ensures
        match r {
            Some((v, j)) => take_int(s@, i as int) == Some((v as int, j as int)) && i < j
                <= s@.len(),
            Option::None => take_int(s@, i as int) is None,
        },
{
    if i >= s.len() {
        return Option::None;
    }
    let c = s[i];
    if !(c == '+' || c == '-') {
        return Option::None;
    }
    match take_nat_exec(s, i + 1) {
        Some((n, j)) => {
            if c == '-' {
                if n > 0x8000_0000_0000_0000u64 {
                    Option::None
                } else if n == 0x8000_0000_0000_0000u64 {
                    Some((i64::MIN, j))
                } else {
                    Some((-(n as i64), j))
                }
            } else {
                if n > 0x7FFF_FFFF_FFFF_FFFFu64 {
                    Option::None
                } else {
                    Some((n as i64, j))
                }
            }
        },
        Option::None => Option::None,
    }
}

/// Read a tagged value.
fn take_val_exec(s: &Vec<char>, i: usize) -> (r: Option<(SettingValue, usize)>)
    requires
        i <= s@.len(),
    ensures
        match r {
            Some((v, j)) => take_val(s@, i as int) == Some((v@, j as int)) && i < j <= s@.len(),
            Option::None => take_val(s@, i as int) is None,
        },
{
    if i >= s.len() {
        return Option::None;
    }
    let tag = s[i];
    if tag == 'F' {
        match take_int_exec(s, i + 1) {
            Some((h, j)) => Some((SettingValue::Float(h), j)),
            Option::None => Option::None,
        }
    } else if tag == 'B' {
        if i + 1 < s.len() && (s[i + 1] == '0' || s[i + 1] == '1') {
            Some((SettingValue::Bool(s[i + 1] == '1'), i + 2))
        } else {
            Option::None
        }
    } else if tag == 'I' {
        match take_int_exec(s, i + 1) {
            Some((v, j)) => Some((SettingValue::Int(v), j)),
            Option::None => Option::None,
        }
    } else if tag == 'S' {
        match take_str_exec(s, i + 1) {
            Some((t, j)) => Some((SettingValue::Str(t), j)),
            Option::None => Option::None,
        }
    } else {
        Option::None
    }
}

/// Deserialize a profile: accepts exactly the texts the decoder
/// accepts, and returns exactly what it decodes.
pub fn import_profile(s: &str) -> (r: Option<Profile>)
    ensures
        match r {
            Some(p) => decode_profile(s@) == Some(p@),
            Option::None => decode_profile(s@) is None,
        },
{
    let chars = chars_of(s);
    let n = chars.len();
    if n < 4 {
        return Option::None;
    }
    proof {
        reveal_strlit("MSP:");
    }
    if !(chars[0] == 'M' && chars[1] == 'S' && chars[2] == 'P' && chars[3] == ':') {
        proof {
            if s@.subrange(0, 4) == "MSP:"@ {
                assert(s@[0] == s@.subrange(0, 4)[0]);
                assert(s@[1] == s@.subrange(0, 4)[1]);
                assert(s@[2] == s@.subrange(0, 4)[2]);
                assert(s@[3] == s@.subrange(0, 4)[3]);
            }
        }
        return Option::None;
    }
    proof {
        assert(s@.subrange(0, 4) =~= "MSP:"@);
    }
    let name_parsed = match take_str_exec(&chars, 4) {
        Some(x) => x,
        Option::None => {
            return Option::None;
        },
    };
    let created_parsed = match take_int_exec(&chars, name_parsed.1) {
        Some(x) => x,
        Option::None => {
            return Option::None;
        },
    };
    let count_parsed = match take_nat_exec(&chars, created_parsed.1) {
        Some(x) => x,
        Option::None => {
            return Option::None;
        },
    };
    let count = count_parsed.0;
    let ghost pos0 = count_parsed.1 as int;
    let mut acc: Vec<(String, SettingValue)> = Vec::new();
    let mut cur: usize = count_parsed.1;
    let mut i: u64 = 0;
    while i < count
        invariant
            i <= count,
            cur <= chars@.len(),
            chars@ == s@,
            s@.len() >= 4 && s@.subrange(0, 4) == "MSP:"@,
            take_str(s@, 4) == Some((name_parsed.0@, name_parsed.1 as int)),
            take_int(s@, name_parsed.1 as int) == Some(
                (created_parsed.0 as int, created_parsed.1 as int),
            ),
            take_nat(s@, created_parsed.1 as int) == Some((count as nat, pos0)),
            take_entries(s@, pos0, count as nat) == (match take_entries(
                s@,
                cur as int,
                (count - i) as nat,
            ) {
                Some((rest, e)) => Some((entries_model(acc@) + rest, e)),
                Option::None => Option::None::<(Seq<(Seq<char>, ValueModel)>, int)>,
            }),
        decreases count - i,
    {
        let id_parsed = match take_str_exec(&chars, cur) {
            Some(x) => x,
            Option::None => {
                return Option::None;
            },
        };
        let val_parsed = match take_val_exec(&chars, id_parsed.1) {
            Some(x) => x,
            Option::None => {
                return Option::None;
            },
        };
        let ghost prev_acc = acc@;
        acc.push((id_parsed.0, val_parsed.0));
        proof {
            assert(entries_model(acc@) =~= entries_model(prev_acc).push(
                (acc@[acc@.len() - 1].0@, acc@[acc@.len() - 1].1@),
            ));
            assert forall|rest: Seq<(Seq<char>, ValueModel)>|
                true implies entries_model(prev_acc) + seq![
                (acc@[acc@.len() - 1].0@, acc@[acc@.len() - 1].1@),
            ].add(rest) =~= entries_model(acc@) + rest by {}
        }
        cur = val_parsed.1;
        i += 1;
    }
    proof {
        assert(take_entries(s@, cur as int, 0) == Some(
            (Seq::<(Seq<char>, ValueModel)>::empty(), cur as int),
        ));
        assert(entries_model(acc@) + Seq::<(Seq<char>, ValueModel)>::empty() =~= entries_model(
            acc@,
        ));
    }
    if cur != n {
        return Option::None;
    }
    let p = Profile { name: name_parsed.0, created_at: created_parsed.0, settings: acc };
    proof {
        assert(p@.settings == entries_model(acc@));
    }
    Some(p)
}

/// A digit run followed by a non-digit ends exactly at the non-digit.
proof fn lemma_digits_end_run(s: Seq<char>, i: int, e: int)
    requires
        0 <= i <= e <= s.len(),
        forall|k: int| i <= k < e ==> digit_val(#[trigger] s[k]) < 10,
        e < s.len() ==> digit_val(s[e]) >= 10,
    ensures
        digits_end(s, i) == e,
    decreases e - i,
{
    if i < e {
        lemma_digits_end_run(s, i + 1, e);
    }
}

/// Reading a number back out of its encoding: `enc_nat(n)` placed at
/// `i` in a larger text decodes to `n` and stops right after the
/// colon.
proof fn lemma_take_nat_enc(s: Seq<char>, i: int, n: nat)
    requires
        n <= 0xFFFF_FFFF_FFFF_FFFF,
        0 <= i,
        i + enc_nat(n).len() <= s.len(),
        s.subrange(i, i + enc_nat(n).len() as int) == enc_nat(n),
    ensures
        take_nat(s, i) == Some((n, i + enc_nat(n).len() as int)),
{
    lemma_dec_digits_are_digits(n);
    let d = dec_digits(n);
    let piece = s.subrange(i, i + enc_nat(n).len() as int);
    assert(piece.len() == d.len() + 1);
    assert forall|k: int| i <= k < i + d.len() implies digit_val(#[trigger] s[k]) < 10 by {
        assert(s[k] == piece[k - i]);
        assert(piece[k - i] == d[k - i]);
    }
    assert(s[i + d.len()] == piece[d.len() as int]);
    assert(piece[d.len() as int] == ':');
    assert(digit_val(':') >= 10);
    lemma_digits_end_run(s, i, i + d.len());
    assert(s.subrange(i, i + d.len()) =~= d);
    lemma_dec_round_trip(n);
}

/// `enc_str(t)` placed at `i` decodes to `t`.
proof fn lemma_take_str_enc(s: Seq<char>, i: int, t: Seq<char>)
    requires
        t.len() <= 0xFFFF_FFFF_FFFF_FFFF,
        0 <= i,
        i + enc_str(t).len() <= s.len(),
        s.subrange(i, i + enc_str(t).len() as int) == enc_str(t),
    ensures
        take_str(s, i) == Some((t, i + enc_str(t).len() as int)),
{
    let pre = enc_nat(t.len());
    assert(s.subrange(i, i + pre.len() as int) =~= pre) by {
        let whole = s.subrange(i, i + enc_str(t).len() as int);
        assert forall|k: int| 0 <= k < pre.len() implies s.subrange(i, i + pre.len() as int)[k]
            == pre[k] by {
            assert(s.subrange(i, i + pre.len() as int)[k] == whole[k]);
            assert(whole[k] == enc_str(t)[k]);
            assert(enc_str(t)[k] == pre[k]);
        }
    }
    lemma_take_nat_enc(s, i, t.len());
    let j = i + pre.len() as int;
    assert(s.subrange(j, j + t.len() as int) =~= t) by {
        let whole = s.subrange(i, i + enc_str(t).len() as int);
        assert forall|k: int| 0 <= k < t.len() implies s.subrange(j, j + t.len() as int)[k]
            == t[k] by {
            assert(s.subrange(j, j + t.len() as int)[k] == s[j + k]);
            assert(s[j + k] == whole[pre.len() + k]);
            assert(whole[pre.len() + k] == enc_str(t)[pre.len() + k]);
            assert(enc_str(t)[pre.len() + k] == t[k]);
        }
    }
}

/// `enc_int(v)` placed at `i` decodes to `v`.
proof fn lemma_take_int_enc(s: Seq<char>, i: int, v: int)
    requires
        -0x8000_0000_0000_0000 <= v <= 0x7FFF_FFFF_FFFF_FFFF,
        0 <= i,
        i + enc_int(v).len() <= s.len(),
        s.subrange(i, i + enc_int(v).len() as int) == enc_int(v),
    ensures
        take_int(s, i) == Some((v, i + enc_int(v).len() as int)),
{
    let whole = s.subrange(i, i + enc_int(v).len() as int);
    assert(s[i] == whole[0]);
    let mag: nat = if v < 0 {
        (-v) as nat
    } else {
        v as nat
    };
    let pre = enc_nat(mag);
    assert(s.subrange(i + 1, i + 1 + pre.len() as int) =~= pre) by {
        assert forall|k: int| 0 <= k < pre.len() implies s.subrange(
            i + 1,
            i + 1 + pre.len() as int,
        )[k] == pre[k] by {
            assert(s.subrange(i + 1, i + 1 + pre.len() as int)[k] == s[i + 1 + k]);
            assert(s[i + 1 + k] == whole[1 + k]);
            assert(whole[1 + k] == enc_int(v)[1 + k]);
            assert(enc_int(v)[1 + k] == pre[k]);
        }
    }
    lemma_take_nat_enc(s, i + 1, mag);
    assert(digit_val('+') >= 10 && digit_val('-') >= 10);
    if v < 0 {
        assert(whole[0] == '-');
    } else {
        assert(whole[0] == '+');
        assert('+' != '-');
    }
}

/// A value whose payload the machine types can carry.
pub open spec fn val_repr(v: ValueModel) -> bool {
    match v {
        ValueModel::Float(h) => -0x8000_0000_0000_0000 <= h <= 0x7FFF_FFFF_FFFF_FFFF,
        ValueModel::Bool(_) => true,
        ValueModel::Int(n) => -0x8000_0000_0000_0000 <= n <= 0x7FFF_FFFF_FFFF_FFFF,
        ValueModel::Str(t) => t.len() <= 0xFFFF_FFFF_FFFF_FFFF,
    }
}

/// A profile whose name, timestamp and entries the machine types can
/// carry; true of every profile the library builds.
pub open spec fn profile_repr(m: ProfileModel) -> bool {
    &&& m.name.len() <= 0xFFFF_FFFF_FFFF_FFFF
    &&& -0x8000_0000_0000_0000 <= m.created_at <= 0x7FFF_FFFF_FFFF_FFFF
    &&& m.settings.len() <= 0xFFFF_FFFF_FFFF_FFFF
    &&& forall|k: int|
        0 <= k < m.settings.len() ==> (#[trigger] m.settings[k]).0.len()
            <= 0xFFFF_FFFF_FFFF_FFFF && val_repr(m.settings[k].1)
}

/// `enc_val(v)` placed at `i` decodes to `v`.
proof fn lemma_take_val_enc(s: Seq<char>, i: int, v: ValueModel)
    requires
        val_repr(v),
        0 <= i,
        i + enc_val(v).len() <= s.len(),
        s.subrange(i, i + enc_val(v).len() as int) == enc_val(v),
    ensures
        take_val(s, i) == Some((v, i + enc_val(v).len() as int)),
{
    let whole = s.subrange(i, i + enc_val(v).len() as int);
    assert(s[i] == whole[0]);
    match v {
        ValueModel::Float(h) => {
            assert(whole[0] == 'F');
            assert(s.subrange(i + 1, i + 1 + enc_int(h).len() as int) =~= enc_int(h)) by {
                assert forall|k: int| 0 <= k < enc_int(h).len() implies s.subrange(
                    i + 1,
                    i + 1 + enc_int(h).len() as int,
                )[k] == enc_int(h)[k] by {
                    assert(s.subrange(i + 1, i + 1 + enc_int(h).len() as int)[k] == s[i + 1 + k]);
                    assert(s[i + 1 + k] == whole[1 + k]);
                    assert(whole[1 + k] == enc_val(v)[1 + k]);
                }
            }
            lemma_take_int_enc(s, i + 1, h);
        },
        ValueModel::Bool(b) => {
            assert(whole[0] == 'B');
            assert(s[i + 1] == whole[1]);
        },
        ValueModel::Int(n) => {
            assert(whole[0] == 'I');
            assert(s.subrange(i + 1, i + 1 + enc_int(n).len() as int) =~= enc_int(n)) by {
                assert forall|k: int| 0 <= k < enc_int(n).len() implies s.subrange(
                    i + 1,
                    i + 1 + enc_int(n).len() as int,
                )[k] == enc_int(n)[k] by {
                    assert(s.subrange(i + 1, i + 1 + enc_int(n).len() as int)[k] == s[i + 1 + k]);
                    assert(s[i + 1 + k] == whole[1 + k]);
                    assert(whole[1 + k] == enc_val(v)[1 + k]);
                }
            }
            lemma_take_int_enc(s, i + 1, n);
        },
        ValueModel::Str(t) => {
            assert(whole[0] == 'S');
            assert(s.subrange(i + 1, i + 1 + enc_str(t).len() as int) =~= enc_str(t)) by {
                assert forall|k: int| 0 <= k < enc_str(t).len() implies s.subrange(
                    i + 1,
                    i + 1 + enc_str(t).len() as int,
                )[k] == enc_str(t)[k] by {
                    assert(s.subrange(i + 1, i + 1 + enc_str(t).len() as int)[k] == s[i + 1 + k]);
                    assert(s[i + 1 + k] == whole[1 + k]);
                    assert(whole[1 + k] == enc_val(v)[1 + k]);
                }
            }
            lemma_take_str_enc(s, i + 1, t);
        },
    }
}

/// `enc_entries(es)` placed at `i` and reaching to the end of the
/// text decodes to `es`.
proof fn lemma_take_entries_enc(s: Seq<char>, i: int, es: Seq<(Seq<char>, ValueModel)>)
    requires
        forall|k: int|
            0 <= k < es.len() ==> (#[trigger] es[k]).0.len() <= 0xFFFF_FFFF_FFFF_FFFF
                && val_repr(es[k].1),
        0 <= i,
        i + enc_entries(es).len() == s.len(),
        s.subrange(i, s.len() as int) == enc_entries(es),
    ensures
        take_entries(s, i, es.len()) == Some((es, s.len() as int)),
    decreases es.len(),
{
    if es.len() == 0 {
        assert(es =~= Seq::<(Seq<char>, ValueModel)>::empty());
    } else {
        let id = es[0].0;
        let v = es[0].1;
        let tail = s.subrange(i, s.len() as int);
        let a = enc_str(id);
        let b = enc_val(v);
        assert(s.subrange(i, i + a.len() as int) =~= a) by {
            assert forall|k: int| 0 <= k < a.len() implies s.subrange(i, i + a.len() as int)[k]
                == a[k] by {
                assert(s.subrange(i, i + a.len() as int)[k] == tail[k]);
                assert(tail[k] == (a + b + enc_entries(es.drop_first()))[k]);
            }
        }
        lemma_take_str_enc(s, i, id);
        let j = i + a.len() as int;
        assert(s.subrange(j, j + b.len() as int) =~= b) by {
            assert forall|k: int| 0 <= k < b.len() implies s.subrange(j, j + b.len() as int)[k]
                == b[k] by {
                assert(s.subrange(j, j + b.len() as int)[k] == s[j + k]);
                assert(s[j + k] == tail[a.len() + k]);
                assert(tail[a.len() + k] == (a + b + enc_entries(es.drop_first()))[a.len() + k]);
            }
        }
        lemma_take_val_enc(s, j, v);
        let k2 = j + b.len() as int;
        assert(s.subrange(k2, s.len() as int) =~= enc_entries(es.drop_first())) by {
            assert forall|k: int| 0 <= k < enc_entries(es.drop_first()).len() implies s.subrange(
                k2,
                s.len() as int,
            )[k] == enc_entries(es.drop_first())[k] by {
                assert(s.subrange(k2, s.len() as int)[k] == s[k2 + k]);
                assert(s[k2 + k] == tail[a.len() + b.len() + k]);
                assert(tail[a.len() + b.len() + k] == (a + b + enc_entries(es.drop_first()))[a.len()
                    + b.len() + k]);
            }
        }
        lemma_take_entries_enc(s, k2, es.drop_first());
        assert(seq![(id, v)].add(es.drop_first()) =~= es);
    }
}

/// Decoding an encoded profile gives back the name, timestamp and
/// entry list unchanged: the serialized form is lossless.
pub proof fn lemma_decode_encode(m: ProfileModel)
    requires
        profile_repr(m),
    ensures
        decode_profile(enc_profile(m)) == Some(m),
{
    let s = enc_profile(m);
    let a = enc_str(m.name);
    let b = enc_int(m.created_at);
    let c = enc_nat(m.settings.len());
    let d = enc_entries(m.settings);
    assert(s == "MSP:"@ + a + b + c + d);
    assert(s.len() == 4 + a.len() + b.len() + c.len() + d.len()) by {
        reveal_strlit("MSP:");
    }
    assert(s.subrange(0, 4) =~= "MSP:"@) by {
        reveal_strlit("MSP:");
        assert forall|k: int| 0 <= k < 4 implies s.subrange(0, 4)[k] == "MSP:"@[k] by {
            assert(s[k] == ("MSP:"@ + a + b + c + d)[k]);
        }
    }
    assert(s.subrange(4, 4 + a.len() as int) =~= a) by {
        assert forall|k: int| 0 <= k < a.len() implies s.subrange(4, 4 + a.len() as int)[k]
            == a[k] by {
            assert(s.subrange(4, 4 + a.len() as int)[k] == s[4 + k]);
            assert(s[4 + k] == ("MSP:"@ + a + b + c + d)[4 + k]);
        }
    }
    lemma_take_str_enc(s, 4, m.name);
    let i = 4 + a.len() as int;
    assert(s.subrange(i, i + b.len() as int) =~= b) by {
        assert forall|k: int| 0 <= k < b.len() implies s.subrange(i, i + b.len() as int)[k]
            == b[k] by {
            assert(s.subrange(i, i + b.len() as int)[k] == s[i + k]);
            assert(s[i + k] == ("MSP:"@ + a + b + c + d)[i + k]);
        }
    }
    lemma_take_int_enc(s, i, m.created_at);
    let j = i + b.len() as int;
    assert(s.subrange(j, j + c.len() as int) =~= c) by {
        assert forall|k: int| 0 <= k < c.len() implies s.subrange(j, j + c.len() as int)[k]
            == c[k] by {
            assert(s.subrange(j, j + c.len() as int)[k] == s[j + k]);
            assert(s[j + k] == ("MSP:"@ + a + b + c + d)[j + k]);
        }
    }
    lemma_take_nat_enc(s, j, m.settings.len());
    let k2 = j + c.len() as int;
    assert(s.subrange(k2, s.len() as int) =~= d) by {
        assert forall|k: int| 0 <= k < d.len() implies s.subrange(k2, s.len() as int)[k]
            == d[k] by {
            assert(s.subrange(k2, s.len() as int)[k] == s[k2 + k]);
            assert(s[k2 + k] == ("MSP:"@ + a + b + c + d)[k2 + k]);
        }
    }
    lemma_take_entries_enc(s, k2, m.settings);
}

} // verus!
