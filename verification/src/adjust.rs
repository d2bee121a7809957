//! Constrained adjustment: the next legal value for a setting under
//! its constraint, one step in a chosen direction, and the toggle
//! intent.
//!
//! Both operations are pure; the caller stages the result. A pairing
//! of value and constraint that has no notion of "one step" yields
//! nothing, which the caller treats as "not adjustable", not as an
//! error. Float values are fixed point in hundredths, so a clamped
//! step is exact and needs no rounding.

use vstd::prelude::*;

use crate::settings::{
    Constraint, ConstraintModel, DefModel, SettingDef, SettingValue, ValueModel, def_wf,
    distinct_seqs, options_model,
};

verus! {

/// Clamp `v` into `[min, max]`.
pub open spec fn clamp(v: int, min: int, max: int) -> int {
    if v < min {
        min
    } else if v > max {
        max
    } else {
        v
    }
}

/// One float-range step: move by `dir * step`, clamped to the range.
pub open spec fn float_step(v: int, min: int, max: int, step: int, dir: int) -> int {
    clamp(v + dir * step, min, max)
}

/// Index one place forward or backward in a cyclic list of length
/// `len`: the same as `(i + dir) modulo len` for `dir` in `{-1, 1}`,
/// written without the modulus.
pub open spec fn step_index(i: int, dir: int, len: int) -> int {
    if dir == 1 {
        if i + 1 == len {
            0
        } else {
            i + 1
        }
    } else {
        if i == 0 {
            len - 1
        } else {
            i - 1
        }
    }
}

/// What `adjust` returns: the next legal value one step in direction
/// `dir`, or nothing when the pairing of value and constraint is not
/// step-adjustable (or the string drifted outside the option list).
pub open spec fn spec_adjust(d: DefModel, current: ValueModel, dir: int) -> Option<ValueModel> {
    match (current, d.constraint) {
        (ValueModel::Float(v), ConstraintModel::Float { min, max, step }) => Some(
            ValueModel::Float(float_step(v, min, max, step, dir)),
        ),
        (ValueModel::Int(v), ConstraintModel::Int { min, max }) => Some(
            ValueModel::Int(clamp(v + dir, min, max)),
        ),
        (ValueModel::Str(s), ConstraintModel::Options(opts)) => if opts.contains(s) {
            Some(ValueModel::Str(opts[step_index(opts.index_of(s), dir, opts.len() as int)]))
        } else {
            Option::None
        },
        _ => Option::None,
    }
}

/// What `toggle` returns: a flipped boolean, the next string option
/// (single step forward in the cycle), or nothing.
pub open spec fn spec_toggle(d: DefModel, current: ValueModel) -> Option<ValueModel> {
    match (current, d.constraint) {
        (ValueModel::Bool(b), _) => Some(ValueModel::Bool(!b)),
        (ValueModel::Str(s), ConstraintModel::Options(opts)) => if opts.contains(s) {
            Some(ValueModel::Str(opts[step_index(opts.index_of(s), 1, opts.len() as int)]))
        } else {
            Option::None
        },
        _ => Option::None,
    }
}

/// Model of an optional value.
pub open spec fn opt_model(o: Option<SettingValue>) -> Option<ValueModel> {
    match o {
        Some(v) => Some(v@),
        Option::None => Option::None,
    }
}

/// The value reached from `v` after `n` adjustment steps in direction
/// `dir`; a step that yields nothing leaves the value in place.
pub open spec fn iter_adjust(d: DefModel, v: ValueModel, dir: int, n: nat) -> ValueModel
    decreases n,
{
    if n == 0 {
        v
    } else {
        let prev = iter_adjust(d, v, dir, (n - 1) as nat);
        match spec_adjust(d, prev, dir) {
            Some(w) => w,
            Option::None => prev,
        }
    }
}

/// The float carried by a value, where it carries one.
pub open spec fn float_of(v: ValueModel) -> int {
    match v {
        ValueModel::Float(x) => x,
        _ => 0,
    }
}

/// Repeated adjustment of a float-range setting never leaves the
/// range: from any starting point, after at least one step in either
/// direction the value lies within `[min, max]` — in particular,
/// stepping up never exceeds `max` and stepping down never goes below
/// `min`. (Values are held in hundredths, so every result is exact to
/// two decimals by representation.)
pub proof fn lemma_repeated_float_adjust_in_range(
    d: DefModel,
    v: int,
    min: int,
    max: int,
    step: int,
    dir: int,
    n: nat,
)
    requires
        d.constraint == (ConstraintModel::Float { min, max, step }),
        min <= max,
        n >= 1,
    ensures
        iter_adjust(d, ValueModel::Float(v), dir, n) is Float,
        min <= float_of(iter_adjust(d, ValueModel::Float(v), dir, n)) <= max,
    decreases n,
{
    if n == 1 {
        let prev = iter_adjust(d, ValueModel::Float(v), dir, 0);
        assert(prev == ValueModel::Float(v));
        assert(spec_adjust(d, prev, dir) == Some(
            ValueModel::Float(float_step(v, min, max, step, dir)),
        ));
    } else {
        lemma_repeated_float_adjust_in_range(d, v, min, max, step, dir, (n - 1) as nat);
        let prev = iter_adjust(d, ValueModel::Float(v), dir, (n - 1) as nat);
        let w = float_of(prev);
        assert(spec_adjust(d, prev, dir) == Some(
            ValueModel::Float(float_step(w, min, max, step, dir)),
        ));
    }
}

/// Toggling a boolean twice returns the original value.
pub proof fn lemma_toggle_bool_involution(d: DefModel, b: bool)
    ensures
        spec_toggle(d, spec_toggle(d, ValueModel::Bool(b)).unwrap()) == Some(
            ValueModel::Bool(b),
        ),
{
}

/// Index reached after `k` forward steps in a cycle of length `len`,
/// starting from `i`: wraps past the end at most once for `k <= len`.
pub open spec fn fwd_index(i: int, k: int, len: int) -> int {
    if i + k < len {
        i + k
    } else {
        i + k - len
    }
}

/// Index reached after `k` backward steps: wraps below zero at most
/// once for `k <= len`.
pub open spec fn bwd_index(i: int, k: int, len: int) -> int {
    if i - k >= 0 {
        i - k
    } else {
        i - k + len
    }
}

/// After `k` steps through a distinct option list, the value is the
/// option at the cyclically shifted index.
proof fn lemma_option_steps(d: DefModel, opts: Seq<Seq<char>>, i0: int, dir: int, k: nat)
    requires
        d.constraint == ConstraintModel::Options(opts),
        distinct_seqs(opts),
        0 <= i0 < opts.len(),
        dir == 1 || dir == -1,
        k <= opts.len(),
    ensures
        iter_adjust(d, ValueModel::Str(opts[i0]), dir, k) == ValueModel::Str(
            opts[if dir == 1 {
                fwd_index(i0, k as int, opts.len() as int)
            } else {
                bwd_index(i0, k as int, opts.len() as int)
            }],
        ),
    decreases k,
{
    let len = opts.len() as int;
    if k > 0 {
        lemma_option_steps(d, opts, i0, dir, (k - 1) as nat);
        let j = if dir == 1 {
            fwd_index(i0, k - 1, len)
        } else {
            bwd_index(i0, k - 1, len)
        };
        assert(0 <= j < len);
        lemma_distinct_index_of(opts, opts[j], j);
    }
}

/// Stepping through a distinct string-option list as many times as it
/// has options returns to the original value, in either direction:
/// the adjacent-option move is a cycle of order `len`.
pub proof fn lemma_string_options_cycle(d: DefModel, opts: Seq<Seq<char>>, s: Seq<char>, dir: int)
    requires
        d.constraint == ConstraintModel::Options(opts),
        distinct_seqs(opts),
        opts.contains(s),
        dir == 1 || dir == -1,
    ensures
        iter_adjust(d, ValueModel::Str(s), dir, opts.len()) == ValueModel::Str(s),
{
    let i0 = opts.index_of(s);
    assert(0 <= i0 < opts.len() && opts[i0] == s);
    lemma_option_steps(d, opts, i0, dir, opts.len());
}

/// In a list of distinct elements, the (chosen) index of a member is
/// the only place it occurs.
proof fn lemma_distinct_index_of(opts: Seq<Seq<char>>, s: Seq<char>, i: int)
    requires
        distinct_seqs(opts),
        0 <= i < opts.len(),
        opts[i] == s,
    ensures
        opts.contains(s),
        opts.index_of(s) == i,
{
    assert(opts.contains(s));
    let j = opts.index_of(s);
    assert(0 <= j < opts.len() && opts[j] == s);
    if i < j {
        assert(opts[i] != opts[j]);
    }
    if j < i {
        assert(opts[j] != opts[i]);
    }
}

/// Find the index of `s` in `opts`, if it is a member.
fn find_option(opts: &Vec<String>, s: &String) -> (r: Option<usize>)
    requires
        distinct_seqs(options_model(opts@)),
    ensures
        match r {
            Some(i) => {
                &&& i < opts@.len()
                &&& opts@[i as int]@ == s@
                &&& options_model(opts@).contains(s@)
                &&& options_model(opts@).index_of(s@) == i as int
            },
            Option::None => !options_model(opts@).contains(s@),
        },
{
    let ghost model = options_model(opts@);
    let mut i: usize = 0;
    while i < opts.len()
        invariant
            i <= opts@.len(),
            model == options_model(opts@),
            distinct_seqs(model),
            forall|j: int| 0 <= j < i ==> model[j] != s@,
        decreases opts@.len() - i,
    {
        if <String as PartialEq>::eq(&opts[i], s) {
            proof {
                assert(model[i as int] == opts@[i as int]@);
                lemma_distinct_index_of(model, s@, i as int);
            }
            return Some(i);
        }
        assert(model[i as int] == opts@[i as int]@);
        i += 1;
    }
    assert forall|j: int| 0 <= j < model.len() implies model[j] != s@ by {}
    Option::None
}

/// The next legal value one step from `current` under `def`'s
/// constraint: floats move by `step` and clamp to the range, integers
/// move by 1 and clamp, string options move to the adjacent option
/// wrapping circularly. Any other pairing yields nothing.
pub fn adjust(def: &SettingDef, current: &SettingValue, direction: i32) -> (r: Option<
    SettingValue,
>)
    requires
        def_wf(def@),
        direction == 1 || direction == -1,
    ensures
        opt_model(r) == spec_adjust(def@, current@, direction as int),
{
    match (current, &def.constraint) {
        (SettingValue::Float(v), Constraint::FloatRange(fr)) => {
            let wide: i128 = *v as i128 + (direction as i128) * (fr.step as i128);
            let clamped: i64 = if wide < fr.min as i128 {
                fr.min
            } else if wide > fr.max as i128 {
                fr.max
            } else {
                wide as i64
            };
            Some(SettingValue::Float(clamped))
        },
        (SettingValue::Int(v), Constraint::IntRange(ir)) => {
            let wide: i128 = *v as i128 + direction as i128;
            let clamped: i64 = if wide < ir.min as i128 {
                ir.min
            } else if wide > ir.max as i128 {
                ir.max
            } else {
                wide as i64
            };
            Some(SettingValue::Int(clamped))
        },
        (SettingValue::Str(s), Constraint::StringOptions(opts)) => {
            match find_option(opts, s) {
                Some(idx) => {
                    let len = opts.len();
                    let ni: usize = if direction == 1 {
                        if idx + 1 == len {
                            0
                        } else {
                            idx + 1
                        }
                    } else {
                        if idx == 0 {
                            len - 1
                        } else {
                            idx - 1
                        }
                    };
                    assert(options_model(opts@)[ni as int] == opts@[ni as int]@);
                    Some(SettingValue::Str(opts[ni].clone()))
                },
                Option::None => Option::None,
            }
        },
        _ => Option::None,
    }
}

/// Toggle `current` under `def`'s constraint: flip a boolean, advance
/// a string option one step forward in the cycle. Any other pairing
/// yields nothing.
pub fn toggle(def: &SettingDef, current: &SettingValue) -> (r: Option<SettingValue>)
    requires
        def_wf(def@),
    ensures
        opt_model(r) == spec_toggle(def@, current@),
{
    match (current, &def.constraint) {
        (SettingValue::Bool(b), _) => Some(SettingValue::Bool(!*b)),
        (SettingValue::Str(s), Constraint::StringOptions(opts)) => {
            match find_option(opts, s) {
                Some(idx) => {
                    let len = opts.len();
                    let ni: usize = if idx + 1 == len {
                        0
                    } else {
                        idx + 1
                    };
                    assert(options_model(opts@)[ni as int] == opts@[ni as int]@);
                    Some(SettingValue::Str(opts[ni].clone()))
                },
                Option::None => Option::None,
            }
        },
        _ => Option::None,
    }
}

} // verus!
