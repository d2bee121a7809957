//! Setting definitions: tagged values, constraints, groups and tabs.
//!
//! A float-valued setting is held in fixed point: the `Float` variant
//! carries the value in hundredths (two decimal digits), which makes
//! step-wise adjustment exact and keeps every value already rounded to
//! two decimals.

use vstd::prelude::*;
use vstd::string::StringExecFns;

use crate::numerals::{dec_digits, digit_char, digit_of, u64_to_digits};

verus! {

/// Mathematical model of a tagged setting value.
pub ghost enum ValueModel {
    Float(int),
    Bool(bool),
    Int(int),
    Str(Seq<char>),
}

/// A tagged setting value. `Float` holds hundredths of the nominal
/// value, so `Float(130)` stands for 1.30.
#[derive(Debug)]
pub enum SettingValue {
    Float(i64),
    Bool(bool),
    Int(i64),
    Str(String),
}

impl View for SettingValue {
    type V = ValueModel;

    open spec fn view(&self) -> ValueModel {
        match self {
            SettingValue::Float(v) => ValueModel::Float(*v as int),
            SettingValue::Bool(b) => ValueModel::Bool(*b),
            SettingValue::Int(v) => ValueModel::Int(*v as int),
            SettingValue::Str(s) => ValueModel::Str(s@),
        }
    }
}

/// Decimal text of a signed number.
pub open spec fn spec_int_text(i: int) -> Seq<char> {
    if i < 0 {
        seq!['-'] + dec_digits((-i) as nat)
    } else {
        dec_digits(i as nat)
    }
}

/// Display text of a fixed-point value, one decimal digit, rounded
/// half away from zero.
pub open spec fn spec_float_text(h: int) -> Seq<char> {
    let mag = if h < 0 {
        -h
    } else {
        h
    };
    let tenths = (mag + 5) / 10;
    (if h < 0 {
        seq!['-']
    } else {
        Seq::<char>::empty()
    }) + dec_digits((tenths / 10) as nat) + seq!['.'] + seq![digit_char((tenths % 10) as nat)]
}

/// Display text of a value: floats with one decimal digit, booleans
/// as "On"/"Off", integers and strings literally.
pub open spec fn spec_display(v: ValueModel) -> Seq<char> {
    match v {
        ValueModel::Float(h) => spec_float_text(h),
        ValueModel::Bool(b) => if b {
            "On"@
        } else {
            "Off"@
        },
        ValueModel::Int(i) => spec_int_text(i),
        ValueModel::Str(s) => s,
    }
}

impl SettingValue {
    /// Render the value for display.
    pub fn display_string(&self) -> (r: String)
        ensures
            r@ == spec_display(self@),
    {
        match self {
            SettingValue::Float(v) => {
                let mag: u64 = if *v < 0 {
                    (-(*v as i128)) as u64
                } else {
                    *v as u64
                };
                let tenths: u64 = (mag + 5) / 10;
                let mut out: Vec<char> = Vec::new();
                if *v < 0 {
                    out.push('-');
                }
                let mut digits = u64_to_digits(tenths / 10);
                out.append(&mut digits);
                out.push('.');
                out.push(digit_of(tenths % 10));
                proof {
                    assert((tenths % 10) < 10);
                    assert(out@ =~= spec_float_text(*v as int));
                }
                crate::strops::string_from_chars(&out)
            },
            SettingValue::Bool(b) => {
                if *b {
                    String::from_str("On")
                } else {
                    String::from_str("Off")
                }
            },
            SettingValue::Int(v) => {
                let mag: u64 = if *v < 0 {
                    (-(*v as i128)) as u64
                } else {
                    *v as u64
                };
                let mut out: Vec<char> = Vec::new();
                if *v < 0 {
                    out.push('-');
                }
                let mut digits = u64_to_digits(mag);
                out.append(&mut digits);
                proof {
                    assert(out@ =~= spec_int_text(*v as int));
                }
                crate::strops::string_from_chars(&out)
            },
            SettingValue::Str(t) => t.clone(),
        }
    }
}

impl PartialEq for SettingValue {
    fn eq(&self, other: &Self) -> (r: bool) {
        match (self, other) {
            (SettingValue::Float(a), SettingValue::Float(b)) => a == b,
            (SettingValue::Bool(a), SettingValue::Bool(b)) => a == b,
            (SettingValue::Int(a), SettingValue::Int(b)) => a == b,
            (SettingValue::Str(a), SettingValue::Str(b)) => <String as PartialEq>::eq(a, b),
            _ => false,
        }
    }
}

impl vstd::std_specs::cmp::PartialEqSpecImpl for SettingValue {
    open spec fn obeys_eq_spec() -> bool {
        true
    }

    open spec fn eq_spec(&self, other: &Self) -> bool {
        self@ == other@
    }
}

impl Eq for SettingValue {}

impl Clone for SettingValue {
    fn clone(&self) -> (r: Self)
        ensures
            r@ == self@,
    {
        match self {
            SettingValue::Float(v) => SettingValue::Float(*v),
            SettingValue::Bool(b) => SettingValue::Bool(*b),
            SettingValue::Int(v) => SettingValue::Int(*v),
            SettingValue::Str(s) => SettingValue::Str(s.clone()),
        }
    }
}

/// Declared type of a setting's value in the host store.
#[derive(Clone, Copy, PartialEq, Eq, Structural, Debug)]
pub enum ValueType {
    Float,
    Bool,
    Int,
    Str,
}

/// The eight fixed categories that settings are grouped into.
#[derive(Clone, Copy, PartialEq, Eq, Structural, Debug)]
pub enum SettingGroup {
    Mouse,
    MouseHardware,
    Trackpad,
    TrackpadHardware,
    ScrollWindow,
    CursorAccessibility,
    Keyboard,
    KeyboardText,
}

impl SettingGroup {
    /// Display label of the group.
    pub fn label(self) -> (r: &'static str)
        ensures
            self == SettingGroup::Mouse ==> r@ == "Mouse"@,
            self == SettingGroup::MouseHardware ==> r@ == "Mouse Hardware"@,
            self == SettingGroup::Trackpad ==> r@ == "Trackpad"@,
            self == SettingGroup::TrackpadHardware ==> r@ == "Trackpad Hardware"@,
            self == SettingGroup::ScrollWindow ==> r@ == "Scroll & Windows"@,
            self == SettingGroup::CursorAccessibility ==> r@ == "Cursor & Accessibility"@,
            self == SettingGroup::Keyboard ==> r@ == "Keyboard"@,
            self == SettingGroup::KeyboardText ==> r@ == "Text Input"@,
    {
        match self {
            SettingGroup::Mouse => "Mouse",
            SettingGroup::MouseHardware => "Mouse Hardware",
            SettingGroup::Trackpad => "Trackpad",
            SettingGroup::TrackpadHardware => "Trackpad Hardware",
            SettingGroup::ScrollWindow => "Scroll & Windows",
            SettingGroup::CursorAccessibility => "Cursor & Accessibility",
            SettingGroup::Keyboard => "Keyboard",
            SettingGroup::KeyboardText => "Text Input",
        }
    }
}

/// The five top-level navigation pages; each owns a fixed, disjoint,
/// exhaustive subset of the eight groups. Tab order is circular.
#[derive(Clone, Copy, PartialEq, Eq, Structural, Debug)]
pub enum Tab {
    Mouse,
    Trackpad,
    ScrollWindow,
    Cursor,
    Keyboard,
}

/// The groups owned by each tab, as the mathematical model that
/// `Tab::groups` returns.
pub open spec fn tab_groups(t: Tab) -> Seq<SettingGroup> {
    match t {
        Tab::Mouse => seq![SettingGroup::Mouse, SettingGroup::MouseHardware],
        Tab::Trackpad => seq![SettingGroup::Trackpad, SettingGroup::TrackpadHardware],
        Tab::ScrollWindow => seq![SettingGroup::ScrollWindow],
        Tab::Cursor => seq![SettingGroup::CursorAccessibility],
        Tab::Keyboard => seq![SettingGroup::Keyboard, SettingGroup::KeyboardText],
    }
}

impl Tab {
    /// Display label of the tab.
    pub fn label(self) -> (r: &'static str)
        ensures
            self == Tab::Mouse ==> r@ == "Mouse"@,
            self == Tab::Trackpad ==> r@ == "Trackpad"@,
            self == Tab::ScrollWindow ==> r@ == "Scroll & Windows"@,
            self == Tab::Cursor ==> r@ == "Cursor"@,
            self == Tab::Keyboard ==> r@ == "Keyboard"@,
    {
        match self {
            Tab::Mouse => "Mouse",
            Tab::Trackpad => "Trackpad",
            Tab::ScrollWindow => "Scroll & Windows",
            Tab::Cursor => "Cursor",
            Tab::Keyboard => "Keyboard",
        }
    }

    /// The groups shown under this tab, in display order.
    pub fn groups(self) -> (r: Vec<SettingGroup>)
        ensures
            r@ == tab_groups(self),
    {
        match self {
            Tab::Mouse => vec![SettingGroup::Mouse, SettingGroup::MouseHardware],
            Tab::Trackpad => vec![SettingGroup::Trackpad, SettingGroup::TrackpadHardware],
            Tab::ScrollWindow => vec![SettingGroup::ScrollWindow],
            Tab::Cursor => vec![SettingGroup::CursorAccessibility],
            Tab::Keyboard => vec![SettingGroup::Keyboard, SettingGroup::KeyboardText],
        }
    }

    /// The tab after this one, wrapping around at the end.
    pub fn next(self) -> (r: Tab)
        ensures
            r == spec_next_tab(self),
    {
        match self {
            Tab::Mouse => Tab::Trackpad,
            Tab::Trackpad => Tab::ScrollWindow,
            Tab::ScrollWindow => Tab::Cursor,
            Tab::Cursor => Tab::Keyboard,
            Tab::Keyboard => Tab::Mouse,
        }
    }

    /// The tab before this one, wrapping around at the start.
    pub fn prev(self) -> (r: Tab)
        ensures
            r == spec_prev_tab(self),
            spec_next_tab(r) == self,
    {
        match self {
            Tab::Mouse => Tab::Keyboard,
            Tab::Trackpad => Tab::Mouse,
            Tab::ScrollWindow => Tab::Trackpad,
            Tab::Cursor => Tab::ScrollWindow,
            Tab::Keyboard => Tab::Cursor,
        }
    }
}

/// Successor in the circular tab order.
pub open spec fn spec_next_tab(t: Tab) -> Tab {
    match t {
        Tab::Mouse => Tab::Trackpad,
        Tab::Trackpad => Tab::ScrollWindow,
        Tab::ScrollWindow => Tab::Cursor,
        Tab::Cursor => Tab::Keyboard,
        Tab::Keyboard => Tab::Mouse,
    }
}

/// Predecessor in the circular tab order.
pub open spec fn spec_prev_tab(t: Tab) -> Tab {
    match t {
        Tab::Mouse => Tab::Keyboard,
        Tab::Trackpad => Tab::Mouse,
        Tab::ScrollWindow => Tab::Trackpad,
        Tab::Cursor => Tab::ScrollWindow,
        Tab::Keyboard => Tab::Cursor,
    }
}

/// Range constraint for a float setting; all three bounds are in
/// hundredths, like the `Float` values they constrain.
pub struct FloatRange {
    pub min: i64,
    pub max: i64,
    pub step: i64,
}

/// Range constraint for an integer setting; adjustment moves by 1.
pub struct IntRange {
    pub min: i64,
    pub max: i64,
}

/// Model of an option list: the character sequences it holds.
pub open spec fn options_model(opts: Seq<String>) -> Seq<Seq<char>> {
    opts.map_values(|s: String| s@)
}

/// No element occurs twice.
pub open spec fn distinct_seqs(s: Seq<Seq<char>>) -> bool {
    forall|p: int, q: int| 0 <= p < q < s.len() ==> s[p] != s[q]
}

/// Mathematical model of a constraint.
pub ghost enum ConstraintModel {
    Float { min: int, max: int, step: int },
    Int { min: int, max: int },
    Options(Seq<Seq<char>>),
    Free,
}

/// Per-setting constraint: what values are legal and how adjustment
/// moves between them.
pub enum Constraint {
    FloatRange(FloatRange),
    IntRange(IntRange),
    StringOptions(Vec<String>),
    Unconstrained,
}

impl View for Constraint {
    type V = ConstraintModel;

    open spec fn view(&self) -> ConstraintModel {
        match self {
            Constraint::FloatRange(fr) => ConstraintModel::Float {
                min: fr.min as int,
                max: fr.max as int,
                step: fr.step as int,
            },
            Constraint::IntRange(ir) => ConstraintModel::Int {
                min: ir.min as int,
                max: ir.max as int,
            },
            Constraint::StringOptions(opts) => ConstraintModel::Options(options_model(opts@)),
            Constraint::Unconstrained => ConstraintModel::Free,
        }
    }
}

/// A well-formed constraint: ranges are non-empty and step forward,
/// option lists are non-empty and hold distinct strings.
pub open spec fn constraint_wf(c: ConstraintModel) -> bool {
    match c {
        ConstraintModel::Float { min, max, step } => min <= max && 0 <= step,
        ConstraintModel::Int { min, max } => min <= max,
        ConstraintModel::Options(opts) => {
            &&& opts.len() > 0
            &&& forall|i: int, j: int|
                0 <= i < j < opts.len() ==> opts[i] != opts[j]
        },
        ConstraintModel::Free => true,
    }
}

/// Mathematical model of a setting definition.
pub ghost struct DefModel {
    pub id: Seq<char>,
    pub domain: Seq<char>,
    pub key: Seq<char>,
    pub value_type: ValueType,
    pub constraint: ConstraintModel,
    pub description: Seq<char>,
    pub group: SettingGroup,
    pub mirror_domains: Seq<Seq<char>>,
    pub requires_logout: bool,
    pub help: Seq<char>,
}

/// Static descriptor of one configurable value: stable id, storage
/// address (domain + key), declared type, constraint and display
/// metadata. Immutable once the catalog is built.
pub struct SettingDef {
    pub id: String,
    pub domain: String,
    pub key: String,
    pub value_type: ValueType,
    pub constraint: Constraint,
    pub description: String,
    pub group: SettingGroup,
    pub mirror_domains: Vec<String>,
    pub requires_logout: bool,
    pub help: String,
}

impl View for SettingDef {
    type V = DefModel;

    open spec fn view(&self) -> DefModel {
        DefModel {
            id: self.id@,
            domain: self.domain@,
            key: self.key@,
            value_type: self.value_type,
            constraint: self.constraint@,
            description: self.description@,
            group: self.group,
            mirror_domains: self.mirror_domains@.map_values(|s: String| s@),
            requires_logout: self.requires_logout,
            help: self.help@,
        }
    }
}

/// A well-formed definition: its constraint is well formed.
pub open spec fn def_wf(d: DefModel) -> bool {
    constraint_wf(d.constraint)
}

/// Default value derived from the constraint: the range minimum for
/// ranges, the first option for string options, a type-appropriate
/// zero otherwise.
pub open spec fn spec_default_value(d: DefModel) -> ValueModel {
    match d.constraint {
        ConstraintModel::Float { min, .. } => ValueModel::Float(min),
        ConstraintModel::Int { min, .. } => ValueModel::Int(min),
        ConstraintModel::Options(opts) => ValueModel::Str(opts[0]),
        ConstraintModel::Free => match d.value_type {
            ValueType::Float => ValueModel::Float(0),
            ValueType::Bool => ValueModel::Bool(false),
            ValueType::Int => ValueModel::Int(0),
            ValueType::Str => ValueModel::Str(Seq::empty()),
        },
    }
}

impl SettingDef {
    /// Default value of this setting, derived from its constraint.
    pub fn default_value(&self) -> (r: SettingValue)
        requires
            def_wf(self@),
        ensures
            r@ == spec_default_value(self@),
    {
        match &self.constraint {
            Constraint::FloatRange(fr) => SettingValue::Float(fr.min),
            Constraint::IntRange(ir) => SettingValue::Int(ir.min),
            Constraint::StringOptions(opts) => SettingValue::Str(opts[0].clone()),
            Constraint::Unconstrained => match self.value_type {
                ValueType::Float => SettingValue::Float(0),
                ValueType::Bool => SettingValue::Bool(false),
                ValueType::Int => SettingValue::Int(0),
                ValueType::Str => SettingValue::Str(String::new()),
            },
        }
    }
}

} // verus!
