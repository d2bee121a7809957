//! Named snapshots of the value mapping, for saving and restoring
//! whole configurations.

use vstd::prelude::*;

use crate::settings::{SettingValue, ValueModel};
use crate::strops::{chars_of, string_from_chars};
use vstd::string::StringExecFns;

verus! {

/// Mathematical model of a profile.
pub ghost struct ProfileModel {
    pub name: Seq<char>,
    pub created_at: int,
    pub settings: Seq<(Seq<char>, ValueModel)>,
}

/// A named, timestamped snapshot: a mapping from setting id to value.
/// Immutable once loaded; persistence is external.
pub struct Profile {
    pub name: String,
    /// Creation time in seconds since the Unix epoch.
    pub created_at: i64,
    pub settings: Vec<(String, SettingValue)>,
}

/// Model of an id-to-value entry list.
pub open spec fn entries_model(s: Seq<(String, SettingValue)>) -> Seq<(Seq<char>, ValueModel)> {
    s.map_values(|e: (String, SettingValue)| (e.0@, e.1@))
}

impl View for Profile {
    type V = ProfileModel;

    open spec fn view(&self) -> ProfileModel {
        ProfileModel {
            name: self.name@,
            created_at: self.created_at as int,
            settings: entries_model(self.settings@),
        }
    }
}

/// Relies on `chrono::Utc::now` and `DateTime::timestamp` for the
/// current wall-clock time; nothing is promised of the value.
#[verifier::external_body]
fn now_timestamp() -> i64 {
    chrono::Utc::now().timestamp()
}

impl Profile {
    /// A profile over the given entries, stamped with the current time.
    pub fn new(name: String, settings: Vec<(String, SettingValue)>) -> (p: Profile)
        ensures
            p@.name == name@,
            p@.settings == entries_model(settings@),
    {
        Profile { name, created_at: now_timestamp(), settings }
    }
}

/// Whether a character counts as alphanumeric under Unicode; a
/// function of the character alone.
pub uninterp spec fn is_alnum(c: char) -> bool;

/// Relies on `char::is_alphanumeric` for the Unicode alphanumeric
/// classes.
#[verifier::external_body]
fn char_is_alphanumeric(c: char) -> (r: bool)
    ensures
        r == is_alnum(c),
{
    c.is_alphanumeric()
}

/// One character of a sanitized file name: alphanumerics, `-` and `_`
/// stay, everything else becomes `_`.
pub open spec fn sanitize_char(c: char) -> char {
    if is_alnum(c) || c == '-' || c == '_' {
        c
    } else {
        '_'
    }
}

/// The sanitized form of a profile name.
pub open spec fn sanitized_name(name: Seq<char>) -> Seq<char> {
    name.map_values(|c: char| sanitize_char(c))
}

/// File name under which a profile of this name is stored: the
/// sanitized name with the store's file suffix.
pub fn profile_path(name: &str) -> (r: String)
    ensures
        r@ == sanitized_name(name@) + ".json"@,
{
    let cs = chars_of(name);
    let n = cs.len();
    let mut out: Vec<char> = Vec::new();
    let mut i: usize = 0;
    while i < n
        invariant
            i <= n,
            n == name@.len(),
            cs@ == name@,
            out@ == sanitized_name(name@.subrange(0, i as int)),
        decreases n - i,
    {
        let c = cs[i];
        let keep = char_is_alphanumeric(c) || c == '-' || c == '_';
        if keep {
            out.push(c);
        } else {
            out.push('_');
        }
        proof {
            assert(out@ =~= sanitized_name(name@.subrange(0, i + 1)));
        }
        i += 1;
    }
    proof {
        assert(name@.subrange(0, n as int) =~= name@);
    }
    string_from_chars(&out).concat(".json")
}

} // verus!
