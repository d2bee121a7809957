//! The settings engine: live and pending values over a fixed catalog,
//! and the view/input state machine that governs staged edits.
//!
//! Live and pending values are held in vectors parallel to the
//! catalog, keyed by catalog position; a pending entry for a setting
//! outside the catalog therefore cannot exist. Everything that needs
//! the outside world (writing to the host store, the profile files on
//! disk) is returned from [`App::update`] as an [`Effect`] for the
//! caller to perform; the caller reports the outcome back through the
//! completion methods, so the engine itself stays pure.

use vstd::prelude::*;
use vstd::string::StringExecFns;

use crate::numerals::{dec_digits, u64_to_digits};
use crate::textorder::{lemma_lex_total, lemma_lex_trans, lex_lt, str_lt};
use crate::strops::{pop_char, push_char, string_from_chars};
use crate::adjust::{adjust, opt_model, spec_adjust, spec_toggle, toggle};
use crate::profile::{Profile, entries_model};
use crate::settings::{
    Constraint, DefModel, SettingDef, SettingValue, Tab, ValueModel, def_wf, distinct_seqs,
    options_model, spec_next_tab, spec_prev_tab, tab_groups,
};

verus! {

/// The four UI modes the editor can be in.
#[derive(Clone, Copy, PartialEq, Eq, Structural, Debug)]
pub enum ViewMode {
    Settings,
    Review,
    Profiles,
    ProfileNameInput,
}

/// One user intent, already decoded from raw input.
pub enum Message {
    Quit,
    NextTab,
    PrevTab,
    NavigateUp,
    NavigateDown,
    AdjustLeft,
    AdjustRight,
    Toggle,
    OpenReview,
    ApplyChanges,
    CancelReview,
    SaveProfile,
    CreateProfile,
    OpenProfiles,
    DeleteProfile,
    Back,
    TypeChar(char),
    Backspace,
    ConfirmInput,
}

/// Outside work that a transition asks the caller to perform. The
/// caller runs it and reports back through the matching completion
/// method ([`App::apply_all`], [`App::set_profile_names`],
/// [`App::profile_loaded`] and the status setters).
pub enum Effect {
    /// Nothing to do.
    Idle,
    /// Write every pending change to the host store, then call
    /// [`App::apply_all`] with the per-setting outcomes.
    ApplyPending,
    /// List the stored profile names, then call
    /// [`App::set_profile_names`].
    ReloadProfiles,
    /// Load the named profile, then call [`App::profile_loaded`] or
    /// [`App::set_status`] with the error.
    LoadProfile(String),
    /// Delete the named profile, then reload the name list and call
    /// [`App::set_profile_names`] (plus a status message).
    RemoveProfile(String),
    /// Persist the profile, then reload the name list.
    StoreProfile(Profile),
}

/// Ids of a catalog.
pub open spec fn ids_model(defs: Seq<DefModel>) -> Seq<Seq<char>> {
    defs.map_values(|d: DefModel| d.id)
}

/// Models of a catalog's definitions.
pub open spec fn defs_models(defs: Seq<SettingDef>) -> Seq<DefModel> {
    defs.map_values(|d: SettingDef| d@)
}

/// Models of a vector of optional values.
pub open spec fn opt_models(s: Seq<Option<SettingValue>>) -> Seq<Option<ValueModel>> {
    s.map_values(|o: Option<SettingValue>| opt_model(o))
}

/// Whether the setting is shown: its group belongs to the tab and its
/// storage address resolved on this host.
pub open spec fn visible_in(d: DefModel, avail: bool, tab: Tab) -> bool {
    avail && tab_groups(tab).contains(d.group)
}

/// Catalog positions, in order, of the settings visible under `tab`
/// among the first `n`.
pub open spec fn visible_prefix(defs: Seq<DefModel>, avail: Seq<bool>, tab: Tab, n: int) -> Seq<
    int,
>
    decreases n,
{
    if n <= 0 {
        Seq::empty()
    } else {
        let rest = visible_prefix(defs, avail, tab, n - 1);
        if visible_in(defs[n - 1], avail[n - 1], tab) {
            rest.push(n - 1)
        } else {
            rest
        }
    }
}

/// The engine state: one instance per running session.
pub struct App {
    pub running: bool,
    pub view: ViewMode,
    pub tab: Tab,
    pub selected_row: usize,
    pub settings_defs: Vec<SettingDef>,
    /// Parallel to the catalog: whether the setting's domain resolved.
    pub available: Vec<bool>,
    /// Parallel to the catalog: last value confirmed from the host.
    pub live_values: Vec<Option<SettingValue>>,
    /// Parallel to the catalog: staged, uncommitted edits.
    pub pending_changes: Vec<Option<SettingValue>>,
    pub profile_names: Vec<String>,
    pub profile_selected: usize,
    pub status_message: Option<String>,
    pub input_buffer: String,
    pub name_input_return_view: ViewMode,
}

impl App {
    /// Models of the catalog definitions.
    pub open spec fn defs_model(self) -> Seq<DefModel> {
        defs_models(self.settings_defs@)
    }

    /// Models of the live values.
    pub open spec fn live_model(self) -> Seq<Option<ValueModel>> {
        opt_models(self.live_values@)
    }

    /// Models of the pending values.
    pub open spec fn pending_model(self) -> Seq<Option<ValueModel>> {
        opt_models(self.pending_changes@)
    }

    /// Catalog positions visible under the current tab.
    pub open spec fn visible_model(self) -> Seq<int> {
        visible_prefix(self.defs_model(), self.available@, self.tab, self.defs_model().len() as int)
    }

    /// Some change is staged.
    pub open spec fn some_pending(self) -> bool {
        exists|i: int| 0 <= i < self.pending_model().len() && self.pending_model()[i] is Some
    }

    /// Structural well-formedness: the three value vectors run
    /// parallel to the catalog, every definition is well formed, ids
    /// are unique across the catalog, and both cursors are clamped to
    /// their list.
    pub open spec fn wf(self) -> bool {
        &&& self.available@.len() == self.settings_defs@.len()
        &&& self.live_values@.len() == self.settings_defs@.len()
        &&& self.pending_changes@.len() == self.settings_defs@.len()
        &&& forall|i: int|
            0 <= i < self.defs_model().len() ==> def_wf(#[trigger] self.defs_model()[i])
        &&& distinct_seqs(ids_model(self.defs_model()))
        &&& self.selected_row == 0 || (self.selected_row as int) < self.visible_model().len()
        &&& self.profile_selected == 0 || (self.profile_selected as int)
            < self.profile_names@.len()
    }

    /// The staged value if present, else the live value.
    pub open spec fn spec_effective(self, i: int) -> Option<ValueModel> {
        if self.pending_model()[i] is Some {
            self.pending_model()[i]
        } else {
            self.live_model()[i]
        }
    }

    /// An engine over the given catalog and startup snapshot: view at
    /// the settings page, first tab active, cursors at the top,
    /// nothing staged.
    pub fn new(
        settings_defs: Vec<SettingDef>,
        available: Vec<bool>,
        live_values: Vec<Option<SettingValue>>,
        profile_names: Vec<String>,
    ) -> (app: App)
        requires
            available@.len() == settings_defs@.len(),
            live_values@.len() == settings_defs@.len(),
            forall|i: int|
                0 <= i < settings_defs@.len() ==> def_wf(#[trigger] defs_models(settings_defs@)[i]),
            distinct_seqs(ids_model(defs_models(settings_defs@))),
        ensures
            app.wf(),
            app.running,
            app.view == ViewMode::Settings,
            app.tab == Tab::Mouse,
            app.selected_row == 0,
            app.settings_defs@ == settings_defs@,
            app.available@ == available@,
            app.live_values@ == live_values@,
            forall|i: int| 0 <= i < app.pending_model().len() ==> app.pending_model()[i] is None,
            app.profile_names@ == profile_names@,
            app.profile_selected == 0,
            app.status_message is None,
            app.input_buffer@.len() == 0,
    {
        let n = settings_defs.len();
        let mut pending_changes: Vec<Option<SettingValue>> = Vec::new();
        let mut i: usize = 0;
        while i < n
            invariant
                i <= n,
                pending_changes@.len() == i as int,
                forall|j: int| 0 <= j < i ==> #[trigger] opt_models(pending_changes@)[j] is None,
            decreases n - i,
        {
            let ghost prev = pending_changes@;
            pending_changes.push(Option::None);
            proof {
                assert forall|j: int|
                    0 <= j < i + 1 implies #[trigger] opt_models(pending_changes@)[j] is None by {
                    assert(opt_models(pending_changes@)[j] == opt_model(pending_changes@[j]));
                    if j < i {
                        assert(opt_models(prev)[j] is None);
                        assert(pending_changes@[j] == prev[j]);
                    }
                }
            }
            i += 1;
        }
        App {
            running: true,
            view: ViewMode::Settings,
            tab: Tab::Mouse,
            selected_row: 0,
            settings_defs,
            available,
            live_values,
            pending_changes,
            profile_names,
            profile_selected: 0,
            status_message: Option::None,
            input_buffer: String::new(),
            name_input_return_view: ViewMode::Settings,
        }
    }

    /// Catalog positions of the settings visible under the current
    /// tab, in catalog order.
    pub fn visible_settings(&self) -> (r: Vec<usize>)
        requires
            self.wf(),
        ensures
            r@.map_values(|u: usize| u as int) == self.visible_model(),
    {
        let groups = self.tab.groups();
        let mut r: Vec<usize> = Vec::new();
        let n = self.settings_defs.len();
        let mut i: usize = 0;
        while i < n
            invariant
                i <= n,
                n == self.settings_defs@.len(),
                self.available@.len() == n,
                groups@ == tab_groups(self.tab),
                r@.map_values(|u: usize| u as int) == visible_prefix(
                    self.defs_model(),
                    self.available@,
                    self.tab,
                    i as int,
                ),
                forall|k: int| 0 <= k < r@.len() ==> (r@[k] as int) < i,
            decreases n - i,
        {
            let in_groups = contains_group(&groups, self.settings_defs[i].group);
            assert(self.defs_model()[i as int] == self.settings_defs@[i as int]@);
            if in_groups && self.available[i] {
                r.push(i);
            }
            assert(r@.map_values(|u: usize| u as int) =~= visible_prefix(
                self.defs_model(),
                self.available@,
                self.tab,
                i + 1,
            ));
            i += 1;
        }
        r
    }

    /// Number of staged changes.
    pub fn pending_change_count(&self) -> (r: usize)
        requires
            self.wf(),
        ensures
            r as int == count_some(self.pending_model(), self.pending_model().len() as int),
            (r > 0) == self.some_pending(),
    {
        let n = self.pending_changes.len();
        let mut count: usize = 0;
        let mut i: usize = 0;
        while i < n
            invariant
                i <= n,
                n == self.pending_changes@.len(),
                count as int == count_some(self.pending_model(), i as int),
                count <= i,
                (count > 0) == (exists|j: int|
                    0 <= j < i && self.pending_model()[j] is Some),
            decreases n - i,
        {
            assert(self.pending_model()[i as int] == opt_model(self.pending_changes@[i as int]));
            if self.pending_changes[i].is_some() {
                count += 1;
            }
            i += 1;
        }
        count
    }

    /// The effective value at catalog position `i`: the staged value
    /// if present, else the live value, if any.
    pub fn effective_value(&self, i: usize) -> (r: Option<&SettingValue>)
        requires
            self.wf(),
            (i as int) < self.settings_defs@.len(),
        ensures
            match r {
                Some(v) => self.spec_effective(i as int) == Some(v@),
                Option::None => self.spec_effective(i as int) is None,
            },
    {
        assert(self.pending_model()[i as int] == opt_model(self.pending_changes@[i as int]));
        assert(self.live_model()[i as int] == opt_model(self.live_values@[i as int]));
        match &self.pending_changes[i] {
            Some(v) => Some(v),
            Option::None => {
                match &self.live_values[i] {
                    Some(v) => Some(v),
                    Option::None => Option::None,
                }
            },
        }
    }

    /// Whether some staged change belongs to a definition that takes
    /// effect only after logging out.
    pub fn any_requires_logout(&self) -> (r: bool)
        requires
            self.wf(),
        ensures
            r == exists|i: int|
                0 <= i < self.defs_model().len() && self.pending_model()[i] is Some
                    && self.defs_model()[i].requires_logout,
    {
        let n = self.settings_defs.len();
        let mut i: usize = 0;
        while i < n
            invariant
                i <= n,
                n == self.settings_defs@.len(),
                self.pending_changes@.len() == n,
                !(exists|j: int|
                    0 <= j < i && self.pending_model()[j] is Some
                        && self.defs_model()[j].requires_logout),
            decreases n - i,
        {
            assert(self.pending_model()[i as int] == opt_model(self.pending_changes@[i as int]));
            assert(self.defs_model()[i as int] == self.settings_defs@[i as int]@);
            if self.pending_changes[i].is_some() && self.settings_defs[i].requires_logout {
                return true;
            }
            i += 1;
        }
        false
    }
}

/// How many of the first `n` entries hold a staged value.
pub open spec fn count_some(s: Seq<Option<ValueModel>>, n: int) -> int
    decreases n,
{
    if n <= 0 {
        0
    } else {
        count_some(s, n - 1) + if s[n - 1] is Some {
            1int
        } else {
            0int
        }
    }
}

/// Mapping a pointwise update commutes with taking models.
proof fn lemma_opt_models_update(s: Seq<Option<SettingValue>>, i: int, v: Option<SettingValue>)
    requires
        0 <= i < s.len(),
    ensures
        opt_models(s.update(i, v)) =~= opt_models(s).update(i, opt_model(v)),
{
}

/// Every visible position lies inside the catalog.
pub proof fn lemma_visible_prefix_range(defs: Seq<DefModel>, avail: Seq<bool>, tab: Tab, n: int)
    ensures
        forall|k: int|
            0 <= k < visible_prefix(defs, avail, tab, n).len() ==> 0 <= #[trigger] visible_prefix(
                defs,
                avail,
                tab,
                n,
            )[k] < n,
    decreases n,
{
    if n > 0 {
        lemma_visible_prefix_range(defs, avail, tab, n - 1);
        let rest = visible_prefix(defs, avail, tab, n - 1);
        let cur = visible_prefix(defs, avail, tab, n);
        assert forall|k: int| 0 <= k < cur.len() implies 0 <= #[trigger] cur[k] < n by {
            if visible_in(defs[n - 1], avail[n - 1], tab) {
                assert(cur == rest.push(n - 1));
                if k < rest.len() {
                    assert(cur[k] == rest[k]);
                } else {
                    assert(cur[k] == n - 1);
                }
            } else {
                assert(cur == rest);
            }
        }
    }
}

/// Whether some definition carries this id.
pub open spec fn id_found(defs: Seq<DefModel>, id: Seq<char>) -> bool {
    exists|j: int| 0 <= j < defs.len() && defs[j].id == id
}

/// The position of the definition with this id.
pub open spec fn id_index(defs: Seq<DefModel>, id: Seq<char>) -> int {
    choose|j: int| 0 <= j < defs.len() && defs[j].id == id
}

/// Find the catalog position of the definition with the given id.
fn find_def(defs: &Vec<SettingDef>, id: &String) -> (r: Option<usize>)
    requires
        distinct_seqs(ids_model(defs_models(defs@))),
    ensures
        match r {
            Some(i) => {
                &&& (i as int) < defs@.len()
                &&& defs@[i as int]@.id == id@
                &&& id_found(defs_models(defs@), id@)
                &&& id_index(defs_models(defs@), id@) == i as int
            },
            Option::None => !id_found(defs_models(defs@), id@),
        },
{
    let ghost dm = defs_models(defs@);
    let mut i: usize = 0;
    while i < defs.len()
        invariant
            i <= defs@.len(),
            dm == defs_models(defs@),
            distinct_seqs(ids_model(dm)),
            forall|j: int| 0 <= j < i ==> #[trigger] dm[j].id != id@,
        decreases defs@.len() - i,
    {
        assert(dm[i as int] == defs@[i as int]@);
        if <String as PartialEq>::eq(&defs[i].id, id) {
            proof {
                assert(dm[i as int].id == id@);
                assert(id_found(dm, id@));
                let j = id_index(dm, id@);
                assert(0 <= j < dm.len() && dm[j].id == id@);
                assert(ids_model(dm)[j] == dm[j].id);
                assert(ids_model(dm)[i as int] == dm[i as int].id);
                if j < i as int {
                    assert(ids_model(dm)[j] != ids_model(dm)[i as int]);
                }
                if (i as int) < j {
                    assert(ids_model(dm)[i as int] != ids_model(dm)[j]);
                }
            }
            return Some(i);
        }
        i += 1;
    }
    proof {
        if id_found(dm, id@) {
            let j = id_index(dm, id@);
            assert(0 <= j < dm.len() && dm[j].id == id@);
        }
    }
    Option::None
}

impl App {
    /// The value an adjustment starts from: the effective value, or
    /// the definition's default when none is known.
    pub open spec fn spec_basis(self, i: int) -> ValueModel {
        match self.spec_effective(i) {
            Some(v) => v,
            Option::None => crate::settings::spec_default_value(self.defs_model()[i]),
        }
    }

    /// Pending values after an adjustment intent at the cursor: the
    /// row under the cursor is adjusted one step and staged; a cursor
    /// past the list or an unadjustable pairing changes nothing.
    pub open spec fn spec_adjust_selected(self, dir: int) -> Seq<Option<ValueModel>> {
        let vis = self.visible_model();
        if self.selected_row as int >= vis.len() {
            self.pending_model()
        } else {
            let i = vis[self.selected_row as int];
            match spec_adjust(self.defs_model()[i], self.spec_basis(i), dir) {
                Some(w) => self.pending_model().update(i, Some(w)),
                Option::None => self.pending_model(),
            }
        }
    }

    /// Pending values after a toggle intent at the cursor.
    pub open spec fn spec_toggle_selected(self) -> Seq<Option<ValueModel>> {
        let vis = self.visible_model();
        if self.selected_row as int >= vis.len() {
            self.pending_model()
        } else {
            let i = vis[self.selected_row as int];
            match spec_toggle(self.defs_model()[i], self.spec_basis(i)) {
                Some(w) => self.pending_model().update(i, Some(w)),
                Option::None => self.pending_model(),
            }
        }
    }

    /// Adjust the setting under the cursor one step and stage the
    /// result, if the row exists and the pairing is adjustable.
    fn adjust_selected(&mut self, direction: i32)
        requires
            old(self).wf(),
            direction == 1 || direction == -1,
        ensures
            final(self).wf(),
            (App { pending_changes: old(self).pending_changes, ..*final(self) }) == *old(self),
            final(self).pending_model() == old(self).spec_adjust_selected(direction as int),
    {
        let vis = self.visible_settings();
        proof {
            lemma_visible_prefix_range(
                self.defs_model(),
                self.available@,
                self.tab,
                self.defs_model().len() as int,
            );
        }
        if self.selected_row >= vis.len() {
            return;
        }
        let idx = vis[self.selected_row];
        assert((idx as int) == self.visible_model()[self.selected_row as int]);
        assert((idx as int) < self.settings_defs@.len());
        let current: SettingValue = match self.effective_value(idx) {
            Some(v) => v.clone(),
            Option::None => self.settings_defs[idx].default_value(),
        };
        assert(self.defs_model()[idx as int] == self.settings_defs@[idx as int]@);
        assert(current@ == self.spec_basis(idx as int));
        let new_value = adjust(&self.settings_defs[idx], &current, direction);
        match new_value {
            Some(val) => {
                let ghost prev = self.pending_changes@;
                self.pending_changes[idx] = Some(val);
                proof {
                    lemma_opt_models_update(prev, idx as int, self.pending_changes@[idx as int]);
                }
            },
            Option::None => {},
        }
    }

    /// Toggle the setting under the cursor and stage the result, if
    /// the row exists and the pairing can toggle.
    fn toggle_selected(&mut self)
        requires
            old(self).wf(),
        ensures
            final(self).wf(),
            (App { pending_changes: old(self).pending_changes, ..*final(self) }) == *old(self),
            final(self).pending_model() == old(self).spec_toggle_selected(),
    {
        let vis = self.visible_settings();
        proof {
            lemma_visible_prefix_range(
                self.defs_model(),
                self.available@,
                self.tab,
                self.defs_model().len() as int,
            );
        }
        if self.selected_row >= vis.len() {
            return;
        }
        let idx = vis[self.selected_row];
        assert((idx as int) == self.visible_model()[self.selected_row as int]);
        assert((idx as int) < self.settings_defs@.len());
        let current: SettingValue = match self.effective_value(idx) {
            Some(v) => v.clone(),
            Option::None => self.settings_defs[idx].default_value(),
        };
        assert(self.defs_model()[idx as int] == self.settings_defs@[idx as int]@);
        assert(current@ == self.spec_basis(idx as int));
        let new_value = toggle(&self.settings_defs[idx], &current);
        match new_value {
            Some(val) => {
                let ghost prev = self.pending_changes@;
                self.pending_changes[idx] = Some(val);
                proof {
                    lemma_opt_models_update(prev, idx as int, self.pending_changes@[idx as int]);
                }
            },
            Option::None => {},
        }
    }

    /// Discard every staged change.
    fn clear_pending(&mut self)
        requires
            old(self).wf(),
        ensures
            final(self).wf(),
            (App { pending_changes: old(self).pending_changes, ..*final(self) }) == *old(self),
            final(self).pending_model().len() == old(self).pending_model().len(),
            forall|i: int|
                0 <= i < final(self).pending_model().len() ==> final(self).pending_model()[i]
                    is None,
    {
        let n = self.pending_changes.len();
        let mut i: usize = 0;
        while i < n
            invariant
                i <= n,
                n == self.pending_changes@.len(),
                (App { pending_changes: old(self).pending_changes, ..*self }) == *old(self),
                forall|j: int| 0 <= j < i ==> #[trigger] opt_models(self.pending_changes@)[j] is None,
            decreases n - i,
        {
            let ghost prev = self.pending_changes@;
            self.pending_changes[i] = Option::None;
            proof {
                lemma_opt_models_update(prev, i as int, Option::None);
                assert(opt_models(self.pending_changes@) =~= opt_models(prev).update(
                    i as int,
                    opt_model(Option::None),
                ));
            }
            i += 1;
        }
    }

    /// The full effective snapshot: for every setting with a live or
    /// staged value, its id and effective value (staged wins), in
    /// catalog order, among the first `n` settings.
    pub open spec fn spec_snapshot(self, n: int) -> Seq<(Seq<char>, ValueModel)>
        decreases n,
    {
        if n <= 0 {
            Seq::empty()
        } else {
            let rest = self.spec_snapshot(n - 1);
            match self.spec_effective(n - 1) {
                Some(v) => rest.push((self.defs_model()[n - 1].id, v)),
                Option::None => rest,
            }
        }
    }

    /// Build the effective snapshot as id-value entries.
    fn snapshot_entries(&self) -> (r: Vec<(String, SettingValue)>)
        requires
            self.wf(),
        ensures
            entries_model(r@) == self.spec_snapshot(self.defs_model().len() as int),
    {
        let n = self.settings_defs.len();
        let mut r: Vec<(String, SettingValue)> = Vec::new();
        let mut i: usize = 0;
        while i < n
            invariant
                i <= n,
                n == self.settings_defs@.len(),
                self.wf(),
                entries_model(r@) == self.spec_snapshot(i as int),
            decreases n - i,
        {
            let ghost prev = r@;
            match self.effective_value(i) {
                Some(v) => {
                    let val = v.clone();
                    let id = self.settings_defs[i].id.clone();
                    assert(self.defs_model()[i as int] == self.settings_defs@[i as int]@);
                    r.push((id, val));
                    assert(entries_model(r@) =~= entries_model(prev).push(
                        (self.defs_model()[i as int].id, val@),
                    ));
                },
                Option::None => {},
            }
            i += 1;
        }
        r
    }
}

/// All staged entries among the first `n` were written successfully
/// (a result of nothing means success).
pub open spec fn all_ok(
    pending: Seq<Option<ValueModel>>,
    results: Seq<Option<String>>,
    n: int,
) -> bool {
    forall|i: int| 0 <= i < n && pending[i] is Some ==> results[i] is None
}

/// Number of staged entries among the first `n` whose write succeeded.
pub open spec fn count_applied(
    pending: Seq<Option<ValueModel>>,
    results: Seq<Option<String>>,
    n: int,
) -> int
    decreases n,
{
    if n <= 0 {
        0
    } else {
        count_applied(pending, results, n - 1) + if pending[n - 1] is Some && results[n - 1]
            is None {
            1int
        } else {
            0int
        }
    }
}

/// Number of staged entries among the first `n` whose write failed.
pub open spec fn count_failed(
    pending: Seq<Option<ValueModel>>,
    results: Seq<Option<String>>,
    n: int,
) -> int
    decreases n,
{
    if n <= 0 {
        0
    } else {
        count_failed(pending, results, n - 1) + if pending[n - 1] is Some && results[n - 1]
            is Some {
            1int
        } else {
            0int
        }
    }
}

/// When every write succeeded, the number applied is the number that
/// was staged.
pub proof fn lemma_count_applied_all_ok(
    pending: Seq<Option<ValueModel>>,
    results: Seq<Option<String>>,
    n: int,
)
    requires
        all_ok(pending, results, n),
    ensures
        count_applied(pending, results, n) == count_some(pending, n),
    decreases n,
{
    if n > 0 {
        lemma_count_applied_all_ok(pending, results, n - 1);
    }
}

/// Pending values after staging a profile's entries in order: each
/// entry whose id is in the catalog lands there (later entries win);
/// ids outside the catalog are dropped.
pub open spec fn stage_entries(
    defs: Seq<DefModel>,
    pending: Seq<Option<ValueModel>>,
    entries: Seq<(Seq<char>, ValueModel)>,
    n: int,
) -> Seq<Option<ValueModel>>
    decreases n,
{
    if n <= 0 {
        pending
    } else {
        let prev = stage_entries(defs, pending, entries, n - 1);
        let e = entries[n - 1];
        if id_found(defs, e.0) {
            prev.update(id_index(defs, e.0), Some(e.1))
        } else {
            prev
        }
    }
}

/// Staging keeps the length of the pending vector.
pub proof fn lemma_stage_entries_len(
    defs: Seq<DefModel>,
    pending: Seq<Option<ValueModel>>,
    entries: Seq<(Seq<char>, ValueModel)>,
    n: int,
)
    requires
        defs.len() == pending.len(),
    ensures
        stage_entries(defs, pending, entries, n).len() == pending.len(),
    decreases n,
{
    if n > 0 {
        lemma_stage_entries_len(defs, pending, entries, n - 1);
        let e = entries[n - 1];
        if id_found(defs, e.0) {
            let j = id_index(defs, e.0);
            assert(0 <= j < defs.len());
        }
    }
}

/// The transition relation of the view/input state machine: what one
/// intent does to the state and which outside work it asks for. Every
/// intent is total; unmatched intents in a state change nothing.
pub open spec fn spec_step(pre: App, msg: Message, post: App, eff: Effect) -> bool {
    match msg {
        Message::Quit => {
            &&& eff is Idle
            &&& if pre.view == ViewMode::Settings {
                post == (App { running: false, ..pre })
            } else {
                post == (App { view: ViewMode::Settings, ..pre })
            }
        },
        Message::NextTab => {
            &&& eff is Idle
            &&& if pre.view == ViewMode::Settings {
                post == (App { tab: spec_next_tab(pre.tab), selected_row: 0usize, ..pre })
            } else {
                post == pre
            }
        },
        Message::PrevTab => {
            &&& eff is Idle
            &&& if pre.view == ViewMode::Settings {
                post == (App { tab: spec_prev_tab(pre.tab), selected_row: 0usize, ..pre })
            } else {
                post == pre
            }
        },
        Message::NavigateUp => {
            &&& eff is Idle
            &&& if pre.view == ViewMode::Settings {
                post == (App {
                    selected_row: if pre.selected_row > 0 {
                        (pre.selected_row - 1) as usize
                    } else {
                        0usize
                    },
                    ..pre
                })
            } else if pre.view == ViewMode::Profiles {
                post == (App {
                    profile_selected: if pre.profile_selected > 0 {
                        (pre.profile_selected - 1) as usize
                    } else {
                        0usize
                    },
                    ..pre
                })
            } else {
                post == pre
            }
        },
        Message::NavigateDown => {
            &&& eff is Idle
            &&& if pre.view == ViewMode::Settings {
                post == (App {
                    selected_row: if pre.selected_row + 1 < pre.visible_model().len() {
                        (pre.selected_row + 1) as usize
                    } else {
                        pre.selected_row
                    },
                    ..pre
                })
            } else if pre.view == ViewMode::Profiles {
                post == (App {
                    profile_selected: if pre.profile_selected + 1 < pre.profile_names@.len() {
                        (pre.profile_selected + 1) as usize
                    } else {
                        pre.profile_selected
                    },
                    ..pre
                })
            } else {
                post == pre
            }
        },
        Message::AdjustLeft => {
            &&& eff is Idle
            &&& if pre.view == ViewMode::Settings {
                &&& (App { pending_changes: pre.pending_changes, ..post }) == pre
                &&& post.pending_model() == pre.spec_adjust_selected(-1)
            } else {
                post == pre
            }
        },
        Message::AdjustRight => {
            &&& eff is Idle
            &&& if pre.view == ViewMode::Settings {
                &&& (App { pending_changes: pre.pending_changes, ..post }) == pre
                &&& post.pending_model() == pre.spec_adjust_selected(1)
            } else {
                post == pre
            }
        },
        Message::Toggle => {
            if pre.view == ViewMode::Settings {
                &&& eff is Idle
                &&& (App { pending_changes: pre.pending_changes, ..post }) == pre
                &&& post.pending_model() == pre.spec_toggle_selected()
            } else if pre.view == ViewMode::Profiles {
                &&& post == pre
                &&& if (pre.profile_selected as int) < pre.profile_names@.len() {
                    eff == Effect::LoadProfile(pre.profile_names@[pre.profile_selected as int])
                } else {
                    eff is Idle
                }
            } else {
                post == pre && eff is Idle
            }
        },
        Message::OpenReview => {
            &&& eff is Idle
            &&& if pre.view == ViewMode::Settings && pre.some_pending() {
                post == (App { view: ViewMode::Review, ..pre })
            } else {
                post == pre
            }
        },
        Message::ApplyChanges => {
            if pre.view == ViewMode::Review {
                &&& post == (App { view: ViewMode::Settings, ..pre })
                &&& eff is ApplyPending
            } else {
                post == pre && eff is Idle
            }
        },
        Message::CancelReview => {
            &&& eff is Idle
            &&& if pre.view == ViewMode::Review {
                &&& (App {
                    pending_changes: pre.pending_changes,
                    status_message: pre.status_message,
                    view: pre.view,
                    ..post
                }) == pre
                &&& post.view == ViewMode::Settings
                &&& post.pending_model().len() == pre.pending_model().len()
                &&& forall|i: int|
                    0 <= i < post.pending_model().len() ==> post.pending_model()[i] is None
                &&& post.status_message matches Some(m) && m@ == "Changes discarded"@
            } else {
                post == pre
            }
        },
        Message::SaveProfile => {
            &&& eff is Idle
            &&& if pre.view == ViewMode::Review && pre.some_pending() {
                &&& (App {
                    input_buffer: pre.input_buffer,
                    name_input_return_view: pre.name_input_return_view,
                    view: pre.view,
                    ..post
                }) == pre
                &&& post.view == ViewMode::ProfileNameInput
                &&& post.name_input_return_view == ViewMode::Settings
                &&& post.input_buffer@.len() == 0
            } else {
                post == pre
            }
        },
        Message::CreateProfile => {
            &&& eff is Idle
            &&& if pre.view == ViewMode::Profiles {
                &&& (App {
                    input_buffer: pre.input_buffer,
                    name_input_return_view: pre.name_input_return_view,
                    view: pre.view,
                    ..post
                }) == pre
                &&& post.view == ViewMode::ProfileNameInput
                &&& post.name_input_return_view == ViewMode::Profiles
                &&& post.input_buffer@.len() == 0
            } else {
                post == pre
            }
        },
        Message::OpenProfiles => {
            if pre.view == ViewMode::Settings {
                &&& post == (App {
                    profile_selected: 0usize,
                    view: ViewMode::Profiles,
                    ..pre
                })
                &&& eff is ReloadProfiles
            } else {
                post == pre && eff is Idle
            }
        },
        Message::DeleteProfile => {
            &&& post == pre
            &&& if pre.view == ViewMode::Profiles && (pre.profile_selected as int)
                < pre.profile_names@.len() {
                eff == Effect::RemoveProfile(pre.profile_names@[pre.profile_selected as int])
            } else {
                eff is Idle
            }
        },
        Message::Back => {
            &&& eff is Idle
            &&& post == (App { view: ViewMode::Settings, ..pre })
        },
        Message::TypeChar(c) => {
            &&& eff is Idle
            &&& if pre.view == ViewMode::ProfileNameInput {
                &&& (App { input_buffer: pre.input_buffer, ..post }) == pre
                &&& post.input_buffer@ == pre.input_buffer@.push(c)
            } else {
                post == pre
            }
        },
        Message::Backspace => {
            &&& eff is Idle
            &&& if pre.view == ViewMode::ProfileNameInput {
                &&& (App { input_buffer: pre.input_buffer, ..post }) == pre
                &&& post.input_buffer@ == if pre.input_buffer@.len() > 0 {
                    pre.input_buffer@.drop_last()
                } else {
                    pre.input_buffer@
                }
            } else {
                post == pre
            }
        },
        Message::ConfirmInput => {
            if pre.view == ViewMode::ProfileNameInput && pre.input_buffer@.len() > 0 {
                &&& (App { view: pre.view, profile_selected: pre.profile_selected, ..post }) == pre
                &&& post.view == pre.name_input_return_view
                &&& post.profile_selected == (if pre.name_input_return_view == ViewMode::Profiles {
                    0usize
                } else {
                    pre.profile_selected
                })
                &&& eff matches Effect::StoreProfile(p) && p@.name == pre.input_buffer@
                    && p@.settings == pre.spec_snapshot(pre.defs_model().len() as int)
            } else {
                post == pre && eff is Idle
            }
        },
    }
}

impl App {
    /// Process one intent: mutate the state as the transition table
    /// says and return the outside work, if any, for the caller to
    /// perform.
    pub fn update(&mut self, msg: Message) -> (eff: Effect)
        requires
            old(self).wf(),
        ensures
            final(self).wf(),
            spec_step(*old(self), msg, *final(self), eff),
    {
        match msg {
            Message::Quit => {
                if self.view == ViewMode::Settings {
                    self.running = false;
                } else {
                    self.view = ViewMode::Settings;
                }
                Effect::Idle
            },
            Message::NextTab => {
                if self.view == ViewMode::Settings {
                    self.tab = self.tab.next();
                    self.selected_row = 0;
                }
                Effect::Idle
            },
            Message::PrevTab => {
                if self.view == ViewMode::Settings {
                    self.tab = self.tab.prev();
                    self.selected_row = 0;
                }
                Effect::Idle
            },
            Message::NavigateUp => {
                if self.view == ViewMode::Settings {
                    if self.selected_row > 0 {
                        self.selected_row -= 1;
                    }
                } else if self.view == ViewMode::Profiles {
                    if self.profile_selected > 0 {
                        self.profile_selected -= 1;
                    }
                }
                Effect::Idle
            },
            Message::NavigateDown => {
                if self.view == ViewMode::Settings {
                    let vis = self.visible_settings();
                    let len = vis.len();
                    if len > 0 && self.selected_row < len - 1 {
                        self.selected_row += 1;
                    }
                } else if self.view == ViewMode::Profiles {
                    let len = self.profile_names.len();
                    if len > 0 && self.profile_selected < len - 1 {
                        self.profile_selected += 1;
                    }
                }
                Effect::Idle
            },
            Message::AdjustLeft => {
                if self.view == ViewMode::Settings {
                    self.adjust_selected(-1);
                }
                Effect::Idle
            },
            Message::AdjustRight => {
                if self.view == ViewMode::Settings {
                    self.adjust_selected(1);
                }
                Effect::Idle
            },
            Message::Toggle => {
                if self.view == ViewMode::Settings {
                    self.toggle_selected();
                    Effect::Idle
                } else if self.view == ViewMode::Profiles {
                    if self.profile_selected < self.profile_names.len() {
                        Effect::LoadProfile(self.profile_names[self.profile_selected].clone())
                    } else {
                        Effect::Idle
                    }
                } else {
                    Effect::Idle
                }
            },
            Message::OpenReview => {
                if self.view == ViewMode::Settings && self.pending_change_count() > 0 {
                    self.view = ViewMode::Review;
                }
                Effect::Idle
            },
            Message::ApplyChanges => {
                if self.view == ViewMode::Review {
                    self.view = ViewMode::Settings;
                    Effect::ApplyPending
                } else {
                    Effect::Idle
                }
            },
            Message::CancelReview => {
                if self.view == ViewMode::Review {
                    self.clear_pending();
                    self.view = ViewMode::Settings;
                    self.status_message = Some(String::from_str("Changes discarded"));
                }
                Effect::Idle
            },
            Message::SaveProfile => {
                if self.view == ViewMode::Review && self.pending_change_count() > 0 {
                    self.input_buffer = String::new();
                    self.name_input_return_view = ViewMode::Settings;
                    self.view = ViewMode::ProfileNameInput;
                }
                Effect::Idle
            },
            Message::CreateProfile => {
                if self.view == ViewMode::Profiles {
                    self.input_buffer = String::new();
                    self.name_input_return_view = ViewMode::Profiles;
                    self.view = ViewMode::ProfileNameInput;
                }
                Effect::Idle
            },
            Message::OpenProfiles => {
                if self.view == ViewMode::Settings {
                    self.profile_selected = 0;
                    self.view = ViewMode::Profiles;
                    Effect::ReloadProfiles
                } else {
                    Effect::Idle
                }
            },
            Message::DeleteProfile => {
                if self.view == ViewMode::Profiles && self.profile_selected
                    < self.profile_names.len() {
                    Effect::RemoveProfile(self.profile_names[self.profile_selected].clone())
                } else {
                    Effect::Idle
                }
            },
            Message::Back => {
                self.view = ViewMode::Settings;
                Effect::Idle
            },
            Message::TypeChar(c) => {
                if self.view == ViewMode::ProfileNameInput {
                    push_char(&mut self.input_buffer, c);
                }
                Effect::Idle
            },
            Message::Backspace => {
                if self.view == ViewMode::ProfileNameInput {
                    let _removed = pop_char(&mut self.input_buffer);
                }
                Effect::Idle
            },
            Message::ConfirmInput => {
                if self.view == ViewMode::ProfileNameInput && !self.input_buffer.as_str()
                    .is_empty() {
                    let entries = self.snapshot_entries();
                    let name = self.input_buffer.clone();
                    let p = Profile::new(name, entries);
                    self.view = self.name_input_return_view;
                    if self.view == ViewMode::Profiles {
                        self.profile_selected = 0;
                    }
                    Effect::StoreProfile(p)
                } else {
                    Effect::Idle
                }
            },
        }
    }

    /// Commit outcome of the pending batch: for each staged entry
    /// whose write succeeded (its slot in `results` holds no error)
    /// the value becomes live; every staged entry is discarded either
    /// way, failed ones included; a summary lands in the status line.
    pub fn apply_all(&mut self, results: &Vec<Option<String>>)
        requires
            old(self).wf(),
            results@.len() == old(self).settings_defs@.len(),
        ensures
            final(self).wf(),
            (App {
                live_values: old(self).live_values,
                pending_changes: old(self).pending_changes,
                status_message: old(self).status_message,
                ..*final(self)
            }) == *old(self),
            final(self).pending_model().len() == old(self).pending_model().len(),
            forall|i: int|
                0 <= i < final(self).pending_model().len() ==> final(self).pending_model()[i]
                    is None,
            final(self).live_model().len() == old(self).live_model().len(),
            forall|i: int|
                0 <= i < final(self).live_model().len() ==> final(self).live_model()[i] == (if old(self).pending_model()[i] is Some && results@[i] is None {
                    old(self).pending_model()[i]
                } else {
                    old(self).live_model()[i]
                }),
            final(self).status_message is Some,
            all_ok(old(self).pending_model(), results@, results@.len() as int) ==> (final(self).status_message matches Some(m) && m@ == dec_digits(
                count_some(old(self).pending_model(), old(self).pending_model().len() as int) as nat,
            ) + " settings applied"@),
            !all_ok(old(self).pending_model(), results@, results@.len() as int) ==> (final(self).status_message matches Some(m) && ({
                let head = dec_digits(
                    count_applied(old(self).pending_model(), results@, results@.len() as int) as nat,
                ) + " applied, "@ + dec_digits(
                    count_failed(old(self).pending_model(), results@, results@.len() as int) as nat,
                ) + " failed: "@;
                m@.len() >= head.len() && m@.subrange(0, head.len() as int) == head
            })),
    {
        let n = self.settings_defs.len();
        let mut applied: u64 = 0;
        let mut failed: u64 = 0;
        let mut errtext: String = String::new();
        let mut i: usize = 0;
        while i < n
            invariant
                i <= n,
                n == self.settings_defs@.len(),
                results@.len() == n,
                old(self).wf(),
                (App { live_values: old(self).live_values, ..*self }) == *old(self),
                self.live_values@.len() == n,
                forall|j: int| i <= j < n ==> self.live_values@[j] == old(self).live_values@[j],
                forall|j: int|
                    0 <= j < i ==> #[trigger] opt_models(self.live_values@)[j] == (if old(self).pending_model()[j] is Some && results@[j] is None {
                        old(self).pending_model()[j]
                    } else {
                        old(self).live_model()[j]
                    }),
                applied as int == count_applied(old(self).pending_model(), results@, i as int),
                applied <= i,
                failed <= i,
                failed as int == count_failed(old(self).pending_model(), results@, i as int),
                (failed == 0) == all_ok(old(self).pending_model(), results@, i as int),
            decreases n - i,
        {
            assert(old(self).pending_model()[i as int] == opt_model(
                self.pending_changes@[i as int],
            ));
            let staged: Option<SettingValue> = match &self.pending_changes[i] {
                Some(v) => Some(v.clone()),
                Option::None => Option::None,
            };
            match staged {
                Some(v) => {
                    if results[i].is_none() {
                        let ghost prevlive = self.live_values@;
                        self.live_values[i] = Some(v);
                        proof {
                            lemma_opt_models_update(
                                prevlive,
                                i as int,
                                self.live_values@[i as int],
                            );
                        }
                        applied += 1;
                    } else {
                        if failed > 0 {
                            errtext = errtext.concat(", ");
                        }
                        errtext = errtext.concat(self.settings_defs[i].description.as_str());
                        errtext = errtext.concat(": ");
                        let err = match &results[i] {
                            Some(e) => e.clone(),
                            Option::None => String::new(),
                        };
                        errtext = errtext.concat(err.as_str());
                        failed += 1;
                    }
                },
                Option::None => {},
            }
            proof {
                assert forall|j: int|
                    0 <= j < i + 1 implies #[trigger] opt_models(self.live_values@)[j] == (if old(self).pending_model()[j] is Some && results@[j] is None {
                    old(self).pending_model()[j]
                } else {
                    old(self).live_model()[j]
                }) by {
                    assert(opt_models(self.live_values@)[j] == opt_model(self.live_values@[j]));
                    if j < i {
                    } else {
                        assert(old(self).live_model()[j] == opt_model(old(self).live_values@[j]));
                    }
                }
            }
            i += 1;
        }
        proof {
            if all_ok(old(self).pending_model(), results@, n as int) {
                lemma_count_applied_all_ok(old(self).pending_model(), results@, n as int);
            }
        }
        self.clear_pending();
        let digits = u64_to_digits(applied);
        let count_str = string_from_chars(&digits);
        if failed == 0 {
            self.status_message = Some(count_str.concat(" settings applied"));
        } else {
            let fdigits = u64_to_digits(failed);
            let fstr = string_from_chars(&fdigits);
            let mut m = count_str.concat(" applied, ");
            m = m.concat(fstr.as_str());
            m = m.concat(" failed: ");
            m = m.concat(errtext.as_str());
            self.status_message = Some(m);
        }
    }

    /// Replace the profile name list and clamp the cursor to it.
    pub fn set_profile_names(&mut self, names: Vec<String>)
        requires
            old(self).wf(),
        ensures
            final(self).wf(),
            (App {
                profile_names: old(self).profile_names,
                profile_selected: old(self).profile_selected,
                ..*final(self)
            }) == *old(self),
            final(self).profile_names@ == names@,
            final(self).profile_selected as int == (if (old(self).profile_selected as int)
                < names@.len() {
                old(self).profile_selected as int
            } else if names@.len() > 0 {
                names@.len() - 1
            } else {
                0int
            }),
    {
        self.profile_names = names;
        if self.profile_selected >= self.profile_names.len() {
            let len = self.profile_names.len();
            self.profile_selected = if len == 0 {
                0
            } else {
                len - 1
            };
        }
    }

    /// Report an outcome in the status line.
    pub fn set_status(&mut self, message: String)
        requires
            old(self).wf(),
        ensures
            final(self).wf(),
            (App { status_message: old(self).status_message, ..*final(self) }) == *old(self),
            final(self).status_message == Some(message),
    {
        self.status_message = Some(message);
    }

    /// Stage every entry of a loaded profile (profile values win over
    /// staged ones; ids outside the catalog are dropped) and move to
    /// the review page.
    pub fn profile_loaded(&mut self, p: &Profile)
        requires
            old(self).wf(),
        ensures
            final(self).wf(),
            (App {
                pending_changes: old(self).pending_changes,
                view: old(self).view,
                status_message: old(self).status_message,
                ..*final(self)
            }) == *old(self),
            final(self).view == ViewMode::Review,
            final(self).pending_model() == stage_entries(
                old(self).defs_model(),
                old(self).pending_model(),
                p@.settings,
                p@.settings.len() as int,
            ),
            final(self).status_message matches Some(m) && m@ == "Loaded profile '"@ + p@.name
                + "' as pending changes"@,
    {
        let m = p.settings.len();
        let mut k: usize = 0;
        while k < m
            invariant
                k <= m,
                m == p.settings@.len(),
                old(self).wf(),
                (App { pending_changes: old(self).pending_changes, ..*self }) == *old(self),
                self.pending_changes@.len() == old(self).pending_changes@.len(),
                opt_models(self.pending_changes@) == stage_entries(
                    old(self).defs_model(),
                    old(self).pending_model(),
                    p@.settings,
                    k as int,
                ),
            decreases m - k,
        {
            assert(p@.settings[k as int] == (p.settings@[k as int].0@, p.settings@[k as int].1@));
            let pair = &p.settings[k];
            match find_def(&self.settings_defs, &pair.0) {
                Some(idx) => {
                    let ghost prev = self.pending_changes@;
                    self.pending_changes[idx] = Some(pair.1.clone());
                    proof {
                        lemma_opt_models_update(prev, idx as int, self.pending_changes@[idx as int]);
                    }
                },
                Option::None => {},
            }
            k += 1;
        }
        proof {
            lemma_stage_entries_len(
                old(self).defs_model(),
                old(self).pending_model(),
                p@.settings,
                m as int,
            );
        }
        self.view = ViewMode::Review;
        let mut msg = String::from_str("Loaded profile '");
        msg = msg.concat(p.name.as_str());
        msg = msg.concat("' as pending changes");
        self.status_message = Some(msg);
    }
}

/// One entry of the review diff: the catalog position of the setting,
/// the live value it would replace (absent when none is set), and the
/// staged value.
pub struct DiffEntry {
    pub index: usize,
    pub old_value: Option<SettingValue>,
    pub new_value: SettingValue,
}

impl App {
    /// The id at a catalog position.
    pub open spec fn id_of(self, i: int) -> Seq<char> {
        self.defs_model()[i].id
    }

    /// Whether position `i` produces a diff entry: a value is staged
    /// and it differs from the live value (a missing live value counts
    /// as different).
    pub open spec fn diff_at(self, i: int) -> bool {
        self.pending_model()[i] is Some && self.pending_model()[i] != self.live_model()[i]
    }

    /// Catalog positions ordered by setting id, ascending.
    fn id_order(&self) -> (order: Vec<usize>)
        requires
            self.wf(),
        ensures
            order@.len() == self.settings_defs@.len(),
            forall|k: int| 0 <= k < order@.len() ==> (#[trigger] order@[k] as int)
                < self.settings_defs@.len(),
            forall|j: usize| (j as int) < self.settings_defs@.len() ==> order@.contains(j),
            forall|k1: int, k2: int|
                0 <= k1 < k2 < order@.len() ==> lex_lt(
                    self.id_of(order@[k1] as int),
                    self.id_of(order@[k2] as int),
                ),
    {
        let n = self.settings_defs.len();
        let mut order: Vec<usize> = Vec::new();
        let mut idx: usize = 0;
        while idx < n
            invariant
                idx <= n,
                n == self.settings_defs@.len(),
                self.wf(),
                order@.len() == idx as int,
                forall|k: int| 0 <= k < order@.len() ==> (#[trigger] order@[k] as int) < idx,
                forall|j: usize| (j as int) < idx ==> order@.contains(j),
                forall|k1: int, k2: int|
                    0 <= k1 < k2 < order@.len() ==> lex_lt(
                        self.id_of(order@[k1] as int),
                        self.id_of(order@[k2] as int),
                    ),
            decreases n - idx,
        {
            let mut p: usize = 0;
            while p < order.len() && str_lt(
                self.settings_defs[order[p]].id.as_str(),
                self.settings_defs[idx].id.as_str(),
            )
                invariant
                    p <= order@.len(),
                    idx < n,
                    n == self.settings_defs@.len(),
                    self.wf(),
                    order@.len() == idx as int,
                    forall|k: int| 0 <= k < order@.len() ==> (#[trigger] order@[k] as int) < idx,
                    forall|q: int|
                        0 <= q < p ==> lex_lt(
                            self.id_of(#[trigger] order@[q] as int),
                            self.id_of(idx as int),
                        ),
                decreases order@.len() - p,
            {
                proof {
                    assert(self.defs_model()[order@[p as int] as int]
                        == self.settings_defs@[order@[p as int] as int]@);
                    assert(self.defs_model()[idx as int] == self.settings_defs@[idx as int]@);
                }
                p += 1;
            }
            proof {
                if (p as int) < order@.len() {
                    let o = order@[p as int] as int;
                    assert(self.defs_model()[o] == self.settings_defs@[o]@);
                    assert(self.defs_model()[idx as int] == self.settings_defs@[idx as int]@);
                    assert(ids_model(self.defs_model())[o] == self.id_of(o));
                    assert(ids_model(self.defs_model())[idx as int] == self.id_of(idx as int));
                    assert(self.id_of(o) != self.id_of(idx as int));
                    lemma_lex_total(self.id_of(idx as int), self.id_of(o));
                }
            }
            let ghost before = order@;
            order.insert(p, idx);
            proof {
                before.insert_ensures(p as int, idx);
                assert forall|k1: int, k2: int|
                    0 <= k1 < k2 < order@.len() implies lex_lt(
                    self.id_of(order@[k1] as int),
                    self.id_of(order@[k2] as int),
                ) by {
                    let a = order@[k1];
                    let b = order@[k2];
                    if k1 < p as int {
                        assert(before.insert(p as int, idx)[k1] == before[k1]);
                    }
                    if k2 < p as int {
                        assert(before.insert(p as int, idx)[k2] == before[k2]);
                    }
                    if k1 > p as int {
                        assert(before.insert(p as int, idx)[k1] == before[k1 - 1]);
                    }
                    if k2 > p as int {
                        assert(before.insert(p as int, idx)[k2] == before[k2 - 1]);
                    }
                    assert(before.insert(p as int, idx)[p as int] == idx);
                    if k1 < p as int && k2 < p as int {
                    } else if k1 == p as int {
                        assert(a == idx);
                        assert(b == before[k2 - 1]);
                        assert(p as int <= k2 - 1 < before.len());
                        if (p as int) < before.len() {
                            if k2 - 1 > p as int {
                                assert(lex_lt(
                                    self.id_of(before[p as int] as int),
                                    self.id_of(before[k2 - 1] as int),
                                ));
                                lemma_lex_trans(
                                    self.id_of(idx as int),
                                    self.id_of(before[p as int] as int),
                                    self.id_of(before[k2 - 1] as int),
                                );
                            }
                        }
                    } else if k2 == p as int {
                        assert(b == idx);
                        assert(a == before[k1]);
                        assert(lex_lt(self.id_of(a as int), self.id_of(idx as int)));
                    } else if k1 < p as int && k2 > p as int {
                        assert(a == before[k1]);
                        assert(b == before[k2 - 1]);
                        if k2 - 1 == k1 {
                            assert(k1 == p as int - 1 || true);
                            assert(lex_lt(self.id_of(a as int), self.id_of(idx as int)));
                            assert(b == a);
                            assert(false);
                        }
                    } else {
                        assert(a == before[k1 - 1]);
                        assert(b == before[k2 - 1]);
                    }
                }
                assert forall|j: usize| (j as int) < idx + 1 implies order@.contains(j) by {
                    if (j as int) < idx {
                        assert(before.contains(j));
                        let k = choose|k: int| 0 <= k < before.len() && before[k] == j;
                        if k < p as int {
                            assert(before.insert(p as int, idx)[k] == before[k]);
                            assert(order@[k] == j);
                        } else {
                            assert(before.insert(p as int, idx)[k + 1] == before[k]);
                            assert(order@[k + 1] == j);
                        }
                    } else {
                        assert(before.insert(p as int, idx)[p as int] == idx);
                        assert(order@[p as int] == j);
                    }
                }
            }
            idx += 1;
        }
        order
    }

    /// Every staged change whose value differs from the live value,
    /// as review entries sorted by setting id ascending. A position
    /// whose staged value equals its live value never appears; with
    /// nothing staged the diff is empty.
    pub fn pending_diffs(&self) -> (r: Vec<DiffEntry>)
        requires
            self.wf(),
        ensures
            forall|k: int|
                0 <= k < r@.len() ==> {
                    let e = #[trigger] r@[k];
                    &&& (e.index as int) < self.settings_defs@.len()
                    &&& self.diff_at(e.index as int)
                    &&& opt_model(e.old_value) == self.live_model()[e.index as int]
                    &&& Some(e.new_value@) == self.pending_model()[e.index as int]
                },
            forall|i: int|
                0 <= i < self.settings_defs@.len() && self.diff_at(i) ==> exists|k: int|
                    0 <= k < r@.len() && (#[trigger] r@[k].index as int) == i,
            forall|k1: int, k2: int|
                0 <= k1 < k2 < r@.len() ==> lex_lt(
                    self.id_of(r@[k1].index as int),
                    self.id_of(r@[k2].index as int),
                ),
    {
        let order = self.id_order();
        let mut r: Vec<DiffEntry> = Vec::new();
        let ghost mut qs: Seq<int> = Seq::empty();
        let mut k: usize = 0;
        while k < order.len()
            invariant
                k <= order@.len(),
                self.wf(),
                order@.len() == self.settings_defs@.len(),
                forall|q: int| 0 <= q < order@.len() ==> (#[trigger] order@[q] as int)
                    < self.settings_defs@.len(),
                forall|j: usize| (j as int) < self.settings_defs@.len() ==> order@.contains(j),
                forall|q1: int, q2: int|
                    0 <= q1 < q2 < order@.len() ==> lex_lt(
                        self.id_of(order@[q1] as int),
                        self.id_of(order@[q2] as int),
                    ),
                forall|m: int|
                    0 <= m < r@.len() ==> {
                        let e = #[trigger] r@[m];
                        &&& (e.index as int) < self.settings_defs@.len()
                        &&& self.diff_at(e.index as int)
                        &&& opt_model(e.old_value) == self.live_model()[e.index as int]
                        &&& Some(e.new_value@) == self.pending_model()[e.index as int]
                    },
                qs.len() == r@.len(),
                forall|m: int|
                    0 <= m < qs.len() ==> 0 <= #[trigger] qs[m] < k && order@[qs[m]]
                        == r@[m].index,
                forall|m1: int, m2: int| 0 <= m1 < m2 < qs.len() ==> qs[m1] < qs[m2],
                forall|q: int|
                    0 <= q < k && self.diff_at(order@[q] as int) ==> exists|m: int|
                        0 <= m < r@.len() && #[trigger] r@[m].index == order@[q],
            decreases order@.len() - k,
        {
            let idx = order[k];
            assert(self.pending_model()[idx as int] == opt_model(self.pending_changes@[idx as int]));
            assert(self.live_model()[idx as int] == opt_model(self.live_values@[idx as int]));
            let ghost prev_r = r@;
            let staged: Option<SettingValue> = match &self.pending_changes[idx] {
                Some(v) => Some(v.clone()),
                Option::None => Option::None,
            };
            match staged {
                Some(new_value) => {
                    let differs: bool = match &self.live_values[idx] {
                        Some(live) => !(live == &new_value),
                        Option::None => true,
                    };
                    if differs {
                        let old_value: Option<SettingValue> = match &self.live_values[idx] {
                            Some(live) => Some(live.clone()),
                            Option::None => Option::None,
                        };
                        r.push(DiffEntry { index: idx, old_value, new_value });
                        proof {
                            qs = qs.push(k as int);
                            assert(r@[r@.len() - 1].index == idx);
                        }
                    } else {
                        assert(self.pending_model()[idx as int] == self.live_model()[idx as int]);
                        assert(!self.diff_at(idx as int));
                    }
                },
                Option::None => {
                    assert(!self.diff_at(idx as int));
                },
            }
            proof {
                assert forall|q: int|
                    0 <= q < k + 1 && self.diff_at(order@[q] as int) implies exists|m: int|
                    0 <= m < r@.len() && #[trigger] r@[m].index == order@[q] by {
                    if q < k {
                        let m0 = choose|m: int|
                            0 <= m < prev_r.len() && prev_r[m].index == order@[q];
                        assert(r@[m0] == prev_r[m0]);
                    } else {
                        assert(order@[q] == idx);
                        assert(r@[r@.len() - 1].index == idx);
                    }
                }
            }
            k += 1;
        }
        proof {
            assert forall|i: int|
                0 <= i < self.settings_defs@.len() && self.diff_at(i) implies exists|m: int|
                0 <= m < r@.len() && (#[trigger] r@[m].index as int) == i by {
                assert(order@.contains(i as usize));
                let q = choose|q: int| 0 <= q < order@.len() && order@[q] == i as usize;
                assert(self.diff_at(order@[q] as int));
            }
            assert forall|k1: int, k2: int|
                0 <= k1 < k2 < r@.len() implies lex_lt(
                self.id_of(r@[k1].index as int),
                self.id_of(r@[k2].index as int),
            ) by {
                assert(qs[k1] < qs[k2]);
                assert(order@[qs[k1]] == r@[k1].index);
                assert(order@[qs[k2]] == r@[k2].index);
            }
        }
        r
    }
}

/// With nothing staged — as right after a cancelled review or a
/// completed apply — no position produces a diff entry, so the
/// review diff is empty.
pub proof fn lemma_cleared_pending_has_no_diffs(app: App)
    requires
        forall|i: int| 0 <= i < app.pending_model().len() ==> app.pending_model()[i] is None,
    ensures
        forall|i: int| 0 <= i < app.pending_model().len() ==> !app.diff_at(i),
{
}

/// Whether the option strings are pairwise distinct.
fn distinct_strings(opts: &Vec<String>) -> (r: bool)
    ensures
        r == distinct_seqs(options_model(opts@)),
{
    let ghost model = options_model(opts@);
    let n = opts.len();
    let mut p: usize = 0;
    while p < n
        invariant
            p <= n,
            n == opts@.len(),
            model == options_model(opts@),
            forall|a: int, b: int| 0 <= a < b < n && a < p ==> model[a] != model[b],
        decreases n - p,
    {
        let mut q: usize = p + 1;
        while q < n
            invariant
                p < q <= n || (p + 1 == q && q > n),
                p < n,
                n == opts@.len(),
                model == options_model(opts@),
                forall|a: int, b: int| 0 <= a < b < n && a < p ==> model[a] != model[b],
                forall|b: int| p < b < q ==> model[p as int] != model[b],
            decreases n - q,
        {
            if <String as PartialEq>::eq(&opts[p], &opts[q]) {
                proof {
                    assert(model[p as int] == opts@[p as int]@);
                    assert(model[q as int] == opts@[q as int]@);
                }
                return false;
            }
            proof {
                assert(model[p as int] == opts@[p as int]@);
                assert(model[q as int] == opts@[q as int]@);
            }
            q += 1;
        }
        p += 1;
    }
    true
}

/// Check a catalog before handing it to the engine: every definition
/// well formed and every id unique. This is exactly what
/// [`App::new`] requires of its catalog.
pub fn catalog_ok(defs: &Vec<SettingDef>) -> (r: bool)
    ensures
        r == ((forall|i: int|
            0 <= i < defs@.len() ==> def_wf(#[trigger] defs_models(defs@)[i])) && distinct_seqs(
            ids_model(defs_models(defs@)),
        )),
{
    let ghost dm = defs_models(defs@);
    let n = defs.len();
    let mut i: usize = 0;
    while i < n
        invariant
            i <= n,
            n == defs@.len(),
            dm == defs_models(defs@),
            forall|j: int| 0 <= j < i ==> def_wf(#[trigger] dm[j]),
        decreases n - i,
    {
        assert(dm[i as int] == defs@[i as int]@);
        let ok = match &defs[i].constraint {
            Constraint::FloatRange(fr) => fr.min <= fr.max && fr.step >= 0,
            Constraint::IntRange(ir) => ir.min <= ir.max,
            Constraint::StringOptions(opts) => opts.len() > 0 && distinct_strings(opts),
            Constraint::Unconstrained => true,
        };
        if !ok {
            assert(!def_wf(dm[i as int]));
            return false;
        }
        assert(def_wf(dm[i as int]));
        i += 1;
    }
    let ghost ids = ids_model(dm);
    let mut a: usize = 0;
    while a < n
        invariant
            a <= n,
            n == defs@.len(),
            dm == defs_models(defs@),
            ids == ids_model(dm),
            forall|j: int| 0 <= j < n ==> def_wf(#[trigger] dm[j]),
            forall|p: int, q: int| 0 <= p < q < n && p < a ==> ids[p] != ids[q],
        decreases n - a,
    {
        let mut b: usize = a + 1;
        while b < n
            invariant
                a < b <= n || (a + 1 == b && b > n),
                a < n,
                n == defs@.len(),
                dm == defs_models(defs@),
                ids == ids_model(dm),
                forall|p: int, q: int| 0 <= p < q < n && p < a ==> ids[p] != ids[q],
                forall|q: int| a < q < b ==> ids[a as int] != ids[q],
            decreases n - b,
        {
            proof {
                assert(dm[a as int] == defs@[a as int]@);
                assert(dm[b as int] == defs@[b as int]@);
                assert(ids[a as int] == dm[a as int].id);
                assert(ids[b as int] == dm[b as int].id);
            }
            if <String as PartialEq>::eq(&defs[a].id, &defs[b].id) {
                return false;
            }
            b += 1;
        }
        a += 1;
    }
    true
}

/// Whether `g` is one of `groups`.
fn contains_group(groups: &Vec<crate::settings::SettingGroup>, g: crate::settings::SettingGroup)
    -> (r: bool)
    ensures
        r == groups@.contains(g),
{
    let mut i: usize = 0;
    while i < groups.len()
        invariant
            i <= groups@.len(),
            forall|j: int| 0 <= j < i ==> groups@[j] != g,
        decreases groups@.len() - i,
    {
        if groups[i] == g {
            return true;
        }
        i += 1;
    }
    false
}

} // verus!
