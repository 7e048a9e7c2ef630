//! The presets of a session: which there are, which of them is being
//! edited, and what each action on them changes.

use crate::config::active_flags;
use crate::preset::{
    append_mod, deactivated, drop_mods, holds_all, listed_mods, make_preset, preset_enabled,
    preset_mods, preset_name, switch_off, switch_on, switched_on, texts,
};
use crate::steps::{after_adding, after_deleting, after_editing, after_switching, Step};
use crate::mods::{distinct_names, ModList};
use crate::record::StagedModView;
use crate::sorting::{lemma_filter_member, lemma_filter_none};
use crate::text::text_eq;
use vstd::prelude::*;

verus! {

/// A preset of the list, under the name by which the list knows it.
pub struct PresetEntry {
    pub name: String,
    pub preset: beammm::Preset,
}

/// A preset as a plain value: the name by which the list knows it, the
/// name under which it is written out, its mods and its switch.
pub struct PresetView {
    pub name: Seq<char>,
    pub own_name: Seq<char>,
    pub members: Seq<Seq<char>>,
    pub enabled: bool,
}

impl View for PresetEntry {
    type V = PresetView;

    open spec fn view(&self) -> PresetView {
        PresetView {
            name: self.name@,
            own_name: preset_name(self.preset),
            members: preset_mods(self.preset),
            enabled: preset_enabled(self.preset),
        }
    }
}

/// The presets of a sequence, each as a plain value.
pub open spec fn entry_views(v: Seq<PresetEntry>) -> Seq<PresetView> {
    Seq::new(v.len(), |i: int| v[i]@)
}

/// The list holds a preset of that name.
pub open spec fn has_name(ps: Seq<PresetView>, name: Seq<char>) -> bool {
    exists|i: int| 0 <= i < ps.len() && (#[trigger] ps[i]).name == name
}

/// The place of the preset of that name.
pub open spec fn index_of(ps: Seq<PresetView>, name: Seq<char>) -> int {
    choose|i: int| 0 <= i < ps.len() && (#[trigger] ps[i]).name == name
}

/// No two presets share a name.
pub open spec fn distinct_presets(ps: Seq<PresetView>) -> bool {
    forall|i: int, j: int| 0 <= i < j < ps.len() ==> ps[i].name != ps[j].name
}

/// The two lists hold presets of the same names at the same places.
pub open spec fn same_names(a: Seq<PresetView>, b: Seq<PresetView>) -> bool {
    a.len() == b.len() && forall|i: int|
        #![trigger a[i]]
        #![trigger b[i]]
        0 <= i < a.len() ==> a[i].name == b[i].name
}

/// The members after a mod was added: as before where the mod is a member
/// already, else with the mod at the end.
pub open spec fn with_member(members: Seq<Seq<char>>, mod_name: Seq<char>) -> Seq<Seq<char>> {
    if members.contains(mod_name) {
        members
    } else {
        members.push(mod_name)
    }
}

/// The members that are not among `gone`, in their order.
pub open spec fn without_members(members: Seq<Seq<char>>, gone: Seq<Seq<char>>) -> Seq<
    Seq<char>,
> {
    members.filter(|name: Seq<char>| !gone.contains(name))
}

/// The presets of a session and the name of the one being edited.
pub struct PresetStoreView {
    pub presets: Seq<PresetView>,
    pub current: Option<Seq<char>>,
}

impl PresetStoreView {
    /// No two presets share a name, and the preset being edited is one of
    /// the list.
    pub open spec fn wf(self) -> bool {
        &&& distinct_presets(self.presets)
        &&& self.current.is_some() ==> has_name(self.presets, self.current.unwrap())
    }

    /// The same store with the preset at `i` replaced.
    pub open spec fn replaced(self, i: int, p: PresetView) -> PresetStoreView {
        PresetStoreView { presets: self.presets.update(i, p), ..self }
    }

    /// The store after a preset of that name was made: it stands at the
    /// end, empty and switched off, is written out under that name, and is
    /// the one being edited.
    pub open spec fn created(self, name: Seq<char>) -> PresetStoreView {
        PresetStoreView {
            presets: self.presets.push(
                PresetView { name, own_name: name, members: Seq::empty(), enabled: false },
            ),
            current: Some(name),
        }
    }

    /// The store after the preset of that name was dropped: the others
    /// stay in their order, and no preset is being edited if the dropped
    /// one was.
    pub open spec fn deleted(self, name: Seq<char>) -> PresetStoreView {
        PresetStoreView {
            presets: self.presets.remove(index_of(self.presets, name)),
            current: if self.current == Some(name) {
                None
            } else {
                self.current
            },
        }
    }
}

/// Why an action on the presets was not carried out.
#[derive(Debug, Clone, Copy, PartialEq, Eq, Structural)]
pub enum PresetError {
    /// A preset needs a name.
    EmptyName,
    /// The list holds a preset of that name already.
    NameInUse,
    /// The list holds no preset of that name.
    NoSuchPreset,
    /// The configuration does not hold every mod of the preset.
    MissingMods,
}

/// The presets of a session. No two share a name, and the preset being
/// edited is one of them.
pub struct PresetStore {
    presets: Vec<PresetEntry>,
    current_preset: Option<String>,
}

/// The label of the choice that stands for "no preset".
pub open spec fn none_label() -> Seq<char> {
    "None"@
}

impl View for PresetStore {
    type V = PresetStoreView;

    closed spec fn view(&self) -> PresetStoreView {
        PresetStoreView {
            presets: entry_views(self.presets@),
            current: match self.current_preset {
                Some(s) => Some(s@),
                None => None,
            },
        }
    }
}

/// Whether a preset lists a mod.
pub fn lists_mod(p: &beammm::Preset, mod_name: &str) -> (r: bool)
    ensures
        r == preset_mods(*p).contains(mod_name@),
{
    let mods = listed_mods(p);
    let n = mods.len();
    let mut i: usize = 0;
    while i < n
        invariant
            i <= n,
            n == mods.len(),
            texts(mods@) == preset_mods(*p),
            forall|k: int| 0 <= k < i ==> preset_mods(*p)[k] != mod_name@,
        decreases n - i,
    {
        assert(texts(mods@)[i as int] == mods@[i as int]@);
        if text_eq(mods[i].as_str(), mod_name) {
            assert(preset_mods(*p)[i as int] == mod_name@);
            return true;
        }
        i = i + 1;
    }
    false
}

/// Adds a mod to a preset unless the preset lists it already.
pub fn add_member(p: &mut beammm::Preset, mod_name: &str)
    ensures
        preset_mods(*final(p)) == with_member(preset_mods(*old(p)), mod_name@),
        preset_enabled(*final(p)) == preset_enabled(*old(p)),
        preset_name(*final(p)) == preset_name(*old(p)),
{
    if !lists_mod(p, mod_name) {
        append_mod(p, mod_name);
    }
}

impl PresetStore {
    #[verifier::type_invariant]
    closed spec fn inv(&self) -> bool {
        self@.wf()
    }

    /// The store without presets.
    pub fn new() -> (r: PresetStore)
        ensures
            r@.presets.len() == 0,
            r@.current.is_none(),
    {
        PresetStore { presets: Vec::new(), current_preset: None }
    }

    /// The number of presets. Every store is well formed.
    pub fn len(&self) -> (n: usize)
        ensures
            n == self@.presets.len(),
            self@.wf(),
    {
        proof {
            use_type_invariant(self);
        }
        self.presets.len()
    }

    /// The preset at `i`, if the list is that long.
    pub fn get(&self, i: usize) -> (r: Option<&PresetEntry>)
        ensures
            r.is_some() == (i < self@.presets.len()),
            r.is_some() ==> r.unwrap()@ == self@.presets[i as int],
    {
        if i < self.presets.len() {
            Some(&self.presets[i])
        } else {
            None
        }
    }

    /// The name of the preset being edited, if there is one.
    pub fn current(&self) -> (r: Option<&str>)
        ensures
            r.is_some() == self@.current.is_some(),
            r.is_some() ==> r.unwrap()@ == self@.current.unwrap(),
    {
        match &self.current_preset {
            Some(s) => Some(s.as_str()),
            None => None,
        }
    }

    /// The place of the preset of that name, if the list holds one.
    pub fn find(&self, name: &str) -> (r: Option<usize>)
        ensures
            r.is_some() == has_name(self@.presets, name@),
            r.is_some() ==> r.unwrap() < self@.presets.len() && self@.presets[r.unwrap() as int].name
                == name@ && r.unwrap() == index_of(self@.presets, name@),
    {
        proof {
            use_type_invariant(self);
        }
        let n = self.presets.len();
        let mut i: usize = 0;
        while i < n
            invariant
                i <= n,
                n == self.presets.len(),
                self@.wf(),
                forall|k: int| 0 <= k < i ==> (#[trigger] self@.presets[k]).name != name@,
            decreases n - i,
        {
            if text_eq(self.presets[i].name.as_str(), name) {
                assert(self@.presets[i as int].name == name@);
                let ghost c = index_of(self@.presets, name@);
                assert(c == i) by {
                    if c < i {
                        assert(self@.presets[c].name != self@.presets[i as int].name);
                    } else if i < c {
                        assert(self@.presets[i as int].name != self@.presets[c].name);
                    }
                }
                return Some(i);
            }
            i = i + 1;
        }
        None
    }
}

impl PresetStore {
    /// Switches the preset of that name on. Its members stay as they are;
    /// the caller is to write the preset, have the enabled presets
    /// applied, and write the configuration.
    pub fn enable(&mut self, name: &str) -> (r: Result<Vec<Step>, PresetError>)
        ensures
            same_names(final(self)@.presets, old(self)@.presets),
            match r {
                Ok(steps) => {
                    &&& has_name(old(self)@.presets, name@)
                    &&& final(self)@ == old(self)@.switched(name@, true)
                    &&& steps@ == seq![Step::SavePreset, Step::ApplyPresets, Step::SaveConfig]
                },
                Err(e) => {
                    &&& e == PresetError::NoSuchPreset
                    &&& !has_name(old(self)@.presets, name@)
                    &&& final(self)@ == old(self)@
                },
            },
    {
        proof {
            use_type_invariant(&*self);
        }
        match self.find(name) {
            None => Err(PresetError::NoSuchPreset),
            Some(i) => {
                let ghost before = self@;
                let mut taken = PresetStore::new();
                std::mem::swap(self, &mut taken);
                let PresetStore { presets: mut presets, current_preset } = taken;
                switch_on(&mut presets[i].preset);
                proof {
                    let after = entry_views(presets@);
                    assert(after =~= before.presets.update(
                        i as int,
                        PresetView { enabled: true, ..before.presets[i as int] },
                    ));
                    lemma_update_keeps_wf(before, i as int, after[i as int]);
                }
                *self = PresetStore { presets, current_preset };
                Ok(after_switching())
            },
        }
    }
}

/// Replacing a preset by one of the same name keeps the store well formed.
pub proof fn lemma_update_keeps_wf(s: PresetStoreView, i: int, p: PresetView)
    requires
        s.wf(),
        0 <= i < s.presets.len(),
        p.name == s.presets[i].name,
    ensures
        s.replaced(i, p).wf(),
        same_names(s.replaced(i, p).presets, s.presets),
        forall|name: Seq<char>|
            has_name(s.replaced(i, p).presets, name) <==> has_name(s.presets, name),
{
    let t = s.replaced(i, p);
    assert forall|name: Seq<char>| has_name(t.presets, name) <==> has_name(s.presets, name) by {
        if has_name(t.presets, name) {
            let k = index_of(t.presets, name);
            assert(s.presets[k].name == name);
        }
        if has_name(s.presets, name) {
            let k = index_of(s.presets, name);
            assert(t.presets[k].name == name);
        }
    }
    assert forall|a: int, b: int| 0 <= a < b < t.presets.len() implies t.presets[a].name
        != t.presets[b].name by {
        assert(t.presets[a].name == s.presets[a].name);
        assert(t.presets[b].name == s.presets[b].name);
    }
    if s.current.is_some() {
        let k = index_of(s.presets, s.current.unwrap());
        assert(t.presets[k].name == s.presets[k].name);
    }
}

/// The names of the ticked mods of `s` that are not among `members`, in
/// the order of `s`.
pub open spec fn fresh_selected(s: Seq<StagedModView>, members: Seq<Seq<char>>) -> Seq<
    Seq<char>,
> {
    s.filter(|m: StagedModView| m.selected && !members.contains(m.name)).map_values(
        |m: StagedModView| m.name,
    )
}

/// Taking one more mod into account adds its name to the fresh ones where
/// it is ticked and no member yet; no earlier mod has put that name there.
pub proof fn lemma_fresh_step(s: Seq<StagedModView>, i: int, members: Seq<Seq<char>>)
    requires
        distinct_names(s),
        0 <= i < s.len(),
    ensures
        fresh_selected(s.take(i + 1), members) == (if s[i].selected && !members.contains(
            s[i].name,
        ) {
            fresh_selected(s.take(i), members).push(s[i].name)
        } else {
            fresh_selected(s.take(i), members)
        }),
        !fresh_selected(s.take(i), members).contains(s[i].name),
{
    let pred = |m: StagedModView| m.selected && !members.contains(m.name);
    let name_of = |m: StagedModView| m.name;
    let head = s.take(i);
    assert(s.take(i + 1) =~= head.push(s[i]));
    head.lemma_filter_push(s[i], pred);
    if pred(s[i]) {
        assert(head.filter(pred).push(s[i]).map_values(name_of) =~= head.filter(pred).map_values(
            name_of,
        ).push(s[i].name));
    }
    let fresh = fresh_selected(head, members);
    if fresh.contains(s[i].name) {
        let k = choose|k: int| 0 <= k < fresh.len() && fresh[k] == s[i].name;
        let j = lemma_filter_member(head, pred, k);
        assert(head[j] == s[j]);
        assert(s[j].name != s[i].name);
    }
}

/// Adding a mod that is a member already changes nothing: a second adding
/// of the same name leaves the members, and their number, as the first
/// left them.
pub proof fn lemma_add_member_twice(members: Seq<Seq<char>>, mod_name: Seq<char>)
    ensures
        with_member(with_member(members, mod_name), mod_name) == with_member(members, mod_name),
        with_member(with_member(members, mod_name), mod_name).len() == with_member(
            members,
            mod_name,
        ).len(),
        with_member(members, mod_name).contains(mod_name),
{
    if !members.contains(mod_name) {
        assert(members.push(mod_name)[members.len() as int] == mod_name);
    }
}

/// Dropping a preset takes its name out of the list, leaves the store well
/// formed, and leaves no preset being edited if the dropped one was.
pub proof fn lemma_deleted(s: PresetStoreView, name: Seq<char>)
    requires
        s.wf(),
        has_name(s.presets, name),
    ensures
        !has_name(s.deleted(name).presets, name),
        s.deleted(name).wf(),
        s.current == Some(name) ==> s.deleted(name).current.is_none(),
        s.deleted(name).presets.len() == s.presets.len() - 1,
{
    let i = index_of(s.presets, name);
    let t = s.deleted(name);
    assert forall|k: int| 0 <= k < t.presets.len() implies (#[trigger] t.presets[k]).name
        != name by {
        if k < i {
            assert(t.presets[k] == s.presets[k]);
            assert(s.presets[k].name != s.presets[i].name);
        } else {
            assert(t.presets[k] == s.presets[k + 1]);
            assert(s.presets[i].name != s.presets[k + 1].name);
        }
    }
    assert forall|a: int, b: int| 0 <= a < b < t.presets.len() implies t.presets[a].name
        != t.presets[b].name by {
        let a0 = if a < i { a } else { a + 1 };
        let b0 = if b < i { b } else { b + 1 };
        assert(t.presets[a] == s.presets[a0] && t.presets[b] == s.presets[b0]);
    }
    if t.current.is_some() {
        let c = index_of(s.presets, s.current.unwrap());
        assert(c != i);
        let c1 = if c < i { c } else { c - 1 };
        assert(t.presets[c1] == s.presets[c]);
    }
}

/// Putting a preset of an unused name at the end keeps the store well
/// formed.
pub proof fn lemma_push_keeps_wf(s: PresetStoreView, p: PresetView, current: Option<Seq<char>>)
    requires
        s.wf(),
        !has_name(s.presets, p.name),
        current == s.current || current == Some(p.name),
    ensures
        (PresetStoreView { presets: s.presets.push(p), current }).wf(),
{
    let t = PresetStoreView { presets: s.presets.push(p), current };
    assert forall|a: int, b: int| 0 <= a < b < t.presets.len() implies t.presets[a].name
        != t.presets[b].name by {
        assert(t.presets[a] == s.presets[a]);
        if b < s.presets.len() {
            assert(t.presets[b] == s.presets[b]);
        }
    }
    if current.is_some() {
        if current == Some(p.name) {
            assert(t.presets[s.presets.len() as int].name == p.name);
        } else {
            let c = index_of(s.presets, current.unwrap());
            assert(t.presets[c] == s.presets[c]);
        }
    }
}

impl PresetStore {
    /// Takes in a preset that was read from disk, under the name of its
    /// file. Says whether it was taken: a name that the list holds already
    /// is not taken twice.
    pub fn insert_loaded(&mut self, name: String, preset: beammm::Preset) -> (taken: bool)
        ensures
            taken == !has_name(old(self)@.presets, name@),
            taken ==> final(self)@ == (PresetStoreView {
                presets: old(self)@.presets.push(
                    PresetView {
                        name: name@,
                        own_name: preset_name(preset),
                        members: preset_mods(preset),
                        enabled: preset_enabled(preset),
                    },
                ),
                ..old(self)@
            }),
            !taken ==> final(self)@ == old(self)@,
    {
        proof {
            use_type_invariant(&*self);
        }
        match self.find(name.as_str()) {
            Some(_) => false,
            None => {
                let ghost before = self@;
                let mut store = PresetStore::new();
                std::mem::swap(self, &mut store);
                let PresetStore { presets: mut presets, current_preset } = store;
                let entry = PresetEntry { name, preset };
                let ghost added = entry@;
                presets.push(entry);
                proof {
                    assert(entry_views(presets@) =~= before.presets.push(added));
                    lemma_push_keeps_wf(before, added, before.current);
                }
                *self = PresetStore { presets, current_preset };
                true
            },
        }
    }

    /// The text that stands for the preset being edited: its name, or the
    /// label for "no preset".
    pub fn current_label(&self) -> (r: String)
        ensures
            r@ == (match self@.current {
                Some(name) => name,
                None => none_label(),
            }),
    {
        match &self.current_preset {
            Some(s) => s.clone(),
            None => "None".to_owned(),
        }
    }

    /// Makes the choice with that label: the label for "no preset" ends
    /// the editing, the name of a preset of the list makes it the one being
    /// edited. Any other label changes nothing. Says whether the label was
    /// one of these.
    pub fn select_label(&mut self, label: &str) -> (known: bool)
        ensures
            known == (label@ == none_label() || has_name(old(self)@.presets, label@)),
            final(self)@.presets == old(self)@.presets,
            final(self)@.current == (if label@ == none_label() {
                None
            } else if has_name(old(self)@.presets, label@) {
                Some(label@)
            } else {
                old(self)@.current
            }),
    {
        proof {
            use_type_invariant(&*self);
        }
        if text_eq(label, "None") {
            let mut store = PresetStore::new();
            std::mem::swap(self, &mut store);
            let PresetStore { presets, current_preset: _ } = store;
            *self = PresetStore { presets, current_preset: None };
            true
        } else {
            match self.find(label) {
                None => false,
                Some(_) => {
                    let mut store = PresetStore::new();
                    std::mem::swap(self, &mut store);
                    let PresetStore { presets, current_preset: _ } = store;
                    *self = PresetStore { presets, current_preset: Some(label.to_owned()) };
                    true
                },
            }
        }
    }

    /// Makes a preset of that name, empty and switched off, puts it at the
    /// end of the list and makes it the one being edited. The name has to
    /// be non-empty and unused. The caller is to write the preset.
    pub fn create(&mut self, name: String) -> (r: Result<Vec<Step>, PresetError>)
        ensures
            match r {
                Ok(steps) => {
                    &&& name@.len() > 0
                    &&& !has_name(old(self)@.presets, name@)
                    &&& final(self)@ == old(self)@.created(name@)
                    &&& steps@ == seq![Step::SavePreset]
                },
                Err(e) => {
                    &&& final(self)@ == old(self)@
                    &&& e == (if name@.len() == 0 {
                        PresetError::EmptyName
                    } else {
                        PresetError::NameInUse
                    })
                    &&& name@.len() == 0 || has_name(old(self)@.presets, name@)
                },
            },
    {
        proof {
            use_type_invariant(&*self);
        }
        if text_eq(name.as_str(), "") {
            proof {
                reveal_strlit("");
            }
            return Err(PresetError::EmptyName);
        }
        proof {
            reveal_strlit("");
            if name@.len() == 0 {
                assert(name@ =~= ""@);
            }
        }
        match self.find(name.as_str()) {
            Some(_) => Err(PresetError::NameInUse),
            None => {
                let ghost before = self@;
                let mut store = PresetStore::new();
                std::mem::swap(self, &mut store);
                let PresetStore { presets: mut presets, current_preset: _ } = store;
                let preset = make_preset(name.clone(), Vec::new());
                let current = name.clone();
                let entry = PresetEntry { name, preset };
                let ghost added = entry@;
                presets.push(entry);
                proof {
                    assert(added.members =~= Seq::<Seq<char>>::empty());
                    assert(entry_views(presets@) =~= before.presets.push(added));
                    lemma_push_keeps_wf(before, added, Some(added.name));
                }
                *self = PresetStore { presets, current_preset: Some(current) };
                Ok(after_editing())
            },
        }
    }

    /// Drops the preset of that name from the list. If it was the one
    /// being edited, none is being edited afterwards. The caller is to
    /// remove the preset's file.
    pub fn delete(&mut self, name: &str) -> (r: Result<Vec<Step>, PresetError>)
        ensures
            match r {
                Ok(steps) => {
                    &&& has_name(old(self)@.presets, name@)
                    &&& final(self)@ == old(self)@.deleted(name@)
                    &&& !has_name(final(self)@.presets, name@)
                    &&& old(self)@.current == Some(name@) ==> final(self)@.current.is_none()
                    &&& steps@ == seq![Step::DeletePreset]
                },
                Err(e) => {
                    &&& e == PresetError::NoSuchPreset
                    &&& !has_name(old(self)@.presets, name@)
                    &&& final(self)@ == old(self)@
                },
            },
    {
        proof {
            use_type_invariant(&*self);
        }
        match self.find(name) {
            None => Err(PresetError::NoSuchPreset),
            Some(i) => {
                let ghost before = self@;
                let mut store = PresetStore::new();
                std::mem::swap(self, &mut store);
                let PresetStore { presets: mut presets, current_preset } = store;
                let _ = presets.remove(i);
                let was_current = match &current_preset {
                    Some(c) => text_eq(c.as_str(), name),
                    None => false,
                };
                let current = if was_current {
                    None
                } else {
                    current_preset
                };
                proof {
                    assert(entry_views(presets@) =~= before.presets.remove(i as int));
                    lemma_deleted(before, name@);
                }
                *self = PresetStore { presets, current_preset: current };
                Ok(after_deleting())
            },
        }
    }
}

impl PresetStoreView {
    /// The preset of that name.
    pub open spec fn named(self, name: Seq<char>) -> PresetView {
        self.presets[index_of(self.presets, name)]
    }

    /// The same store with the switch of the preset of that name set.
    pub open spec fn switched(self, name: Seq<char>, enabled: bool) -> PresetStoreView {
        self.replaced(index_of(self.presets, name), PresetView { enabled, ..self.named(name) })
    }

    /// The same store with the members of the preset of that name replaced.
    pub open spec fn with_members(self, name: Seq<char>, members: Seq<Seq<char>>)
        -> PresetStoreView {
        self.replaced(index_of(self.presets, name), PresetView { members, ..self.named(name) })
    }
}

impl PresetStore {
    /// Switches the preset of that name off and sets every mod of it to
    /// inactive in the configuration. Where the configuration does not
    /// hold every mod of the preset, nothing changes. The caller is to
    /// write the preset, have the enabled presets applied, which activates
    /// again what another enabled preset holds, and write the
    /// configuration.
    pub fn disable(&mut self, name: &str, cfg: &mut beammm::game::ModCfg) -> (r: Result<
        Vec<Step>,
        PresetError,
    >)
        ensures
            same_names(final(self)@.presets, old(self)@.presets),
            match r {
                Ok(steps) => {
                    &&& has_name(old(self)@.presets, name@)
                    &&& holds_all(active_flags(*old(cfg)), old(self)@.named(name@).members)
                    &&& final(self)@ == old(self)@.switched(name@, false)
                    &&& active_flags(*final(cfg)) == deactivated(
                        active_flags(*old(cfg)),
                        old(self)@.named(name@).members,
                    )
                    &&& steps@ == seq![Step::SavePreset, Step::ApplyPresets, Step::SaveConfig]
                },
                Err(e) => {
                    &&& final(self)@ == old(self)@
                    &&& active_flags(*final(cfg)) == active_flags(*old(cfg))
                    &&& e == (if has_name(old(self)@.presets, name@) {
                        PresetError::MissingMods
                    } else {
                        PresetError::NoSuchPreset
                    })
                    &&& has_name(old(self)@.presets, name@) ==> !holds_all(
                        active_flags(*old(cfg)),
                        old(self)@.named(name@).members,
                    )
                },
            },
    {
        proof {
            use_type_invariant(&*self);
        }
        match self.find(name) {
            None => Err(PresetError::NoSuchPreset),
            Some(i) => {
                let ghost before = self@;
                let mut store = PresetStore::new();
                std::mem::swap(self, &mut store);
                let PresetStore { presets: mut presets, current_preset } = store;
                let outcome = switch_off(&mut presets[i].preset, cfg);
                proof {
                    let after = entry_views(presets@);
                    if outcome.is_ok() {
                        assert(after =~= before.presets.update(
                            i as int,
                            PresetView { enabled: false, ..before.presets[i as int] },
                        ));
                    } else {
                        assert(after =~= before.presets.update(i as int, before.presets[i as int]));
                        assert(after =~= before.presets);
                    }
                    lemma_update_keeps_wf(before, i as int, after[i as int]);
                }
                *self = PresetStore { presets, current_preset };
                match outcome {
                    Ok(()) => Ok(after_switching()),
                    Err(_) => Err(PresetError::MissingMods),
                }
            },
        }
    }

    /// Switches the preset of that name: off where it is on, on where it
    /// is off.
    pub fn toggle(&mut self, name: &str, cfg: &mut beammm::game::ModCfg) -> (r: Result<
        Vec<Step>,
        PresetError,
    >)
        ensures
            same_names(final(self)@.presets, old(self)@.presets),
            !has_name(old(self)@.presets, name@) ==> r == Err::<Vec<Step>, PresetError>(
                PresetError::NoSuchPreset,
            ) && final(self)@ == old(self)@ && active_flags(*final(cfg)) == active_flags(
                *old(cfg),
            ),
            has_name(old(self)@.presets, name@) && !old(self)@.named(name@).enabled ==> r.is_ok()
                && final(self)@ == old(self)@.switched(name@, true) && active_flags(*final(cfg))
                == active_flags(*old(cfg)),
            has_name(old(self)@.presets, name@) && old(self)@.named(name@).enabled ==> match r {
                Ok(_) => {
                    &&& holds_all(active_flags(*old(cfg)), old(self)@.named(name@).members)
                    &&& final(self)@ == old(self)@.switched(name@, false)
                    &&& active_flags(*final(cfg)) == deactivated(
                        active_flags(*old(cfg)),
                        old(self)@.named(name@).members,
                    )
                },
                Err(e) => {
                    &&& e == PresetError::MissingMods
                    &&& !holds_all(active_flags(*old(cfg)), old(self)@.named(name@).members)
                    &&& final(self)@ == old(self)@
                    &&& active_flags(*final(cfg)) == active_flags(*old(cfg))
                },
            },
            r.is_ok() ==> r.unwrap()@ == seq![
                Step::SavePreset,
                Step::ApplyPresets,
                Step::SaveConfig,
            ],
    {
        match self.find(name) {
            None => Err(PresetError::NoSuchPreset),
            Some(i) => {
                let is_on = match self.get(i) {
                    Some(entry) => switched_on(&entry.preset),
                    None => false,
                };
                if is_on {
                    self.disable(name, cfg)
                } else {
                    self.enable(name)
                }
            },
        }
    }

    /// Takes the given mods out of the preset of that name. The caller is
    /// to write the preset.
    pub fn remove_members(&mut self, name: &str, mods: &Vec<String>) -> (r: Result<
        Vec<Step>,
        PresetError,
    >)
        ensures
            same_names(final(self)@.presets, old(self)@.presets),
            match r {
                Ok(steps) => {
                    &&& has_name(old(self)@.presets, name@)
                    &&& final(self)@ == old(self)@.with_members(
                        name@,
                        without_members(old(self)@.named(name@).members, texts(mods@)),
                    )
                    &&& steps@ == seq![Step::SavePreset]
                },
                Err(e) => {
                    &&& e == PresetError::NoSuchPreset
                    &&& !has_name(old(self)@.presets, name@)
                    &&& final(self)@ == old(self)@
                },
            },
    {
        proof {
            use_type_invariant(&*self);
        }
        match self.find(name) {
            None => Err(PresetError::NoSuchPreset),
            Some(i) => {
                let ghost before = self@;
                let mut store = PresetStore::new();
                std::mem::swap(self, &mut store);
                let PresetStore { presets: mut presets, current_preset } = store;
                drop_mods(&mut presets[i].preset, mods);
                proof {
                    let after = entry_views(presets@);
                    assert(after =~= before.presets.update(
                        i as int,
                        PresetView {
                            members: without_members(
                                before.presets[i as int].members,
                                texts(mods@),
                            ),
                            ..before.presets[i as int]
                        },
                    ));
                    lemma_update_keeps_wf(before, i as int, after[i as int]);
                }
                *self = PresetStore { presets, current_preset };
                Ok(after_editing())
            },
        }
    }

    /// Adds a mod to the preset of that name; a mod that is a member
    /// already is not added again. The caller is to write the preset.
    pub fn add_member_to(&mut self, name: &str, mod_name: &str) -> (r: Result<
        Vec<Step>,
        PresetError,
    >)
        ensures
            same_names(final(self)@.presets, old(self)@.presets),
            match r {
                Ok(steps) => {
                    &&& has_name(old(self)@.presets, name@)
                    &&& final(self)@ == old(self)@.with_members(
                        name@,
                        with_member(old(self)@.named(name@).members, mod_name@),
                    )
                    &&& steps@ == seq![Step::SavePreset]
                },
                Err(e) => {
                    &&& e == PresetError::NoSuchPreset
                    &&& !has_name(old(self)@.presets, name@)
                    &&& final(self)@ == old(self)@
                },
            },
    {
        proof {
            use_type_invariant(&*self);
        }
        match self.find(name) {
            None => Err(PresetError::NoSuchPreset),
            Some(i) => {
                let ghost before = self@;
                let mut store = PresetStore::new();
                std::mem::swap(self, &mut store);
                let PresetStore { presets: mut presets, current_preset } = store;
                add_member(&mut presets[i].preset, mod_name);
                proof {
                    let after = entry_views(presets@);
                    assert(after =~= before.presets.update(
                        i as int,
                        PresetView {
                            members: with_member(before.presets[i as int].members, mod_name@),
                            ..before.presets[i as int]
                        },
                    ));
                    lemma_update_keeps_wf(before, i as int, after[i as int]);
                }
                *self = PresetStore { presets, current_preset };
                Ok(after_editing())
            },
        }
    }

    /// Adds every ticked mod of the list to the preset of that name, going
    /// down the list; a mod that is a member already is not added again.
    /// The caller is to write the preset and have the enabled presets
    /// applied.
    pub fn add_selected_to_preset(&mut self, name: &str, list: &ModList) -> (r: Result<
        Vec<Step>,
        PresetError,
    >)
        ensures
            same_names(final(self)@.presets, old(self)@.presets),
            match r {
                Ok(steps) => {
                    &&& has_name(old(self)@.presets, name@)
                    &&& final(self)@ == old(self)@.with_members(
                        name@,
                        old(self)@.named(name@).members + fresh_selected(
                            list@,
                            old(self)@.named(name@).members,
                        ),
                    )
                    &&& steps@ == seq![Step::SavePreset, Step::ApplyPresets]
                },
                Err(e) => {
                    &&& e == PresetError::NoSuchPreset
                    &&& !has_name(old(self)@.presets, name@)
                    &&& final(self)@ == old(self)@
                },
            },
    {
        proof {
            use_type_invariant(&*self);
        }
        match self.find(name) {
            None => Err(PresetError::NoSuchPreset),
            Some(i) => {
                let ghost before = self@;
                let ghost members = before.presets[i as int].members;
                let ghost s = list@;
                let mut store = PresetStore::new();
                std::mem::swap(self, &mut store);
                let PresetStore { presets: mut presets, current_preset } = store;
                let n = list.len();
                let mut k: usize = 0;
                proof {
                    assert(s.take(0) =~= Seq::<StagedModView>::empty());
                    s.take(0).lemma_filter_len(
                        |m: StagedModView| m.selected && !members.contains(m.name),
                    );
                    assert(fresh_selected(s.take(0), members) =~= Seq::<Seq<char>>::empty());
                    assert(members + fresh_selected(s.take(0), members) =~= members);
                }
                while k < n
                    invariant
                        k <= n,
                        n == s.len(),
                        s == list@,
                        distinct_names(s),
                        i < presets.len(),
                        presets.len() == before.presets.len(),
                        members == before.presets[i as int].members,
                        forall|j: int|
                            0 <= j < presets.len() && j != i ==> (#[trigger] presets@[j])@
                                == before.presets[j],
                        presets@[i as int]@ == (PresetView {
                            members: members + fresh_selected(s.take(k as int), members),
                            ..before.presets[i as int]
                        }),
                    decreases n - k,
                {
                    let ghost held = presets@[i as int]@.members;
                    let ghost rest = presets@;
                    match list.get(k) {
                        Some(record) => {
                            proof {
                                lemma_fresh_step(s, k as int, members);
                                let fresh = fresh_selected(s.take(k as int), members);
                                assert(held.contains(record@.name) == members.contains(
                                    record@.name,
                                )) by {
                                    if held.contains(record@.name) {
                                        let x = choose|x: int|
                                            0 <= x < held.len() && held[x] == record@.name;
                                        if x < members.len() {
                                            assert(members[x] == record@.name);
                                        } else {
                                            assert(fresh[x - members.len()] == record@.name);
                                        }
                                    }
                                    if members.contains(record@.name) {
                                        let x = choose|x: int|
                                            0 <= x < members.len() && members[x] == record@.name;
                                        assert(held[x] == record@.name);
                                    }
                                }
                                assert(held.push(record@.name) =~= members + fresh.push(
                                    record@.name,
                                ));
                            }
                            if record.selected {
                                add_member(&mut presets[i].preset, record.mod_name.as_str());
                            }
                            proof {
                                assert forall|j: int|
                                    0 <= j < presets.len() && j != i implies (
                                #[trigger] presets@[j])@ == before.presets[j] by {
                                    assert(presets@[j] == rest[j]);
                                }
                            }
                        },
                        None => {},
                    }
                    k = k + 1;
                }
                proof {
                    assert(s.take(n as int) =~= s);
                    let after = entry_views(presets@);
                    assert(after =~= before.presets.update(
                        i as int,
                        PresetView {
                            members: members + fresh_selected(s, members),
                            ..before.presets[i as int]
                        },
                    ));
                    lemma_update_keeps_wf(before, i as int, after[i as int]);
                }
                *self = PresetStore { presets, current_preset };
                Ok(after_adding())
            },
        }
    }
}

/// Adding the ticked mods to a preset a second time adds nothing: after the
/// first adding none of them is fresh.
pub proof fn lemma_add_selected_idempotent(s: Seq<StagedModView>, members: Seq<Seq<char>>)
    ensures
        fresh_selected(s, members + fresh_selected(s, members)).len() == 0,
{
    let first = |m: StagedModView| m.selected && !members.contains(m.name);
    let held = members + fresh_selected(s, members);
    let second = |m: StagedModView| m.selected && !held.contains(m.name);
    assert forall|i: int| 0 <= i < s.len() implies !second(#[trigger] s[i]) by {
        if s[i].selected {
            if members.contains(s[i].name) {
                let k = choose|k: int| 0 <= k < members.len() && members[k] == s[i].name;
                assert(held[k] == s[i].name);
            } else {
                s.lemma_filter_contains(first, i);
                let kept = s.filter(first);
                let k = choose|k: int| 0 <= k < kept.len() && kept[k] == s[i];
                assert(fresh_selected(s, members)[k] == s[i].name);
                assert(held[members.len() + k] == s[i].name);
            }
        }
    }
    lemma_filter_none(s, second);
}

} // verus!
