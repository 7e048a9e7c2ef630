//! The actions on the ticked mods of the list: what they change in the
//! game's configuration.

use crate::config::{active_flags, lookup_active, store_active};
use crate::mods::{ModList, UnknownMod};
use crate::record::StagedModView;
use crate::steps::{after_disabling, after_enabling, Step};
use vstd::prelude::*;

verus! {

/// A ticked mod of that name stands below `upto`.
pub open spec fn selected_below(s: Seq<StagedModView>, upto: int, name: Seq<char>) -> bool {
    exists|i: int| 0 <= i < upto && i < s.len() && (#[trigger] s[i]).selected && s[i].name == name
}

/// The flags after the ticked mods below `upto` were set to `value`: the
/// same mods, those ticked ones with the new flag, the others as before.
pub open spec fn flags_after(
    s: Seq<StagedModView>,
    upto: int,
    active: Map<Seq<char>, bool>,
    value: bool,
) -> Map<Seq<char>, bool> {
    Map::new(
        |name: Seq<char>| active.contains_key(name),
        |name: Seq<char>|
            if selected_below(s, upto, name) {
                value
            } else {
                active[name]
            },
    )
}

/// The mod at `i` is the first ticked one that the configuration does not
/// hold.
pub open spec fn is_first_unknown_selected(
    s: Seq<StagedModView>,
    active: Map<Seq<char>, bool>,
    i: int,
) -> bool {
    &&& 0 <= i < s.len()
    &&& s[i].selected
    &&& !active.contains_key(s[i].name)
    &&& forall|k: int| 0 <= k < i && (#[trigger] s[k]).selected ==> active.contains_key(s[k].name)
}

/// The configuration holds every ticked mod.
pub open spec fn selected_known(s: Seq<StagedModView>, active: Map<Seq<char>, bool>) -> bool {
    forall|k: int| 0 <= k < s.len() && (#[trigger] s[k]).selected ==> active.contains_key(s[k].name)
}

/// Taking one more mod into account changes the flags that result by that
/// mod alone.
pub proof fn lemma_flags_after_step(
    s: Seq<StagedModView>,
    i: int,
    active: Map<Seq<char>, bool>,
    value: bool,
)
    requires
        0 <= i < s.len(),
        s[i].selected ==> active.contains_key(s[i].name),
    ensures
        flags_after(s, i + 1, active, value) == (if s[i].selected {
            flags_after(s, i, active, value).insert(s[i].name, value)
        } else {
            flags_after(s, i, active, value)
        }),
{
    let before = flags_after(s, i, active, value);
    let after = flags_after(s, i + 1, active, value);
    let expected = if s[i].selected {
        before.insert(s[i].name, value)
    } else {
        before
    };
    assert forall|name: Seq<char>| active.contains_key(name) implies #[trigger] after[name]
        == expected[name] by {
        if selected_below(s, i + 1, name) {
            let k = choose|k: int|
                0 <= k < i + 1 && k < s.len() && (#[trigger] s[k]).selected && s[k].name == name;
            if k < i {
                assert(selected_below(s, i, name));
            }
        }
        if selected_below(s, i, name) {
            let k = choose|k: int|
                0 <= k < i && k < s.len() && (#[trigger] s[k]).selected && s[k].name == name;
            assert(selected_below(s, i + 1, name));
        }
        if s[i].selected && s[i].name == name {
            assert(selected_below(s, i + 1, name));
        }
    }
    assert(after =~= expected);
}

/// Before any mod is taken into account the flags are as they were.
pub proof fn lemma_flags_after_none(
    s: Seq<StagedModView>,
    active: Map<Seq<char>, bool>,
    value: bool,
)
    ensures
        flags_after(s, 0, active, value) == active,
{
    assert(flags_after(s, 0, active, value) =~= active);
}

impl ModList {
    /// Sets the flag of every ticked mod in the configuration, going down
    /// the list. At the first ticked mod that the configuration does not
    /// hold the work stops: the flags set so far stay set, and that mod is
    /// named.
    pub fn set_selected_active(&self, cfg: &mut beammm::game::ModCfg, value: bool) -> (r: Result<
        (),
        UnknownMod,
    >)
        ensures
            match r {
                Ok(()) => {
                    &&& selected_known(self@, active_flags(*old(cfg)))
                    &&& active_flags(*final(cfg)) == flags_after(
                        self@,
                        self@.len() as int,
                        active_flags(*old(cfg)),
                        value,
                    )
                },
                Err(e) => {
                    &&& is_first_unknown_selected(self@, active_flags(*old(cfg)), e.index as int)
                    &&& active_flags(*final(cfg)) == flags_after(
                        self@,
                        e.index as int,
                        active_flags(*old(cfg)),
                        value,
                    )
                },
            },
    {
        let ghost s = self@;
        let ghost start = active_flags(*cfg);
        let n = self.len();
        let mut i: usize = 0;
        proof {
            lemma_flags_after_none(s, start, value);
        }
        while i < n
            invariant
                i <= n,
                n == s.len(),
                s == self@,
                start == active_flags(*old(cfg)),
                active_flags(*cfg) == flags_after(s, i as int, start, value),
                forall|k: int|
                    0 <= k < i && (#[trigger] s[k]).selected ==> start.contains_key(s[k].name),
            decreases n - i,
        {
            match self.get(i) {
                Some(record) => {
                    if record.selected {
                        assert(active_flags(*cfg).contains_key(record@.name) == start.contains_key(
                            record@.name,
                        ));
                        match store_active(cfg, record.mod_name.as_str(), value) {
                            Ok(()) => {},
                            Err(_) => {
                                return Err(UnknownMod { index: i });
                            },
                        }
                    }
                },
                None => {},
            }
            proof {
                lemma_flags_after_step(s, i as int, start, value);
            }
            i = i + 1;
        }
        Ok(())
    }

    /// Activates every ticked mod. On success the configuration is to be
    /// written out.
    pub fn enable_selected(&self, cfg: &mut beammm::game::ModCfg) -> (r: Result<
        Vec<Step>,
        UnknownMod,
    >)
        ensures
            match r {
                Ok(steps) => {
                    &&& selected_known(self@, active_flags(*old(cfg)))
                    &&& active_flags(*final(cfg)) == flags_after(
                        self@,
                        self@.len() as int,
                        active_flags(*old(cfg)),
                        true,
                    )
                    &&& steps@ == seq![Step::SaveConfig]
                },
                Err(e) => {
                    &&& is_first_unknown_selected(self@, active_flags(*old(cfg)), e.index as int)
                    &&& active_flags(*final(cfg)) == flags_after(
                        self@,
                        e.index as int,
                        active_flags(*old(cfg)),
                        true,
                    )
                },
            },
    {
        match self.set_selected_active(cfg, true) {
            Ok(()) => Ok(after_enabling()),
            Err(e) => Err(e),
        }
    }

    /// Deactivates every ticked mod. On success the enabled presets are to
    /// be applied again, which activates those of the mods that such a
    /// preset holds, and the configuration is to be written out.
    pub fn disable_selected(&self, cfg: &mut beammm::game::ModCfg) -> (r: Result<
        Vec<Step>,
        UnknownMod,
    >)
        ensures
            match r {
                Ok(steps) => {
                    &&& selected_known(self@, active_flags(*old(cfg)))
                    &&& active_flags(*final(cfg)) == flags_after(
                        self@,
                        self@.len() as int,
                        active_flags(*old(cfg)),
                        false,
                    )
                    &&& steps@ == seq![Step::ApplyPresets, Step::SaveConfig]
                },
                Err(e) => {
                    &&& is_first_unknown_selected(self@, active_flags(*old(cfg)), e.index as int)
                    &&& active_flags(*final(cfg)) == flags_after(
                        self@,
                        e.index as int,
                        active_flags(*old(cfg)),
                        false,
                    )
                },
            },
    {
        match self.set_selected_active(cfg, false) {
            Ok(()) => Ok(after_disabling()),
            Err(e) => Err(e),
        }
    }
}

impl ModList {
    /// Turns the flag of the mod at `i` round in the configuration. Where
    /// there is no such mod, or the configuration does not hold it,
    /// nothing changes. On success the configuration is to be written out.
    pub fn toggle_active(&self, i: usize, cfg: &mut beammm::game::ModCfg) -> (r: Result<
        Vec<Step>,
        UnknownMod,
    >)
        ensures
            match r {
                Ok(steps) => {
                    &&& i < self@.len()
                    &&& active_flags(*old(cfg)).contains_key(self@[i as int].name)
                    &&& active_flags(*final(cfg)) == active_flags(*old(cfg)).insert(
                        self@[i as int].name,
                        !active_flags(*old(cfg))[self@[i as int].name],
                    )
                    &&& steps@ == seq![Step::SaveConfig]
                },
                Err(e) => {
                    &&& e.index == i
                    &&& i >= self@.len() || !active_flags(*old(cfg)).contains_key(
                        self@[i as int].name,
                    )
                    &&& active_flags(*final(cfg)) == active_flags(*old(cfg))
                },
            },
    {
        match self.get(i) {
            None => Err(UnknownMod { index: i }),
            Some(record) => {
                match lookup_active(cfg, record.mod_name.as_str()) {
                    None => Err(UnknownMod { index: i }),
                    Some(is_on) => {
                        match store_active(cfg, record.mod_name.as_str(), !is_on) {
                            Ok(()) => Ok(after_enabling()),
                            Err(_) => Err(UnknownMod { index: i }),
                        }
                    },
                }
            },
        }
    }
}

/// Setting the flags of the ticked mods a second time changes nothing.
pub proof fn lemma_flags_after_idempotent(
    s: Seq<StagedModView>,
    active: Map<Seq<char>, bool>,
    value: bool,
)
    ensures
        flags_after(s, s.len() as int, flags_after(s, s.len() as int, active, value), value)
            == flags_after(s, s.len() as int, active, value),
{
    assert(flags_after(s, s.len() as int, flags_after(s, s.len() as int, active, value), value)
        =~= flags_after(s, s.len() as int, active, value));
}

} // verus!
