//! A preset as the `beammm` crate holds it: a named list of mods with a
//! switch.

use crate::config::active_flags;
use vstd::prelude::*;

verus! {

/// `beammm`'s `Preset`. Nothing inside it is seen from here; the names
/// below stand for its three fields.
#[verifier::external_type_specification]
#[verifier::external_body]
pub struct ExPreset(beammm::Preset);

/// The mods of a preset, in the order in which it lists them.
pub uninterp spec fn preset_mods(p: beammm::Preset) -> Seq<Seq<char>>;

/// Whether a preset is switched on.
pub uninterp spec fn preset_enabled(p: beammm::Preset) -> bool;

/// The name under which a preset is written out.
pub uninterp spec fn preset_name(p: beammm::Preset) -> Seq<char>;

/// The texts of a sequence, each as its characters.
pub open spec fn texts(v: Seq<String>) -> Seq<Seq<char>> {
    Seq::new(v.len(), |i: int| v[i]@)
}

/// The flags after every mod of `mods` was set to inactive.
pub open spec fn deactivated(active: Map<Seq<char>, bool>, mods: Seq<Seq<char>>) -> Map<
    Seq<char>,
    bool,
> {
    Map::new(
        |name: Seq<char>| active.contains_key(name),
        |name: Seq<char>|
            if mods.contains(name) {
                false
            } else {
                active[name]
            },
    )
}

/// The configuration holds every mod of `mods`.
pub open spec fn holds_all(active: Map<Seq<char>, bool>, mods: Seq<Seq<char>>) -> bool {
    forall|i: int| 0 <= i < mods.len() ==> active.contains_key(#[trigger] mods[i])
}

/// Calls `Preset::new`, which makes a preset of the given name and mods,
/// switched off.
#[verifier::external_body]
pub(crate) fn make_preset(name: String, mods: Vec<String>) -> (p: beammm::Preset)
    ensures
        preset_name(p) == name@,
        preset_mods(p) == texts(mods@),
        !preset_enabled(p),
{
    beammm::Preset::new(name, mods)
}

/// Calls `Preset::get_mods`, which hands out the list of mods.
#[verifier::external_body]
pub(crate) fn listed_mods(p: &beammm::Preset) -> (r: &Vec<String>)
    ensures
        texts(r@) == preset_mods(*p),
{
    p.get_mods()
}

/// Calls `Preset::is_enabled`, which hands out the switch.
#[verifier::external_body]
pub(crate) fn switched_on(p: &beammm::Preset) -> (r: bool)
    ensures
        r == preset_enabled(*p),
{
    p.is_enabled()
}

/// Calls `Preset::add_mod`, which puts the name at the end of the list,
/// whether or not the list holds it already.
#[verifier::external_body]
pub(crate) fn append_mod(p: &mut beammm::Preset, mod_name: &str)
    ensures
        preset_mods(*final(p)) == preset_mods(*old(p)).push(mod_name@),
        preset_enabled(*final(p)) == preset_enabled(*old(p)),
        preset_name(*final(p)) == preset_name(*old(p)),
{
    p.add_mod(mod_name)
}

/// Calls `Preset::remove_mods`, which keeps of the list the mods that are
/// not among the given ones, in their order.
#[verifier::external_body]
pub(crate) fn drop_mods(p: &mut beammm::Preset, mods: &Vec<String>)
    ensures
        preset_mods(*final(p)) == preset_mods(*old(p)).filter(
            |name: Seq<char>| !texts(mods@).contains(name),
        ),
        preset_enabled(*final(p)) == preset_enabled(*old(p)),
        preset_name(*final(p)) == preset_name(*old(p)),
{
    p.remove_mods(mods)
}

/// Calls `Preset::enable`, which sets the switch and nothing else.
#[verifier::external_body]
pub(crate) fn switch_on(p: &mut beammm::Preset)
    ensures
        preset_enabled(*final(p)),
        preset_mods(*final(p)) == preset_mods(*old(p)),
        preset_name(*final(p)) == preset_name(*old(p)),
{
    p.enable()
}

/// Calls `Preset::disable`. Where the configuration holds every mod of the
/// preset, it sets them all to inactive and clears the switch; where it
/// does not, it fails and changes neither the preset nor the configuration.
#[verifier::external_body]
pub(crate) fn switch_off(p: &mut beammm::Preset, cfg: &mut beammm::game::ModCfg) -> (r: Result<
    (),
    beammm::Error,
>)
    ensures
        r.is_ok() == holds_all(active_flags(*old(cfg)), preset_mods(*old(p))),
        preset_mods(*final(p)) == preset_mods(*old(p)),
        preset_name(*final(p)) == preset_name(*old(p)),
        r.is_ok() ==> !preset_enabled(*final(p)) && active_flags(*final(cfg)) == deactivated(
            active_flags(*old(cfg)),
            preset_mods(*old(p)),
        ),
        r.is_err() ==> preset_enabled(*final(p)) == preset_enabled(*old(p)) && active_flags(
            *final(cfg),
        ) == active_flags(*old(cfg)),
{
    p.disable(cfg)
}

} // verus!
