//! The game's mod configuration, as the `beammm` crate holds it: for each
//! installed mod whether the game loads it.

use vstd::prelude::*;

verus! {

/// `beammm`'s `ModCfg`, the game's mod configuration. Nothing inside it is
/// seen from here; [`active_flags`] names what it holds.
#[verifier::external_type_specification]
#[verifier::external_body]
pub struct ExModCfg(beammm::game::ModCfg);

/// `beammm`'s `Error`, carried from a failed call to the place where it is
/// turned into an error of this library.
#[verifier::external_type_specification]
#[verifier::external_body]
pub struct ExConfigError(beammm::Error);

/// What a configuration holds: the installed mods by name, each with its
/// active flag.
pub uninterp spec fn active_flags(cfg: beammm::game::ModCfg) -> Map<Seq<char>, bool>;

/// Calls `ModCfg::is_mod_active`, which looks the name up among the
/// installed mods and hands back that mod's flag, or nothing for a name it
/// does not hold.
#[verifier::external_body]
pub(crate) fn lookup_active(cfg: &beammm::game::ModCfg, name: &str) -> (r: Option<bool>)
    ensures
        r == (if active_flags(*cfg).contains_key(name@) {
            Some(active_flags(*cfg)[name@])
        } else {
            None
        }),
{
    cfg.is_mod_active(name)
}

/// Calls `ModCfg::set_mod_active`, which stores the flag for a mod that the
/// configuration holds and fails, changing nothing, for any other name.
#[verifier::external_body]
pub(crate) fn store_active(cfg: &mut beammm::game::ModCfg, name: &str, active: bool) -> (r: Result<
    (),
    beammm::Error,
>)
    ensures
        r.is_ok() == active_flags(*old(cfg)).contains_key(name@),
        r.is_ok() ==> active_flags(*final(cfg)) == active_flags(*old(cfg)).insert(name@, active),
        r.is_err() ==> active_flags(*final(cfg)) == active_flags(*old(cfg)),
{
    cfg.set_mod_active(name, active)
}

/// Calls `ModCfg::get_mods` and collects the names it walks through. Each
/// installed mod comes once; nothing is said of their order.
#[verifier::external_body]
pub(crate) fn installed_names(cfg: &beammm::game::ModCfg) -> (r: Vec<String>)
    ensures
        forall|i: int, j: int| 0 <= i < j < r.len() ==> r[i]@ != r[j]@,
        forall|i: int| 0 <= i < r.len() ==> active_flags(*cfg).contains_key(#[trigger] r[i]@),
        forall|name: Seq<char>| #[trigger]
            active_flags(*cfg).contains_key(name) ==> exists|i: int|
                0 <= i < r.len() && #[trigger] r[i]@ == name,
{
    cfg.get_mods().cloned().collect()
}

/// Whether the game loads the mod of that name; nothing for a name that the
/// configuration does not hold.
pub fn is_active(cfg: &beammm::game::ModCfg, name: &str) -> (r: Option<bool>)
    ensures
        r.is_some() == active_flags(*cfg).contains_key(name@),
        r.is_some() ==> r.unwrap() == active_flags(*cfg)[name@],
{
    lookup_active(cfg, name)
}

} // verus!
