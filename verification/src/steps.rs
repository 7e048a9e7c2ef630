//! What the caller has to write out after an action on the model.

use vstd::prelude::*;

verus! {

/// One thing to do on disk. The actions of the model change what is held in
/// memory and hand back the steps that carry the change to disk, in the
/// order in which they are to be taken. Where a step fails, those behind it
/// are not taken.
#[derive(Debug, Clone, Copy, PartialEq, Eq, Structural)]
pub enum Step {
    /// Write the file of the preset that the action was on.
    SavePreset,
    /// Remove the file of the preset that the action was on.
    DeletePreset,
    /// Let the configuration activate the mods of every enabled preset.
    ApplyPresets,
    /// Write the game's mod configuration.
    SaveConfig,
}

/// After mods were activated: the configuration is written once.
pub fn after_enabling() -> (r: Vec<Step>)
    ensures
        r@ == seq![Step::SaveConfig],
{
    let mut r: Vec<Step> = Vec::new();
    r.push(Step::SaveConfig);
    r
}

/// After mods were deactivated: the enabled presets are applied again, then
/// the configuration is written once.
pub fn after_disabling() -> (r: Vec<Step>)
    ensures
        r@ == seq![Step::ApplyPresets, Step::SaveConfig],
{
    let mut r: Vec<Step> = Vec::new();
    r.push(Step::ApplyPresets);
    r.push(Step::SaveConfig);
    r
}

/// After a preset was switched on or off: its file is written, the enabled
/// presets are applied, and the configuration is written.
pub fn after_switching() -> (r: Vec<Step>)
    ensures
        r@ == seq![Step::SavePreset, Step::ApplyPresets, Step::SaveConfig],
{
    let mut r: Vec<Step> = Vec::new();
    r.push(Step::SavePreset);
    r.push(Step::ApplyPresets);
    r.push(Step::SaveConfig);
    r
}

/// After mods were added to a preset: its file is written, then the enabled
/// presets are applied.
pub fn after_adding() -> (r: Vec<Step>)
    ensures
        r@ == seq![Step::SavePreset, Step::ApplyPresets],
{
    let mut r: Vec<Step> = Vec::new();
    r.push(Step::SavePreset);
    r.push(Step::ApplyPresets);
    r
}

/// After a preset was made or its members were changed: its file is
/// written.
pub fn after_editing() -> (r: Vec<Step>)
    ensures
        r@ == seq![Step::SavePreset],
{
    let mut r: Vec<Step> = Vec::new();
    r.push(Step::SavePreset);
    r
}

/// After a preset was dropped from the list: its file is removed.
pub fn after_deleting() -> (r: Vec<Step>)
    ensures
        r@ == seq![Step::DeletePreset],
{
    let mut r: Vec<Step> = Vec::new();
    r.push(Step::DeletePreset);
    r
}

} // verus!
