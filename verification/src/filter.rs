//! Which mods the filters let through.

use crate::criteria::{Criteria, CriteriaView};
use crate::record::{field_text, StagedMod, StagedModView};
use crate::text::{contains_ignoring_case, occurs_ignoring_case, text_eq, text_or_empty};
use vstd::prelude::*;

verus! {

/// The status filter: with `active only` set an active mod passes, with
/// `inactive only` set an inactive one, with neither set every mod.
pub open spec fn status_passes(c: CriteriaView, active: bool) -> bool {
    if c.active_only {
        active
    } else if c.inactive_only {
        !active
    } else {
        true
    }
}

/// The type filter: the mod's type is the one asked for, an absent type
/// counting as the empty text; an empty filter lets every mod pass.
pub open spec fn type_passes(c: CriteriaView, m: StagedModView) -> bool {
    c.mod_type.len() == 0 || text_or_empty(m.mod_type) == c.mod_type
}

/// The mod passes the filters on name, full path, type and status. `active`
/// says whether the game loads it.
pub open spec fn matches_filters(c: CriteriaView, m: StagedModView, active: bool) -> bool {
    &&& occurs_ignoring_case(c.query, m.name)
    &&& occurs_ignoring_case(c.fullpath, text_or_empty(m.fullpath))
    &&& type_passes(c, m)
    &&& status_passes(c, active)
}

/// The mod is shown: it passes the filters, and is ticked where only ticked
/// mods are asked for.
pub open spec fn is_visible(c: CriteriaView, m: StagedModView, active: bool) -> bool {
    matches_filters(c, m, active) && (c.selected_only ==> m.selected)
}

/// Whether a mod passes the filters on name, full path, type and status.
pub fn passes_filters(c: &Criteria, m: &StagedMod, active: bool) -> (r: bool)
    ensures
        r == matches_filters(c@, m@, active),
{
    let text_matches = contains_ignoring_case(m.mod_name.as_str(), c.query());
    let fullpath_matches = contains_ignoring_case(field_text(&m.fullpath), c.fullpath_filter());
    let wanted = c.mod_type_filter();
    let type_matches = if wanted.is_empty() {
        true
    } else {
        text_eq(field_text(&m.mod_type), wanted)
    };
    let status_matches = if c.active_only() {
        active
    } else if c.inactive_only() {
        !active
    } else {
        true
    };
    text_matches && fullpath_matches && type_matches && status_matches
}

/// Whether a mod is shown.
pub fn passes(c: &Criteria, m: &StagedMod, active: bool) -> (r: bool)
    ensures
        r == is_visible(c@, m@, active),
{
    let selected_matches = if c.selected_only() {
        m.selected
    } else {
        true
    };
    passes_filters(c, m, active) && selected_matches
}

/// With no filter set every mod is shown.
pub proof fn lemma_no_filter_shows_all(c: CriteriaView, m: StagedModView, active: bool)
    requires
        c.query.len() == 0,
        c.fullpath.len() == 0,
        c.mod_type.len() == 0,
        !c.active_only,
        !c.inactive_only,
        !c.selected_only,
    ensures
        is_visible(c, m, active),
{
}

} // verus!
