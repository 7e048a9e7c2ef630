//! One installed mod as the window shows it: its name, what is known of its
//! file, and whether the user has ticked it.

use crate::text::text_or_empty;
use vstd::prelude::*;

verus! {

/// A mod of the list. The name identifies it; the other fields come from
/// the game's metadata and are absent where that says nothing.
#[derive(Debug)]
pub struct StagedMod {
    pub mod_name: String,
    pub selected: bool,
    pub createtime: Option<i64>,
    pub filename: Option<String>,
    pub fullpath: Option<String>,
    pub mod_type: Option<String>,
}

/// A mod with its texts as sequences of characters.
pub struct StagedModView {
    pub name: Seq<char>,
    pub selected: bool,
    pub createtime: Option<i64>,
    pub filename: Option<Seq<char>>,
    pub fullpath: Option<Seq<char>>,
    pub mod_type: Option<Seq<char>>,
}

/// The characters of an optional text.
pub open spec fn text_view(field: Option<String>) -> Option<Seq<char>> {
    match field {
        Some(s) => Some(s@),
        None => None,
    }
}

impl View for StagedMod {
    type V = StagedModView;

    open spec fn view(&self) -> StagedModView {
        StagedModView {
            name: self.mod_name@,
            selected: self.selected,
            createtime: self.createtime,
            filename: text_view(self.filename),
            fullpath: text_view(self.fullpath),
            mod_type: text_view(self.mod_type),
        }
    }
}

/// The mods of a sequence, each by its view.
pub open spec fn views(s: Seq<StagedMod>) -> Seq<StagedModView> {
    Seq::new(s.len(), |i: int| s[i]@)
}

/// The same mod with its tick set to `selected`.
pub open spec fn with_selected(m: StagedModView, selected: bool) -> StagedModView {
    StagedModView { selected, ..m }
}

/// The text of an optional field, empty where the field is absent.
pub fn field_text(field: &Option<String>) -> (r: &str)
    ensures
        r@ == text_or_empty(text_view(*field)),
{
    match field {
        Some(s) => s.as_str(),
        None => {
            proof {
                reveal_strlit("");
                assert(""@ =~= Seq::<char>::empty());
            }
            ""
        },
    }
}

impl StagedMod {
    /// A mod of which only the name is known, not ticked.
    pub fn new(mod_name: String) -> (r: StagedMod)
        ensures
            r@ == (StagedModView {
                name: mod_name@,
                selected: false,
                createtime: None,
                filename: None,
                fullpath: None,
                mod_type: None,
            }),
    {
        StagedMod {
            mod_name,
            selected: false,
            createtime: None,
            filename: None,
            fullpath: None,
            mod_type: None,
        }
    }
}

} // verus!
