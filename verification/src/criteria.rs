//! What the user has asked to see: the filters, the sort key and its
//! direction.

use vstd::prelude::*;

verus! {

/// The column by which the list is sorted.
#[derive(Debug, Clone, Copy, PartialEq, Eq, Structural)]
pub enum SortOption {
    Name,
    Status,
    Selection,
    Date,
    Filename,
    Fullpath,
    ModType,
}

/// The filters and the sort order of the list.
///
/// Of `active only` and `inactive only` at most one is set. `needs_sort`
/// records that the sort order was changed since the list was last sorted.
#[derive(Debug)]
pub struct Criteria {
    query: String,
    fullpath_filter: String,
    mod_type_filter: String,
    active_only: bool,
    inactive_only: bool,
    selected_only: bool,
    sort_option: SortOption,
    sort_ascending: bool,
    needs_sort: bool,
    advanced_open: bool,
}

/// The criteria with their texts as sequences of characters.
pub struct CriteriaView {
    pub query: Seq<char>,
    pub fullpath: Seq<char>,
    pub mod_type: Seq<char>,
    pub active_only: bool,
    pub inactive_only: bool,
    pub selected_only: bool,
    pub sort_option: SortOption,
    pub sort_ascending: bool,
    pub needs_sort: bool,
    pub advanced_open: bool,
}

impl CriteriaView {
    /// At most one of the two status filters is set.
    pub open spec fn wf(self) -> bool {
        !(self.active_only && self.inactive_only)
    }

    /// A click on `active only`: it changes, and `inactive only` is cleared.
    pub open spec fn toggle_active_only(self) -> CriteriaView {
        CriteriaView { active_only: !self.active_only, inactive_only: false, ..self }
    }

    /// A click on `inactive only`: it changes, and `active only` is cleared.
    pub open spec fn toggle_inactive_only(self) -> CriteriaView {
        CriteriaView { inactive_only: !self.inactive_only, active_only: false, ..self }
    }

    /// A click on `selected only`.
    pub open spec fn toggle_selected_only(self) -> CriteriaView {
        CriteriaView { selected_only: !self.selected_only, ..self }
    }

    /// A click on a sort key: it becomes the key, and the list is due for a
    /// sort.
    pub open spec fn choose_sort(self, option: SortOption) -> CriteriaView {
        CriteriaView { sort_option: option, needs_sort: true, ..self }
    }

    /// A click on the direction: it turns, and the list is due for a sort.
    pub open spec fn toggle_direction(self) -> CriteriaView {
        CriteriaView { sort_ascending: !self.sort_ascending, needs_sort: true, ..self }
    }

    /// The state after the list was sorted.
    pub open spec fn sorted(self) -> CriteriaView {
        CriteriaView { needs_sort: false, ..self }
    }
}

impl View for Criteria {
    type V = CriteriaView;

    closed spec fn view(&self) -> CriteriaView {
        CriteriaView {
            query: self.query@,
            fullpath: self.fullpath_filter@,
            mod_type: self.mod_type_filter@,
            active_only: self.active_only,
            inactive_only: self.inactive_only,
            selected_only: self.selected_only,
            sort_option: self.sort_option,
            sort_ascending: self.sort_ascending,
            needs_sort: self.needs_sort,
            advanced_open: self.advanced_open,
        }
    }
}

impl Criteria {
    /// No filter, sorted by name upwards, a first sort due. `advanced_open`
    /// says whether the advanced filters are shown.
    pub fn new(advanced_open: bool) -> (r: Criteria)
        ensures
            r@ == (CriteriaView {
                query: Seq::empty(),
                fullpath: Seq::empty(),
                mod_type: Seq::empty(),
                active_only: false,
                inactive_only: false,
                selected_only: false,
                sort_option: SortOption::Name,
                sort_ascending: true,
                needs_sort: true,
                advanced_open,
            }),
            r@.wf(),
    {
        Criteria {
            query: String::new(),
            fullpath_filter: String::new(),
            mod_type_filter: String::new(),
            active_only: false,
            inactive_only: false,
            selected_only: false,
            sort_option: SortOption::Name,
            sort_ascending: true,
            needs_sort: true,
            advanced_open,
        }
    }

    /// The text searched for in the names.
    pub fn query(&self) -> (r: &str)
        ensures
            r@ == self@.query,
    {
        self.query.as_str()
    }

    /// The text searched for in the full paths.
    pub fn fullpath_filter(&self) -> (r: &str)
        ensures
            r@ == self@.fullpath,
    {
        self.fullpath_filter.as_str()
    }

    /// The type asked for; empty for every type.
    pub fn mod_type_filter(&self) -> (r: &str)
        ensures
            r@ == self@.mod_type,
    {
        self.mod_type_filter.as_str()
    }

    /// Whether only active mods are shown. Every value of this type keeps
    /// the two status filters apart.
    pub fn active_only(&self) -> (r: bool)
        ensures
            r == self@.active_only,
            self@.wf(),
    {
        proof {
            use_type_invariant(self);
        }
        self.active_only
    }

    /// Whether only inactive mods are shown.
    pub fn inactive_only(&self) -> (r: bool)
        ensures
            r == self@.inactive_only,
            self@.wf(),
    {
        proof {
            use_type_invariant(self);
        }
        self.inactive_only
    }

    /// Whether only ticked mods are shown.
    pub fn selected_only(&self) -> (r: bool)
        ensures
            r == self@.selected_only,
    {
        self.selected_only
    }

    /// The key by which the list is sorted.
    pub fn sort_option(&self) -> (r: SortOption)
        ensures
            r == self@.sort_option,
    {
        self.sort_option
    }

    /// Whether the list is sorted upwards.
    pub fn sort_ascending(&self) -> (r: bool)
        ensures
            r == self@.sort_ascending,
    {
        self.sort_ascending
    }

    /// Whether the sort order was changed since the list was last sorted.
    pub fn needs_sort(&self) -> (r: bool)
        ensures
            r == self@.needs_sort,
    {
        self.needs_sort
    }

    /// Whether the advanced filters are shown.
    pub fn advanced_open(&self) -> (r: bool)
        ensures
            r == self@.advanced_open,
    {
        self.advanced_open
    }

    /// Replaces the text searched for in the names.
    pub fn set_query(&mut self, query: String)
        ensures
            final(self)@ == (CriteriaView { query: query@, ..old(self)@ }),
    {
        proof {
            use_type_invariant(&*self);
        }
        self.query = query;
    }

    /// Replaces the text searched for in the full paths.
    pub fn set_fullpath_filter(&mut self, fullpath: String)
        ensures
            final(self)@ == (CriteriaView { fullpath: fullpath@, ..old(self)@ }),
    {
        proof {
            use_type_invariant(&*self);
        }
        self.fullpath_filter = fullpath;
    }

    /// Replaces the type asked for.
    pub fn set_mod_type_filter(&mut self, mod_type: String)
        ensures
            final(self)@ == (CriteriaView { mod_type: mod_type@, ..old(self)@ }),
    {
        proof {
            use_type_invariant(&*self);
        }
        self.mod_type_filter = mod_type;
    }

    /// A click on `active only`.
    pub fn toggle_active_only(&mut self)
        ensures
            final(self)@ == old(self)@.toggle_active_only(),
            final(self)@.wf(),
    {
        proof {
            use_type_invariant(&*self);
        }
        self.inactive_only = false;
        self.active_only = !self.active_only;
    }

    /// A click on `inactive only`.
    pub fn toggle_inactive_only(&mut self)
        ensures
            final(self)@ == old(self)@.toggle_inactive_only(),
            final(self)@.wf(),
    {
        proof {
            use_type_invariant(&*self);
        }
        self.active_only = false;
        self.inactive_only = !self.inactive_only;
    }

    /// A click on `selected only`.
    pub fn toggle_selected_only(&mut self)
        ensures
            final(self)@ == old(self)@.toggle_selected_only(),
    {
        proof {
            use_type_invariant(&*self);
        }
        self.selected_only = !self.selected_only;
    }

    /// A click on a sort key.
    pub fn choose_sort(&mut self, option: SortOption)
        ensures
            final(self)@ == old(self)@.choose_sort(option),
    {
        proof {
            use_type_invariant(&*self);
        }
        self.sort_option = option;
        self.needs_sort = true;
    }

    /// A click on the sort direction.
    pub fn toggle_direction(&mut self)
        ensures
            final(self)@ == old(self)@.toggle_direction(),
    {
        proof {
            use_type_invariant(&*self);
        }
        self.sort_ascending = !self.sort_ascending;
        self.needs_sort = true;
    }

    /// Notes that the list was sorted by the current key and direction.
    pub fn mark_sorted(&mut self)
        ensures
            final(self)@ == old(self)@.sorted(),
    {
        proof {
            use_type_invariant(&*self);
        }
        self.needs_sort = false;
    }

    /// Notes whether the advanced filters are shown, and says whether that
    /// is news, in which case the preference is to be written out.
    pub fn note_advanced_open(&mut self, open: bool) -> (changed: bool)
        ensures
            changed == (open != old(self)@.advanced_open),
            final(self)@ == (CriteriaView { advanced_open: open, ..old(self)@ }),
    {
        proof {
            use_type_invariant(&*self);
        }
        let changed = open != self.advanced_open;
        self.advanced_open = open;
        changed
    }

    #[verifier::type_invariant]
    closed spec fn inv(&self) -> bool {
        !(self.active_only && self.inactive_only)
    }
}

/// Switching `active only` on and then clicking `inactive only` leaves
/// `inactive only` set and `active only` cleared: exactly one of the two.
pub proof fn lemma_status_filters_exclusive(c: CriteriaView)
    requires
        !c.active_only,
    ensures
        c.toggle_active_only().active_only && !c.toggle_active_only().inactive_only,
        c.toggle_active_only().toggle_inactive_only().inactive_only,
        !c.toggle_active_only().toggle_inactive_only().active_only,
{
}

/// Whichever of the two status filters is clicked, and in whatever state,
/// the two are not both set afterwards.
pub proof fn lemma_status_filters_never_both(c: CriteriaView)
    ensures
        c.toggle_active_only().wf(),
        c.toggle_inactive_only().wf(),
{
}

} // verus!
