//! The list of installed mods: how it is sorted, which of its mods pass the
//! filters, and how they are ticked.

use crate::compare::{
    compare_records, lemma_record_order_is_order, lemma_text_order_laws, natural_order,
    record_order,
};
use crate::config::{active_flags, lookup_active};
use crate::criteria::{Criteria, CriteriaView, SortOption};
use crate::filter::{is_visible, matches_filters, passes, passes_filters};
use crate::record::{views, with_selected, StagedMod, StagedModView};
use crate::sorting::{flip, lemma_move_step, lemma_reversed_sort, no_ties, stable_sort_of};
use crate::text::{text_eq, Order};
use vstd::prelude::*;

verus! {

/// Every mod of `s` is held by the configuration whose flags are `active`.
pub open spec fn all_known(s: Seq<StagedModView>, active: Map<Seq<char>, bool>) -> bool {
    forall|i: int| 0 <= i < s.len() ==> active.contains_key(#[trigger] s[i].name)
}

/// Moving one mod to another place leaves every mod known.
proof fn lemma_moved_known(s: Seq<StagedModView>, i: int, p: int, active: Map<Seq<char>, bool>)
    requires
        0 <= p <= i < s.len(),
        all_known(s, active),
    ensures
        all_known(s.remove(i).insert(p, s[i]), active),
{
    let after = s.remove(i).insert(p, s[i]);
    assert forall|k: int| 0 <= k < after.len() implies active.contains_key(
        #[trigger] after[k].name,
    ) by {
        if k < p {
            assert(after[k] == s[k]);
        } else if k == p {
            assert(after[k] == s[i]);
        } else if k <= i {
            assert(after[k] == s[k - 1]);
        } else {
            assert(after[k] == s[k]);
        }
    }
}

/// Whether the mod at `k` is greater than the mod at `i` under the sort
/// order.
fn is_greater(
    records: &Vec<StagedMod>,
    k: usize,
    i: usize,
    option: SortOption,
    ascending: bool,
    cfg: &beammm::game::ModCfg,
) -> (r: bool)
    requires
        k < records.len(),
        i < records.len(),
        option == SortOption::Status ==> all_known(views(records@), active_flags(*cfg)),
    ensures
        r == (record_order(option, ascending, active_flags(*cfg))(records@[k as int]@, records@[i as int]@)
            == Order::Greater),
{
    assert(views(records@)[k as int].name == records@[k as int]@.name);
    assert(views(records@)[i as int].name == records@[i as int]@.name);
    let c = compare_records(option, ascending, cfg, &records[k], &records[i]);
    match c {
        Order::Greater => true,
        _ => false,
    }
}

/// Sorts the mods by a key and a direction. Mods that tie keep the order
/// they had. Where the key is the status, the configuration has to hold
/// every mod.
pub fn sort_records(
    records: &mut Vec<StagedMod>,
    option: SortOption,
    ascending: bool,
    cfg: &beammm::game::ModCfg,
)
    requires
        option == SortOption::Status ==> all_known(views(old(records)@), active_flags(*cfg)),
    ensures
        stable_sort_of(
            views(final(records)@),
            views(old(records)@),
            record_order(option, ascending, active_flags(*cfg)),
        ),
        views(final(records)@).to_multiset() == views(old(records)@).to_multiset(),
        final(records)@.len() == old(records)@.len(),
{
    let ghost ord = record_order(option, ascending, active_flags(*cfg));
    let ghost start = views(records@);
    let n = records.len();
    let mut i: usize = 0;
    proof {
        assert(start.take(0) =~= Seq::<StagedModView>::empty());
    }
    while i < n
        invariant
            i <= n,
            records.len() == n,
            start.len() == n,
            ord == record_order(option, ascending, active_flags(*cfg)),
            views(records@).skip(i as int) == start.skip(i as int),
            stable_sort_of(views(records@).take(i as int), start.take(i as int), ord),
            views(records@).to_multiset() == start.to_multiset(),
            option == SortOption::Status ==> all_known(views(records@), active_flags(*cfg)),
        decreases n - i,
    {
        let ghost before = views(records@);
        let ghost sorted = before.take(i as int);
        let ghost x = before[i as int];
        let mut p: usize = i;
        while p > 0 && is_greater(records, p - 1, i, option, ascending, cfg)
            invariant
                p <= i,
                i < records.len(),
                before == views(records@),
                x == before[i as int],
                option == SortOption::Status ==> all_known(views(records@), active_flags(*cfg)),
                ord == record_order(option, ascending, active_flags(*cfg)),
                forall|k: int| p <= k < i ==> ord(#[trigger] before[k], x) == Order::Greater,
            decreases p,
        {
            p = p - 1;
        }
        let moved = records.remove(i);
        records.insert(p, moved);
        proof {
            let after = views(records@);
            assert(after =~= before.remove(i as int).insert(p as int, x));
            assert(stable_sort_of(after.take(i + 1), start.take(i + 1), ord) && after.skip(i + 1)
                == start.skip(i + 1) && after.to_multiset() == start.to_multiset()) by {
                lemma_record_order_is_order(option, ascending, active_flags(*cfg));
                lemma_move_step(before, start, i as int, p as int, ord);
            }
            if option == SortOption::Status {
                lemma_moved_known(before, i as int, p as int, active_flags(*cfg));
            }
        }
        i = i + 1;
    }
    proof {
        assert(views(records@).take(n as int) =~= views(records@));
        assert(start.take(n as int) =~= start);
    }
}

/// No two mods of `s` share a name.
pub open spec fn distinct_names(s: Seq<StagedModView>) -> bool {
    forall|i: int, j: int| 0 <= i < j < s.len() ==> s[i].name != s[j].name
}

/// The mod at `i` is the first that the configuration does not hold.
pub open spec fn is_first_unknown(
    s: Seq<StagedModView>,
    active: Map<Seq<char>, bool>,
    i: int,
) -> bool {
    &&& 0 <= i < s.len()
    &&& !active.contains_key(s[i].name)
    &&& forall|k: int| 0 <= k < i ==> active.contains_key(#[trigger] s[k].name)
}

/// A mod of the list is not among those that the configuration holds.
#[derive(Debug, Clone, Copy, PartialEq, Eq, Structural)]
pub struct UnknownMod {
    /// Where the mod stands in the list.
    pub index: usize,
}

/// The mod at `i` is shown under the criteria `c`.
pub open spec fn visible_at(
    s: Seq<StagedModView>,
    c: CriteriaView,
    active: Map<Seq<char>, bool>,
    i: int,
) -> bool {
    is_visible(c, s[i], active[s[i].name])
}

/// The places below `n` whose mods are shown, in rising order.
pub open spec fn visible_below(
    s: Seq<StagedModView>,
    c: CriteriaView,
    active: Map<Seq<char>, bool>,
    n: nat,
) -> Seq<int> {
    Seq::new(n, |i: int| i).filter(|i: int| visible_at(s, c, active, i))
}

/// The places of the mods that are shown, in the order of the list.
pub open spec fn visible_indices(
    s: Seq<StagedModView>,
    c: CriteriaView,
    active: Map<Seq<char>, bool>,
) -> Seq<int> {
    visible_below(s, c, active, s.len())
}

/// The places of a vector as integers.
pub open spec fn places(v: Seq<usize>) -> Seq<int> {
    v.map_values(|i: usize| i as int)
}

/// The list after every mod that passes the filters on name, full path,
/// type and status was ticked. Whether a mod is ticked already plays no
/// part.
pub open spec fn select_matching(
    s: Seq<StagedModView>,
    c: CriteriaView,
    active: Map<Seq<char>, bool>,
) -> Seq<StagedModView> {
    Seq::new(
        s.len(),
        |i: int|
            if matches_filters(c, s[i], active[s[i].name]) {
                with_selected(s[i], true)
            } else {
                s[i]
            },
    )
}

/// The list with no mod ticked.
pub open spec fn deselect_every(s: Seq<StagedModView>) -> Seq<StagedModView> {
    Seq::new(s.len(), |i: int| with_selected(s[i], false))
}

/// A list that holds the same mods as one without shared names has no
/// shared names either.
pub proof fn lemma_permuted_distinct(a: Seq<StagedModView>, b: Seq<StagedModView>)
    requires
        a.to_multiset() == b.to_multiset(),
        distinct_names(b),
    ensures
        distinct_names(a),
{
    assert(b.no_duplicates());
    b.lemma_multiset_has_no_duplicates();
    a.lemma_multiset_has_no_duplicates_conv();
    assert forall|i: int, j: int| 0 <= i < j < a.len() implies a[i].name != a[j].name by {
        if a[i].name == a[j].name {
            vstd::seq_lib::to_multiset_contains(a, a[i]);
            vstd::seq_lib::to_multiset_contains(a, a[j]);
            vstd::seq_lib::to_multiset_contains(b, a[i]);
            vstd::seq_lib::to_multiset_contains(b, a[j]);
            assert(a.contains(a[i]));
            assert(a.contains(a[j]));
            let x = choose|x: int| 0 <= x < b.len() && b[x] == a[i];
            let y = choose|y: int| 0 <= y < b.len() && b[y] == a[j];
            assert(x != y);
        }
    }
}

/// The places that are shown lie in the list, rise, are those of mods that
/// the criteria let through, and leave out no such mod: the shown mods are
/// a part of the list, in the list's order.
pub proof fn lemma_visible_below(
    s: Seq<StagedModView>,
    c: CriteriaView,
    active: Map<Seq<char>, bool>,
    n: nat,
)
    ensures
        forall|k: int|
            0 <= k < visible_below(s, c, active, n).len() ==> 0 <= #[trigger] visible_below(
                s,
                c,
                active,
                n,
            )[k] < n && visible_at(s, c, active, visible_below(s, c, active, n)[k]),
        forall|k: int, l: int|
            0 <= k < l < visible_below(s, c, active, n).len() ==> visible_below(s, c, active, n)[k]
                < visible_below(s, c, active, n)[l],
        forall|i: int|
            0 <= i < n && visible_at(s, c, active, i) ==> visible_below(s, c, active, n).contains(
                i,
            ),
    decreases n,
{
    let pred = |i: int| visible_at(s, c, active, i);
    let v = visible_below(s, c, active, n);
    if n == 0 {
        Seq::new(n, |i: int| i).lemma_filter_len(pred);
    } else {
        let m = (n - 1) as nat;
        let w = visible_below(s, c, active, m);
        lemma_visible_below(s, c, active, m);
        assert(Seq::new(n, |i: int| i) =~= Seq::new(m, |i: int| i).push(m as int));
        Seq::new(m, |i: int| i).lemma_filter_push(m as int, pred);
        if pred(m as int) {
            assert(v == w.push(m as int));
            assert forall|i: int| 0 <= i < n && visible_at(s, c, active, i) implies v.contains(
                i,
            ) by {
                if i < m {
                    let k = choose|k: int| 0 <= k < w.len() && w[k] == i;
                    assert(v[k] == i);
                } else {
                    assert(v[w.len() as int] == i);
                }
            }
        } else {
            assert(v == w);
        }
    }
}

/// The list of installed mods. No two of its mods share a name.
pub struct ModList {
    records: Vec<StagedMod>,
}

impl View for ModList {
    type V = Seq<StagedModView>;

    closed spec fn view(&self) -> Seq<StagedModView> {
        views(self.records@)
    }
}

impl ModList {
    #[verifier::type_invariant]
    closed spec fn inv(&self) -> bool {
        distinct_names(views(self.records@))
    }

    /// The empty list.
    pub fn new() -> (r: ModList)
        ensures
            r@.len() == 0,
    {
        ModList { records: Vec::new() }
    }

    /// The number of mods. No two of them share a name.
    pub fn len(&self) -> (n: usize)
        ensures
            n == self@.len(),
            distinct_names(self@),
    {
        proof {
            use_type_invariant(self);
        }
        self.records.len()
    }

    /// The mod at `i`, if the list is that long.
    pub fn get(&self, i: usize) -> (r: Option<&StagedMod>)
        ensures
            r.is_some() == (i < self@.len()),
            r.is_some() ==> r.unwrap()@ == self@[i as int],
    {
        if i < self.records.len() {
            Some(&self.records[i])
        } else {
            None
        }
    }

    /// Ticks or unticks the mod at `i`. Says whether there is such a mod;
    /// where there is none, nothing changes.
    pub fn set_selected(&mut self, i: usize, selected: bool) -> (done: bool)
        ensures
            done == (i < old(self)@.len()),
            done ==> final(self)@ == old(self)@.update(
                i as int,
                with_selected(old(self)@[i as int], selected),
            ),
            !done ==> final(self)@ == old(self)@,
    {
        proof {
            use_type_invariant(&*self);
        }
        if i < self.records.len() {
            let ghost before = views(self.records@);
            let mut records: Vec<StagedMod> = Vec::new();
            std::mem::swap(&mut self.records, &mut records);
            records[i].selected = selected;
            proof {
                assert(views(records@) =~= before.update(
                    i as int,
                    with_selected(before[i as int], selected),
                ));
            }
            self.records = records;
            true
        } else {
            false
        }
    }
}

impl ModList {
    /// The list of the given mods, unless two of them share a name.
    pub fn from_records(records: Vec<StagedMod>) -> (r: Option<ModList>)
        ensures
            r.is_some() == distinct_names(views(records@)),
            r.is_some() ==> r.unwrap()@ == views(records@),
    {
        let n = records.len();
        let mut j: usize = 0;
        while j < n
            invariant
                j <= n,
                n == records.len(),
                forall|a: int, b: int| 0 <= a < b < j ==> views(records@)[a].name != views(records@)[b].name,
            decreases n - j,
        {
            let mut i: usize = 0;
            while i < j
                invariant
                    i <= j,
                    j < n,
                    n == records.len(),
                    forall|a: int| 0 <= a < i ==> views(records@)[a].name != views(records@)[j as int].name,
                decreases j - i,
            {
                if text_eq(records[i].mod_name.as_str(), records[j].mod_name.as_str()) {
                    assert(views(records@)[i as int].name == views(records@)[j as int].name);
                    return None;
                }
                i = i + 1;
            }
            j = j + 1;
        }
        Some(ModList { records })
    }

    /// The place of the first mod that the configuration does not hold, if
    /// there is one.
    pub fn first_unknown(&self, cfg: &beammm::game::ModCfg) -> (r: Option<usize>)
        ensures
            match r {
                Some(i) => is_first_unknown(self@, active_flags(*cfg), i as int),
                None => all_known(self@, active_flags(*cfg)),
            },
    {
        let n = self.records.len();
        let mut i: usize = 0;
        while i < n
            invariant
                i <= n,
                n == self.records.len(),
                forall|k: int|
                    0 <= k < i ==> active_flags(*cfg).contains_key(
                        #[trigger] views(self.records@)[k].name,
                    ),
            decreases n - i,
        {
            if lookup_active(cfg, self.records[i].mod_name.as_str()).is_none() {
                return Some(i);
            }
            i = i + 1;
        }
        None
    }

    /// The places of the mods that are shown under the criteria, in the
    /// order of the list. The status of every mod is read from the
    /// configuration: where that does not hold one of them, nothing is
    /// shown and the first such mod is named.
    pub fn visible_order(&self, c: &Criteria, cfg: &beammm::game::ModCfg) -> (r: Result<
        Vec<usize>,
        UnknownMod,
    >)
        ensures
            match r {
                Ok(order) => {
                    &&& all_known(self@, active_flags(*cfg))
                    &&& places(order@) == visible_indices(self@, c@, active_flags(*cfg))
                    &&& forall|k: int|
                        0 <= k < order@.len() ==> (#[trigger] order@[k]) < self@.len() && is_visible(
                            c@,
                            self@[order@[k] as int],
                            active_flags(*cfg)[self@[order@[k] as int].name],
                        )
                    &&& forall|k: int, l: int| 0 <= k < l < order@.len() ==> order@[k] < order@[l]
                    &&& order@.len() <= self@.len()
                },
                Err(e) => is_first_unknown(self@, active_flags(*cfg), e.index as int),
            },
    {
        match self.first_unknown(cfg) {
            Some(index) => Err(UnknownMod { index }),
            None => {
                let ghost s = self@;
                let ghost active = active_flags(*cfg);
                let n = self.records.len();
                let mut order: Vec<usize> = Vec::new();
                let mut i: usize = 0;
                proof {
                    Seq::new(0, |i: int| i).lemma_filter_len(
                        |i: int| visible_at(s, c@, active, i),
                    );
                    assert(places(order@) =~= visible_below(s, c@, active, 0));
                }
                while i < n
                    invariant
                        i <= n,
                        n == self.records.len(),
                        s == views(self.records@),
                        active == active_flags(*cfg),
                        all_known(s, active),
                        places(order@) == visible_below(s, c@, active, i as nat),
                    decreases n - i,
                {
                    let record = &self.records[i];
                    assert(s[i as int] == record@);
                    let is_on = match lookup_active(cfg, record.mod_name.as_str()) {
                        Some(v) => v,
                        None => false,
                    };
                    let ghost shown = order@;
                    let show = passes(c, record, is_on);
                    if show {
                        order.push(i);
                    }
                    proof {
                        let pred = |k: int| visible_at(s, c@, active, k);
                        assert(Seq::new((i + 1) as nat, |k: int| k) =~= Seq::new(
                            i as nat,
                            |k: int| k,
                        ).push(i as int));
                        Seq::new(i as nat, |k: int| k).lemma_filter_push(i as int, pred);
                        assert(show == pred(i as int));
                        if show {
                            assert(places(order@) =~= places(shown).push(i as int));
                        }
                    }
                    i = i + 1;
                }
                proof {
                    lemma_visible_below(s, c@, active, n as nat);
                    assert forall|k: int| 0 <= k < order@.len() implies (#[trigger] order@[k])
                        < s.len() && is_visible(
                        c@,
                        s[order@[k] as int],
                        active[s[order@[k] as int].name],
                    ) by {
                        assert(places(order@)[k] == order@[k] as int);
                    }
                    assert forall|k: int, l: int| 0 <= k < l < order@.len() implies order@[k]
                        < order@[l] by {
                        assert(places(order@)[k] == order@[k] as int);
                        assert(places(order@)[l] == order@[l] as int);
                    }
                    Seq::new(n as nat, |i: int| i).lemma_filter_len(
                        |i: int| visible_at(s, c@, active, i),
                    );
                    assert(places(order@).len() == order@.len());
                }
                Ok(order)
            },
        }
    }

    /// Ticks every mod that passes the filters on name, full path, type and
    /// status; the filter on ticked mods plays no part. Where the
    /// configuration does not hold one of the mods, nothing is ticked and
    /// the first such mod is named.
    pub fn select_visible(&mut self, c: &Criteria, cfg: &beammm::game::ModCfg) -> (r: Result<
        (),
        UnknownMod,
    >)
        ensures
            match r {
                Ok(()) => all_known(old(self)@, active_flags(*cfg)) && final(self)@
                    == select_matching(old(self)@, c@, active_flags(*cfg)),
                Err(e) => is_first_unknown(old(self)@, active_flags(*cfg), e.index as int)
                    && final(self)@ == old(self)@,
            },
    {
        proof {
            use_type_invariant(&*self);
        }
        match self.first_unknown(cfg) {
            Some(index) => Err(UnknownMod { index }),
            None => {
                let ghost s = self@;
                let ghost active = active_flags(*cfg);
                let mut records: Vec<StagedMod> = Vec::new();
                std::mem::swap(&mut self.records, &mut records);
                let n = records.len();
                let mut i: usize = 0;
                while i < n
                    invariant
                        i <= n,
                        n == records.len(),
                        n == s.len(),
                        active == active_flags(*cfg),
                        all_known(s, active),
                        forall|k: int|
                            0 <= k < i ==> #[trigger] views(records@)[k] == select_matching(
                                s,
                                c@,
                                active,
                            )[k],
                        forall|k: int| i <= k < n ==> #[trigger] views(records@)[k] == s[k],
                    decreases n - i,
                {
                    let ghost before = views(records@);
                    assert(before[i as int] == s[i as int]);
                    let is_on = match lookup_active(cfg, records[i].mod_name.as_str()) {
                        Some(v) => v,
                        None => false,
                    };
                    if passes_filters(c, &records[i], is_on) {
                        records[i].selected = true;
                    }
                    proof {
                        let after = views(records@);
                        assert forall|k: int| 0 <= k < i + 1 implies #[trigger] after[k]
                            == select_matching(s, c@, active)[k] by {
                            if k < i {
                                assert(after[k] == before[k]);
                            }
                        }
                        assert forall|k: int| i + 1 <= k < n implies #[trigger] after[k]
                            == s[k] by {
                            assert(after[k] == before[k]);
                        }
                    }
                    i = i + 1;
                }
                proof {
                    assert(views(records@) =~= select_matching(s, c@, active));
                    assert forall|a: int, b: int| 0 <= a < b < n implies views(records@)[a].name
                        != views(records@)[b].name by {
                        assert(s[a].name != s[b].name);
                    }
                }
                self.records = records;
                Ok(())
            },
        }
    }

    /// Unticks every mod.
    pub fn deselect_all(&mut self)
        ensures
            final(self)@ == deselect_every(old(self)@),
    {
        proof {
            use_type_invariant(&*self);
        }
        let ghost s = self@;
        let mut records: Vec<StagedMod> = Vec::new();
        std::mem::swap(&mut self.records, &mut records);
        let n = records.len();
        let mut i: usize = 0;
        while i < n
            invariant
                i <= n,
                n == records.len(),
                n == s.len(),
                forall|k: int| 0 <= k < i ==> #[trigger] views(records@)[k] == with_selected(s[k], false),
                forall|k: int| i <= k < n ==> #[trigger] views(records@)[k] == s[k],
            decreases n - i,
        {
            let ghost before = views(records@);
            assert(before[i as int] == s[i as int]);
            records[i].selected = false;
            proof {
                let after = views(records@);
                assert forall|k: int| 0 <= k < i + 1 implies #[trigger] after[k] == with_selected(
                    s[k],
                    false,
                ) by {
                    if k < i {
                        assert(after[k] == before[k]);
                    }
                }
                assert forall|k: int| i + 1 <= k < n implies #[trigger] after[k] == s[k] by {
                    assert(after[k] == before[k]);
                }
            }
            i = i + 1;
        }
        proof {
            assert(views(records@) =~= deselect_every(s));
            assert forall|a: int, b: int| 0 <= a < b < n implies views(records@)[a].name != views(
                records@,
            )[b].name by {
                assert(s[a].name != s[b].name);
            }
        }
        self.records = records;
    }

    /// Sorts the list by a key and a direction; mods that tie keep the
    /// order they had. Sorting by status reads the status of every mod from
    /// the configuration: where that does not hold one of them, the list
    /// stays as it is and the first such mod is named.
    pub fn sort(&mut self, option: SortOption, ascending: bool, cfg: &beammm::game::ModCfg) -> (r:
        Result<(), UnknownMod>)
        ensures
            match r {
                Ok(()) => {
                    &&& option == SortOption::Status ==> all_known(old(self)@, active_flags(*cfg))
                    &&& stable_sort_of(
                        final(self)@,
                        old(self)@,
                        record_order(option, ascending, active_flags(*cfg)),
                    )
                    &&& final(self)@.to_multiset() == old(self)@.to_multiset()
                    &&& final(self)@.len() == old(self)@.len()
                },
                Err(e) => {
                    &&& option == SortOption::Status
                    &&& is_first_unknown(old(self)@, active_flags(*cfg), e.index as int)
                    &&& final(self)@ == old(self)@
                },
            },
    {
        proof {
            use_type_invariant(&*self);
        }
        let by_status = match option {
            SortOption::Status => true,
            _ => false,
        };
        if by_status {
            match self.first_unknown(cfg) {
                Some(index) => {
                    return Err(UnknownMod { index });
                },
                None => {},
            }
        }
        let ghost s = self@;
        let mut records: Vec<StagedMod> = Vec::new();
        std::mem::swap(&mut self.records, &mut records);
        sort_records(&mut records, option, ascending, cfg);
        proof {
            lemma_permuted_distinct(views(records@), s);
        }
        self.records = records;
        Ok(())
    }

    /// Sorts the list by the key and direction of the criteria if a sort is
    /// due, and notes that it was done. Where none is due, or the sort
    /// fails, nothing changes.
    pub fn sort_if_needed(&mut self, c: &mut Criteria, cfg: &beammm::game::ModCfg) -> (r: Result<
        (),
        UnknownMod,
    >)
        ensures
            !old(c)@.needs_sort ==> r.is_ok() && final(self)@ == old(self)@ && final(c)@ == old(
                c,
            )@,
            old(c)@.needs_sort ==> match r {
                Ok(()) => {
                    &&& old(c)@.sort_option == SortOption::Status ==> all_known(
                        old(self)@,
                        active_flags(*cfg),
                    )
                    &&& stable_sort_of(
                        final(self)@,
                        old(self)@,
                        record_order(
                            old(c)@.sort_option,
                            old(c)@.sort_ascending,
                            active_flags(*cfg),
                        ),
                    )
                    &&& final(self)@.to_multiset() == old(self)@.to_multiset()
                    &&& final(self)@.len() == old(self)@.len()
                    &&& final(c)@ == old(c)@.sorted()
                },
                Err(e) => {
                    &&& old(c)@.sort_option == SortOption::Status
                    &&& is_first_unknown(old(self)@, active_flags(*cfg), e.index as int)
                    &&& final(self)@ == old(self)@
                    &&& final(c)@ == old(c)@
                },
            },
    {
        if c.needs_sort() {
            match self.sort(c.sort_option(), c.sort_ascending(), cfg) {
                Ok(()) => {
                    c.mark_sorted();
                    Ok(())
                },
                Err(e) => Err(e),
            }
        } else {
            Ok(())
        }
    }
}


/// Two answers to the question which mods are shown are the same answer.
pub proof fn lemma_visible_order_determined(
    s: Seq<StagedModView>,
    c: CriteriaView,
    active: Map<Seq<char>, bool>,
    a: Seq<usize>,
    b: Seq<usize>,
)
    requires
        places(a) == visible_indices(s, c, active),
        places(b) == visible_indices(s, c, active),
    ensures
        a == b,
{
    assert(a.len() == places(a).len());
    assert(b.len() == places(b).len());
    assert forall|k: int| 0 <= k < a.len() implies a[k] == b[k] by {
        assert(places(a)[k] == a[k] as int);
        assert(places(b)[k] == b[k] as int);
    }
    assert(a =~= b);
}

/// After the shown mods were ticked and then every mod unticked, no mod is
/// ticked, whatever the filters and the statuses were.
pub proof fn lemma_select_then_deselect(
    s: Seq<StagedModView>,
    c: CriteriaView,
    active: Map<Seq<char>, bool>,
)
    ensures
        deselect_every(select_matching(s, c, active)) == deselect_every(s),
        forall|i: int|
            0 <= i < s.len() ==> !(#[trigger] deselect_every(
                select_matching(s, c, active),
            )[i]).selected,
{
    assert(deselect_every(select_matching(s, c, active)) =~= deselect_every(s));
}

/// A list of mods with different names, sorted by name in one direction and
/// then in the other, comes out turned round.
pub proof fn lemma_name_sort_reverses(
    s: Seq<StagedModView>,
    first: Seq<StagedModView>,
    second: Seq<StagedModView>,
    ascending: bool,
    active: Map<Seq<char>, bool>,
)
    requires
        distinct_names(s),
        stable_sort_of(first, s, record_order(SortOption::Name, ascending, active)),
        stable_sort_of(second, first, record_order(SortOption::Name, !ascending, active)),
    ensures
        second == first.reverse(),
{
    let ord = record_order(SortOption::Name, ascending, active);
    let back = record_order(SortOption::Name, !ascending, active);
    assert(back == flip(ord)) by {
        assert forall|a: StagedModView, b: StagedModView| #[trigger]
            back(a, b) == flip(ord)(a, b) by {
            let o = natural_order(SortOption::Name, active, a, b);
            assert(o.flipped().flipped() == o);
        }
        assert(back =~= flip(ord));
    }
    assert(no_ties(s, ord)) by {
        assert forall|i: int, j: int| 0 <= i < j < s.len() implies ord(s[i], s[j])
            != Order::Equal by {
            lemma_text_order_laws(s[i].name, s[j].name, s[i].name);
        }
    }
    lemma_record_order_is_order(SortOption::Name, ascending, active);
    lemma_reversed_sort(s, first, second, ord);
}

/// In a list sorted by date upwards no mod without a timestamp stands
/// before a mod with one.
pub proof fn lemma_date_sort_missing_last(
    s: Seq<StagedModView>,
    sorted: Seq<StagedModView>,
    active: Map<Seq<char>, bool>,
)
    requires
        stable_sort_of(sorted, s, record_order(SortOption::Date, true, active)),
    ensures
        forall|i: int, j: int|
            0 <= i < j < sorted.len() && sorted[i].createtime.is_none()
                ==> sorted[j].createtime.is_none(),
{
    let ord = record_order(SortOption::Date, true, active);
    assert forall|i: int, j: int|
        0 <= i < j < sorted.len() && sorted[i].createtime.is_none()
            implies sorted[j].createtime.is_none() by {
        assert(ord(sorted[i], sorted[j]) != Order::Greater);
    }
}

/// In a list sorted by date downwards the whole order is turned round, so
/// no mod with a timestamp stands before a mod without one.
pub proof fn lemma_date_sort_descending_missing_first(
    s: Seq<StagedModView>,
    sorted: Seq<StagedModView>,
    active: Map<Seq<char>, bool>,
)
    requires
        stable_sort_of(sorted, s, record_order(SortOption::Date, false, active)),
    ensures
        forall|i: int, j: int|
            0 <= i < j < sorted.len() && sorted[j].createtime.is_none()
                ==> sorted[i].createtime.is_none(),
{
    let ord = record_order(SortOption::Date, false, active);
    assert forall|i: int, j: int|
        0 <= i < j < sorted.len() && sorted[j].createtime.is_none()
            implies sorted[i].createtime.is_none() by {
        assert(ord(sorted[i], sorted[j]) != Order::Greater);
    }
}


/// Ticking the shown mods a second time, under the same filters and
/// statuses, changes nothing; nor does unticking every mod a second time.
pub proof fn lemma_select_and_deselect_idempotent(
    s: Seq<StagedModView>,
    c: CriteriaView,
    active: Map<Seq<char>, bool>,
)
    ensures
        select_matching(select_matching(s, c, active), c, active) == select_matching(s, c, active),
        deselect_every(deselect_every(s)) == deselect_every(s),
{
    assert(select_matching(select_matching(s, c, active), c, active) =~= select_matching(
        s,
        c,
        active,
    ));
    assert(deselect_every(deselect_every(s)) =~= deselect_every(s));
}

} // verus!
