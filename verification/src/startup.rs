//! What the window starts from: the list of the installed mods, each with
//! its metadata, and the types that the type filter offers.

use crate::compare::{lemma_text_order_laws, record_order};
use crate::config::{active_flags, installed_names};
use crate::criteria::SortOption;
use crate::metadata::{describe, described};
use crate::mods::{all_known, distinct_names, lemma_permuted_distinct, sort_records, ModList};
use crate::preset::texts;
use crate::record::{views, StagedMod, StagedModView};
use crate::text::{
    compare_text, lemma_text_lt_total, lemma_text_lt_transitive, text_eq, text_lt, Order,
};
use vstd::prelude::*;

verus! {

/// The names of `s` rise strictly.
pub open spec fn names_rise(s: Seq<StagedModView>) -> bool {
    forall|i: int, j: int| 0 <= i < j < s.len() ==> text_lt(s[i].name, s[j].name)
}

/// The texts of `v` rise strictly.
pub open spec fn texts_rise(v: Seq<Seq<char>>) -> bool {
    forall|i: int, j: int| 0 <= i < j < v.len() ==> text_lt(v[i], v[j])
}

/// A mod below `upto` has the type `t`, which is not empty.
pub open spec fn type_listed_below(s: Seq<StagedModView>, upto: int, t: Seq<char>) -> bool {
    t.len() > 0 && exists|i: int|
        0 <= i < upto && i < s.len() && (#[trigger] s[i]).mod_type == Some(t)
}

/// A mod of the list has the type `t`, which is not empty.
pub open spec fn type_listed(s: Seq<StagedModView>, t: Seq<char>) -> bool {
    type_listed_below(s, s.len() as int, t)
}

/// Makes the list of the mods that the configuration holds, each as the
/// metadata document describes it, none ticked, sorted by name.
pub fn load_mods(cfg: &beammm::game::ModCfg, db: &Option<serde_json::Value>) -> (list: ModList)
    ensures
        all_known(list@, active_flags(*cfg)),
        forall|name: Seq<char>| #[trigger]
            active_flags(*cfg).contains_key(name) ==> exists|i: int|
                0 <= i < list@.len() && (#[trigger] list@[i]).name == name,
        forall|i: int| 0 <= i < list@.len() ==> #[trigger] list@[i] == described(*db, list@[i].name),
        names_rise(list@),
{
    let names = installed_names(cfg);
    let n = names.len();
    let mut records: Vec<StagedMod> = Vec::new();
    let mut i: usize = 0;
    while i < n
        invariant
            i <= n,
            n == names.len(),
            records.len() == i,
            forall|k: int| 0 <= k < i ==> #[trigger] views(records@)[k] == described(*db, names@[k]@),
        decreases n - i,
    {
        let ghost before = views(records@);
        let name = names[i].clone();
        records.push(describe(db, name));
        proof {
            assert forall|k: int| 0 <= k < i + 1 implies #[trigger] views(records@)[k]
                == described(*db, names@[k]@) by {
                if k < i {
                    assert(views(records@)[k] == before[k]);
                }
            }
        }
        i = i + 1;
    }
    let ghost built = views(records@);
    sort_records(&mut records, SortOption::Name, true, cfg);
    let ghost sorted = views(records@);
    proof {
        let flags = active_flags(*cfg);
        assert(distinct_names(built)) by {
            assert forall|a: int, b: int| 0 <= a < b < built.len() implies built[a].name
                != built[b].name by {
                assert(built[a].name == names@[a]@ && built[b].name == names@[b]@);
            }
        }
        lemma_permuted_distinct(sorted, built);
        assert forall|k: int| 0 <= k < sorted.len() implies flags.contains_key(
            #[trigger] sorted[k].name,
        ) && sorted[k] == described(*db, sorted[k].name) by {
            vstd::seq_lib::to_multiset_contains(sorted, sorted[k]);
            vstd::seq_lib::to_multiset_contains(built, sorted[k]);
            assert(sorted.contains(sorted[k]));
            let j = choose|j: int| 0 <= j < built.len() && built[j] == sorted[k];
            assert(built[j].name == names@[j]@);
        }
        assert forall|name: Seq<char>| #[trigger] flags.contains_key(name) implies exists|k: int|
            0 <= k < sorted.len() && (#[trigger] sorted[k]).name == name by {
            let j = choose|j: int| 0 <= j < names.len() && #[trigger] names@[j]@ == name;
            assert(built[j].name == name);
            vstd::seq_lib::to_multiset_contains(sorted, built[j]);
            vstd::seq_lib::to_multiset_contains(built, built[j]);
            assert(built.contains(built[j]));
            let k = choose|k: int| 0 <= k < sorted.len() && sorted[k] == built[j];
            assert(sorted[k].name == name);
        }
        assert forall|a: int, b: int| 0 <= a < b < sorted.len() implies text_lt(
            sorted[a].name,
            sorted[b].name,
        ) by {
            let ord = record_order(SortOption::Name, true, flags);
            assert(ord(sorted[a], sorted[b]) != Order::Greater);
            lemma_text_order_laws(sorted[a].name, sorted[b].name, sorted[a].name);
        }
    }
    match ModList::from_records(records) {
        Some(list) => list,
        None => ModList::new(),
    }
}

/// Whether the text at `p` comes before `t`.
fn is_before(out: &Vec<String>, p: usize, t: &str) -> (r: bool)
    requires
        p < out.len(),
    ensures
        r == text_lt(out@[p as int]@, t@),
{
    match compare_text(out[p].as_str(), t) {
        Order::Less => true,
        _ => false,
    }
}

/// Puts a text into a rising list of texts at its place, unless the list
/// holds it already.
pub fn insert_sorted(out: &mut Vec<String>, t: &str)
    requires
        texts_rise(texts(old(out)@)),
    ensures
        texts_rise(texts(final(out)@)),
        forall|x: Seq<char>|
            texts(final(out)@).contains(x) <==> texts(old(out)@).contains(x) || x == t@,
{
    let ghost before = texts(out@);
    let n = out.len();
    let mut p: usize = 0;
    while p < n && is_before(out, p, t)
        invariant
            p <= n,
            n == out.len(),
            before == texts(out@),
            forall|k: int| 0 <= k < p ==> text_lt(#[trigger] before[k], t@),
        decreases n - p,
    {
        assert(before[p as int] == out@[p as int]@);
        p = p + 1;
    }
    let present = if p < n {
        text_eq(out[p].as_str(), t)
    } else {
        false
    };
    if present {
        proof {
            assert(before[p as int] == t@);
        }
    } else {
        out.insert(p, t.to_owned());
        proof {
            let after = texts(out@);
            assert(after =~= before.insert(p as int, t@));
            if p < n {
                assert(before[p as int] == old(out)@[p as int]@);
                lemma_text_lt_total(before[p as int], t@);
            }
            assert forall|a: int, b: int| 0 <= a < b < after.len() implies text_lt(
                after[a],
                after[b],
            ) by {
                if b == p {
                    assert(after[a] == before[a]);
                } else if a == p {
                    assert(after[b] == before[b - 1]);
                    if b - 1 > p {
                        assert(text_lt(before[p as int], before[b - 1]));
                        lemma_text_lt_transitive(t@, before[p as int], before[b - 1]);
                    }
                } else {
                    let a0 = if a < p { a } else { a - 1 };
                    let b0 = if b < p { b } else { b - 1 };
                    assert(after[a] == before[a0] && after[b] == before[b0]);
                }
            }
            assert forall|x: Seq<char>| after.contains(x) <==> before.contains(x) || x == t@ by {
                if after.contains(x) {
                    let k = choose|k: int| 0 <= k < after.len() && after[k] == x;
                    if k < p {
                        assert(before[k] == x);
                    } else if k > p {
                        assert(before[k - 1] == x);
                    }
                }
                if before.contains(x) {
                    let k = choose|k: int| 0 <= k < before.len() && before[k] == x;
                    let k1 = if k < p { k } else { k + 1 };
                    assert(after[k1] == x);
                }
                if x == t@ {
                    assert(after[p as int] == x);
                }
            }
        }
    }
    proof {
        if present {
            lemma_text_lt_total(t@, t@);
        }
    }
}

/// The types that the mods of the list have, each once, in rising order;
/// an empty type is left out.
pub fn mod_types(list: &ModList) -> (r: Vec<String>)
    ensures
        texts_rise(texts(r@)),
        forall|t: Seq<char>| texts(r@).contains(t) <==> type_listed(list@, t),
{
    let ghost s = list@;
    let mut out: Vec<String> = Vec::new();
    let n = list.len();
    let mut i: usize = 0;
    proof {
        assert forall|t: Seq<char>| texts(out@).contains(t) <==> type_listed_below(s, 0, t) by {
            if texts(out@).contains(t) {
                let k = choose|k: int| 0 <= k < texts(out@).len() && texts(out@)[k] == t;
            }
        }
    }
    while i < n
        invariant
            i <= n,
            n == s.len(),
            s == list@,
            texts_rise(texts(out@)),
            forall|t: Seq<char>| texts(out@).contains(t) <==> type_listed_below(s, i as int, t),
        decreases n - i,
    {
        let ghost held = texts(out@);
        match list.get(i) {
            Some(record) => {
                match &record.mod_type {
                    Some(t) => {
                        if !t.as_str().is_empty() {
                            insert_sorted(&mut out, t.as_str());
                        }
                    },
                    None => {},
                }
            },
            None => {},
        }
        proof {
            let now = texts(out@);
            assert forall|t: Seq<char>| now.contains(t) <==> type_listed_below(
                s,
                i + 1,
                t,
            ) by {
                let added = s[i as int].mod_type == Some(t) && t.len() > 0;
                assert(now.contains(t) <==> held.contains(t) || added);
                if type_listed_below(s, i + 1, t) {
                    let k = choose|k: int|
                        0 <= k < i + 1 && k < s.len() && (#[trigger] s[k]).mod_type == Some(t);
                    if k < i {
                        assert(type_listed_below(s, i as int, t));
                    }
                }
                if type_listed_below(s, i as int, t) {
                    let k = choose|k: int|
                        0 <= k < i && k < s.len() && (#[trigger] s[k]).mod_type == Some(t);
                    assert(type_listed_below(s, i + 1, t));
                }
                if added {
                    assert(type_listed_below(s, i + 1, t));
                }
            }
        }
        i = i + 1;
    }
    out
}

} // verus!
