//! The order of two mods under each sort key.

use crate::config::{active_flags, lookup_active};
use crate::criteria::SortOption;
use crate::record::{field_text, StagedMod, StagedModView};
use crate::sorting::{flip, is_order};
use crate::text::{
    compare_text, lemma_text_lt_total, lemma_text_lt_transitive, text_lt, text_or_empty,
    text_order, Order,
};
use vstd::prelude::*;

verus! {

/// The order of two flags: unset comes before set.
pub open spec fn flag_order(a: bool, b: bool) -> Order {
    if a == b {
        Order::Equal
    } else if b {
        Order::Less
    } else {
        Order::Greater
    }
}

/// The order of two timestamps.
pub open spec fn time_order(a: i64, b: i64) -> Order {
    if a < b {
        Order::Less
    } else if a == b {
        Order::Equal
    } else {
        Order::Greater
    }
}

/// The order by date: by timestamp where both mods have one; a mod that has
/// one comes before a mod that has none; two mods without go by name.
pub open spec fn date_order(a: StagedModView, b: StagedModView) -> Order {
    match (a.createtime, b.createtime) {
        (Some(x), Some(y)) => time_order(x, y),
        (Some(_), None) => Order::Less,
        (None, Some(_)) => Order::Greater,
        (None, None) => text_order(a.name, b.name),
    }
}

/// The order of two mods under a sort key, read upwards. `active` gives for
/// each name whether the game loads that mod.
pub open spec fn natural_order(
    option: SortOption,
    active: Map<Seq<char>, bool>,
    a: StagedModView,
    b: StagedModView,
) -> Order {
    match option {
        SortOption::Name => text_order(a.name, b.name),
        SortOption::Status => flag_order(active[a.name], active[b.name]),
        SortOption::Selection => flag_order(a.selected, b.selected),
        SortOption::Date => date_order(a, b),
        SortOption::Filename => text_order(text_or_empty(a.filename), text_or_empty(b.filename)),
        SortOption::Fullpath => text_order(text_or_empty(a.fullpath), text_or_empty(b.fullpath)),
        SortOption::ModType => text_order(text_or_empty(a.mod_type), text_or_empty(b.mod_type)),
    }
}

/// The comparison by which the list is sorted: the key's own order where
/// the direction is upwards, that order turned round where it is downwards.
pub open spec fn record_order(
    option: SortOption,
    ascending: bool,
    active: Map<Seq<char>, bool>,
) -> spec_fn(StagedModView, StagedModView) -> Order {
    |a: StagedModView, b: StagedModView|
        if ascending {
            natural_order(option, active, a, b)
        } else {
            natural_order(option, active, a, b).flipped()
        }
}

/// Compares two flags: unset comes before set.
pub fn compare_flags(a: bool, b: bool) -> (r: Order)
    ensures
        r == flag_order(a, b),
{
    if a == b {
        Order::Equal
    } else if b {
        Order::Less
    } else {
        Order::Greater
    }
}

/// Compares two timestamps.
pub fn compare_times(a: i64, b: i64) -> (r: Order)
    ensures
        r == time_order(a, b),
{
    if a < b {
        Order::Less
    } else if a == b {
        Order::Equal
    } else {
        Order::Greater
    }
}

/// Compares two mods by date.
pub fn compare_dates(a: &StagedMod, b: &StagedMod) -> (r: Order)
    ensures
        r == date_order(a@, b@),
{
    match (a.createtime, b.createtime) {
        (Some(x), Some(y)) => compare_times(x, y),
        (Some(_), None) => Order::Less,
        (None, Some(_)) => Order::Greater,
        (None, None) => compare_text(a.mod_name.as_str(), b.mod_name.as_str()),
    }
}

/// Compares two mods under a sort key and a direction. The status of a mod
/// is read from the configuration, which has to hold both mods where the
/// key is the status.
pub fn compare_records(
    option: SortOption,
    ascending: bool,
    cfg: &beammm::game::ModCfg,
    a: &StagedMod,
    b: &StagedMod,
) -> (r: Order)
    requires
        option == SortOption::Status ==> active_flags(*cfg).contains_key(a@.name) && active_flags(
            *cfg,
        ).contains_key(b@.name),
    ensures
        r == record_order(option, ascending, active_flags(*cfg))(a@, b@),
{
    let natural = match option {
        SortOption::Name => compare_text(a.mod_name.as_str(), b.mod_name.as_str()),
        SortOption::Status => {
            let a_active = match lookup_active(cfg, a.mod_name.as_str()) {
                Some(v) => v,
                None => false,
            };
            let b_active = match lookup_active(cfg, b.mod_name.as_str()) {
                Some(v) => v,
                None => false,
            };
            compare_flags(a_active, b_active)
        },
        SortOption::Selection => compare_flags(a.selected, b.selected),
        SortOption::Date => compare_dates(a, b),
        SortOption::Filename => compare_text(field_text(&a.filename), field_text(&b.filename)),
        SortOption::Fullpath => compare_text(field_text(&a.fullpath), field_text(&b.fullpath)),
        SortOption::ModType => compare_text(field_text(&a.mod_type), field_text(&b.mod_type)),
    };
    if ascending {
        natural
    } else {
        natural.reverse()
    }
}

/// The order of texts compares like a total order.
pub proof fn lemma_text_order_laws(a: Seq<char>, b: Seq<char>, c: Seq<char>)
    ensures
        text_order(a, a) == Order::Equal,
        text_order(b, a) == text_order(a, b).flipped(),
        text_order(a, b) != Order::Greater && text_order(b, c) != Order::Greater ==> text_order(
            a,
            c,
        ) != Order::Greater,
        text_order(a, b) == Order::Equal <==> a == b,
{
    lemma_text_lt_total(a, a);
    lemma_text_lt_total(a, b);
    lemma_text_lt_total(b, a);
    lemma_text_lt_total(b, c);
    lemma_text_lt_total(a, c);
    if text_lt(a, b) && text_lt(b, c) {
        lemma_text_lt_transitive(a, b, c);
    }
}

/// Under every sort key the order of mods compares like a total order.
pub proof fn lemma_natural_order_laws(
    option: SortOption,
    active: Map<Seq<char>, bool>,
    a: StagedModView,
    b: StagedModView,
    c: StagedModView,
)
    ensures
        natural_order(option, active, a, a) == Order::Equal,
        natural_order(option, active, b, a) == natural_order(option, active, a, b).flipped(),
        natural_order(option, active, a, b) != Order::Greater && natural_order(
            option,
            active,
            b,
            c,
        ) != Order::Greater ==> natural_order(option, active, a, c) != Order::Greater,
{
    lemma_text_order_laws(a.name, b.name, c.name);
    lemma_text_order_laws(
        text_or_empty(a.filename),
        text_or_empty(b.filename),
        text_or_empty(c.filename),
    );
    lemma_text_order_laws(
        text_or_empty(a.fullpath),
        text_or_empty(b.fullpath),
        text_or_empty(c.fullpath),
    );
    lemma_text_order_laws(
        text_or_empty(a.mod_type),
        text_or_empty(b.mod_type),
        text_or_empty(c.mod_type),
    );
}

/// The comparison by which the list is sorted is fit for sorting, under
/// every key and in both directions.
pub proof fn lemma_record_order_is_order(
    option: SortOption,
    ascending: bool,
    active: Map<Seq<char>, bool>,
)
    ensures
        is_order(record_order(option, ascending, active)),
{
    let ord = record_order(option, ascending, active);
    assert forall|a: StagedModView| #[trigger] ord(a, a) == Order::Equal by {
        lemma_natural_order_laws(option, active, a, a, a);
    }
    assert forall|a: StagedModView, b: StagedModView| #[trigger]
        ord(b, a) == ord(a, b).flipped() by {
        lemma_natural_order_laws(option, active, a, b, a);
    }
    assert forall|a: StagedModView, b: StagedModView, c: StagedModView|
        #[trigger] ord(a, b) != Order::Greater && #[trigger] ord(b, c)
            != Order::Greater implies ord(a, c) != Order::Greater by {
        lemma_natural_order_laws(option, active, a, b, c);
        lemma_natural_order_laws(option, active, c, b, a);
        lemma_natural_order_laws(option, active, a, c, a);
    }
}

/// Sorting downwards compares as sorting upwards does, read from the other
/// side.
pub proof fn lemma_descending_is_flipped(option: SortOption, active: Map<Seq<char>, bool>)
    ensures
        record_order(option, false, active) == flip(record_order(option, true, active)),
{
    assert(record_order(option, false, active) =~= flip(record_order(option, true, active)));
}

} // verus!
