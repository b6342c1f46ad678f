//! Sorting procurements by one of their fields.

use crate::procurements::{amount_of, Procurement};
use crate::sorting::{
    is_stable_order, lemma_descending_reverses_ascending, reversed, stable_order, tied, uniform,
    values_of, KeyValue, SortValue,
};
use crate::text::{chars_of, lowercase, lowercase_chars, str_eq, str_or_empty, text_or_empty};
use vstd::prelude::*;

verus! {

/// The field to sort by.
#[derive(Clone, Copy, Debug, PartialEq, Eq)]
pub enum SortKey {
    /// The title, letter case aside.
    Title,
    /// The amount collected.
    Amount,
    /// The share of the target collected.
    Progress,
    /// The deadline, as ISO-8601 text.
    Deadline,
    /// The number of participants.
    Participants,
    /// The time of creation, as ISO-8601 text.
    Created,
    /// No field: the records stay in their order.
    Unordered,
}

/// The field that a name stands for; an unknown name stands for none.
pub open spec fn sort_key(name: Seq<char>) -> SortKey {
    if name == "title"@ {
        SortKey::Title
    } else if name == "amount"@ {
        SortKey::Amount
    } else if name == "progress"@ {
        SortKey::Progress
    } else if name == "deadline"@ {
        SortKey::Deadline
    } else if name == "participants"@ {
        SortKey::Participants
    } else if name == "created"@ {
        SortKey::Created
    } else {
        SortKey::Unordered
    }
}

/// The target that progress is measured against when sorting: an absent
/// target counts as one ruble here, so that the progress of such a record
/// is its amount in rubles.
pub open spec fn sorting_target(p: Procurement) -> int {
    match p.target_amount {
        Some(t) => t as int,
        None => 100,
    }
}

/// The value a record is sorted by under `key`. Absent amounts and counts
/// are zero and absent texts empty; progress is the amount over the target,
/// and zero where the target is not positive.
pub open spec fn sort_value(p: Procurement, key: SortKey) -> SortValue {
    match key {
        SortKey::Title => SortValue::Text(lowercase(p.title@)),
        SortKey::Amount => SortValue::Number(p.current()),
        SortKey::Progress => if sorting_target(p) > 0 {
            SortValue::Ratio(p.current(), sorting_target(p))
        } else {
            SortValue::Ratio(0, 1)
        },
        SortKey::Deadline => SortValue::Text(text_or_empty(p.deadline)),
        SortKey::Participants => SortValue::Number(p.participants()),
        SortKey::Created => SortValue::Text(text_or_empty(p.created_at)),
        SortKey::Unordered => SortValue::Nothing,
    }
}

/// The sort values of a list of records.
pub open spec fn sort_values(procurements: Seq<Procurement>, key: SortKey) -> Seq<SortValue> {
    Seq::new(procurements.len(), |i: int| sort_value(procurements[i], key))
}

/// The ids of the records at the positions `order`.
pub open spec fn ids_in_order(procurements: Seq<Procurement>, order: Seq<usize>) -> Seq<i64> {
    Seq::new(order.len(), |i: int| procurements[order[i] as int].id)
}

/// `ids` are the ids of the records, stably sorted by `key`.
pub open spec fn is_sorted_ids(
    ids: Seq<i64>,
    procurements: Seq<Procurement>,
    key: SortKey,
    descending: bool,
) -> bool {
    exists|order: Seq<usize>| #[trigger]
        is_stable_order(order, sort_values(procurements, key), descending) && ids == ids_in_order(
            procurements,
            order,
        )
}

/// `a` and `b` are the ids of two records whose sort values tie.
pub open spec fn name_tied_records(
    a: i64,
    b: i64,
    procurements: Seq<Procurement>,
    key: SortKey,
) -> bool {
    exists|p: int, q: int|
        {
            &&& 0 <= p < procurements.len()
            &&& 0 <= q < procurements.len()
            &&& procurements[p].id == a
            &&& procurements[q].id == b
            &&& #[trigger] tied(sort_value(procurements[p], key), sort_value(procurements[q], key))
        }
}

/// The values of one key are all of one kind.
pub proof fn lemma_sort_values_uniform(procurements: Seq<Procurement>, key: SortKey)
    ensures
        uniform(sort_values(procurements, key)),
{
}

/// Sorting descending gives the ascending list of ids read backwards, up to
/// the order within runs of records that tie: at every place the two lists
/// name records whose sort values tie. Where no two records tie, the
/// descending list is exactly the ascending list reversed.
pub proof fn lemma_descending_ids_reverse_ascending(
    procurements: Seq<Procurement>,
    key: SortKey,
    ascending: Seq<i64>,
    descending: Seq<i64>,
)
    requires
        is_sorted_ids(ascending, procurements, key, false),
        is_sorted_ids(descending, procurements, key, true),
    ensures
        ascending.len() == procurements.len(),
        descending.len() == procurements.len(),
        forall|i: int|
            0 <= i < procurements.len() ==> name_tied_records(
                #[trigger] descending[i],
                ascending[procurements.len() - 1 - i],
                procurements,
                key,
            ),
        (forall|p: int, q: int|
            0 <= p < q < procurements.len() ==> !tied(
                #[trigger] sort_value(procurements[p], key),
                #[trigger] sort_value(procurements[q], key),
            )) ==> descending == ascending.reverse(),
{
    let values = sort_values(procurements, key);
    let n = procurements.len() as int;
    let up = choose|order: Seq<usize>| #[trigger]
        is_stable_order(order, values, false) && ascending == ids_in_order(procurements, order);
    let down = choose|order: Seq<usize>| #[trigger]
        is_stable_order(order, values, true) && descending == ids_in_order(procurements, order);
    lemma_sort_values_uniform(procurements, key);
    lemma_descending_reverses_ascending(values, up, down);
    assert forall|i: int| 0 <= i < n implies name_tied_records(
        #[trigger] descending[i],
        ascending[n - 1 - i],
        procurements,
        key,
    ) by {
        let p = down[i] as int;
        let q = up[n - 1 - i] as int;
        assert(reversed(up)[i] == up[n - 1 - i]);
        assert((down[i] as int) < n);
        assert((up[n - 1 - i] as int) < n);
        assert(tied(values[p], values[q]));
        assert(descending[i] == procurements[p].id);
        assert(ascending[n - 1 - i] == procurements[q].id);
        assert(tied(sort_value(procurements[p], key), sort_value(procurements[q], key)));
    }
    if forall|p: int, q: int|
        0 <= p < q < n ==> !tied(
            #[trigger] sort_value(procurements[p], key),
            #[trigger] sort_value(procurements[q], key),
        ) {
        assert forall|p: int, q: int| 0 <= p < q < values.len() implies !tied(
            #[trigger] values[p],
            #[trigger] values[q],
        ) by {
            assert(!tied(sort_value(procurements[p], key), sort_value(procurements[q], key)));
        }
        assert(down == reversed(up));
        assert(descending =~= ascending.reverse()) by {
            assert forall|i: int| 0 <= i < n implies descending[i] == ascending.reverse()[i] by {
                assert(reversed(up)[i] == up[n - 1 - i]);
            }
        }
    }
}

/// Reads the name of a sort field.
pub fn parse_sort_key(name: &str) -> (key: SortKey)
    ensures
        key == sort_key(name@),
{
    if str_eq(name, "title") {
        SortKey::Title
    } else if str_eq(name, "amount") {
        SortKey::Amount
    } else if str_eq(name, "progress") {
        SortKey::Progress
    } else if str_eq(name, "deadline") {
        SortKey::Deadline
    } else if str_eq(name, "participants") {
        SortKey::Participants
    } else if str_eq(name, "created") {
        SortKey::Created
    } else {
        SortKey::Unordered
    }
}

fn key_of(p: &Procurement, key: SortKey) -> (value: KeyValue)
    ensures
        value@ == sort_value(*p, key),
{
    match key {
        SortKey::Title => KeyValue::Text(lowercase_chars(p.title.as_str())),
        SortKey::Amount => KeyValue::Number(amount_of(&p.current_amount) as i128),
        SortKey::Progress => {
            let target: i64 = match p.target_amount {
                Some(t) => t,
                None => 100,
            };
            if target > 0 {
                KeyValue::Ratio(amount_of(&p.current_amount), target)
            } else {
                KeyValue::Ratio(0, 1)
            }
        },
        SortKey::Deadline => KeyValue::Text(chars_of(str_or_empty(&p.deadline))),
        SortKey::Participants => match p.participant_count {
            Some(n) => KeyValue::Number(n as i128),
            None => KeyValue::Number(0),
        },
        SortKey::Created => KeyValue::Text(chars_of(str_or_empty(&p.created_at))),
        SortKey::Unordered => KeyValue::Nothing,
    }
}

/// The positions of the records, stably sorted by `key`.
pub fn sort_order(procurements: &Vec<Procurement>, key: SortKey, descending: bool) -> (order: Vec<
    usize,
>)
    ensures
        is_stable_order(order@, sort_values(procurements@, key), descending),
{
    let mut keys: Vec<KeyValue> = Vec::new();
    let mut i: usize = 0;
    while i < procurements.len()
        invariant
            i <= procurements.len(),
            keys.len() == i,
            forall|k: int| 0 <= k < i ==> (#[trigger] keys[k])@ == sort_value(procurements[k], key),
        decreases procurements.len() - i,
    {
        keys.push(key_of(&procurements[i], key));
        i += 1;
    }
    assert(values_of(keys@) =~= sort_values(procurements@, key));
    proof {
        lemma_sort_values_uniform(procurements@, key);
    }
    stable_order(&keys, descending)
}

/// Sorts the records by the field named `sort_by` and returns their ids in
/// that order. The order is descending where `order` is `desc` and
/// ascending otherwise; records that tie keep their order, and under an
/// unknown field name all records tie.
pub fn sort_procurements(procurements: &Vec<Procurement>, sort_by: &str, order: &str) -> (ids: Vec<
    i64,
>)
    ensures
        is_sorted_ids(ids@, procurements@, sort_key(sort_by@), order@ == "desc"@),
{
    let key = parse_sort_key(sort_by);
    let descending = str_eq(order, "desc");
    let positions = sort_order(procurements, key, descending);
    let mut ids: Vec<i64> = Vec::new();
    let mut i: usize = 0;
    while i < positions.len()
        invariant
            i <= positions.len(),
            ids.len() == i,
            is_stable_order(positions@, sort_values(procurements@, key), descending),
            forall|k: int|
                0 <= k < i ==> #[trigger] ids[k] == procurements[positions[k] as int].id,
        decreases positions.len() - i,
    {
        let at = positions[i];
        assert((positions@[i as int] as int) < procurements.len());
        ids.push(procurements[at].id);
        i += 1;
    }
    assert(ids@ =~= ids_in_order(procurements@, positions@));
    ids
}

} // verus!
