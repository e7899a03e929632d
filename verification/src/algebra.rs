//! The field algebra on values: what an edge does to the values of a
//! record's fields when it splits them and when it combines them again.

use crate::conversion::ConversionSort;
use crate::edges::{names, place_of, splits, Edge, EdgeView};
use crate::selections::distinct_keys;
use vstd::prelude::*;

verus! {

/// The values of the fields that `keys` stand for, in the order of `keys`.
/// A record's value holds one value for each field, in the order of the fields.
pub open spec fn values_at<V>(record: Seq<V>, keys: Seq<ConversionSort>) -> Seq<V> {
    Seq::new(keys.len(), |i: int| record[keys[i].sort_number as int])
}

/// The record's value that an edge makes of the values left behind and the
/// values split off: each value goes to the place of its field.
pub open spec fn combined_values<V>(edge: EdgeView, remainder: Seq<V>, value: Seq<V>) -> Seq<V> {
    Seq::new(
        edge.current.len() + edge.other.len(),
        |f: int|
            if names(edge.current, f) {
                value[place_of(edge.current, f)]
            } else {
                remainder[place_of(edge.other, f)]
            },
    )
}

/// Among keys of which no two stand for one field, the key for a field has one place.
pub proof fn lemma_place_of(keys: Seq<ConversionSort>, i: int)
    requires
        distinct_keys(keys),
        0 <= i < keys.len(),
    ensures
        names(keys, keys[i].sort_number as int),
        place_of(keys, keys[i].sort_number as int) == i,
{
    let field = keys[i].sort_number as int;
    let p = place_of(keys, field);
    assert(0 <= p < keys.len() && keys[p].sort_number == field);
    if p < i {
        assert(keys[p].sort_number != keys[i].sort_number);
    } else if i < p {
        assert(keys[i].sort_number != keys[p].sort_number);
    }
}

/// Splitting a record's value and combining the two parts again gives the
/// value back.
pub proof fn lemma_split_then_combine<V>(edge: EdgeView, record: Seq<V>)
    requires
        splits(edge, record.len()),
    ensures
        combined_values(edge, values_at(record, edge.other), values_at(record, edge.current))
            == record,
{
    let remainder = values_at(record, edge.other);
    let value = values_at(record, edge.current);
    let back = combined_values(edge, remainder, value);
    assert forall|f: int| 0 <= f < record.len() implies back[f] == record[f] by {
        if names(edge.current, f) {
            let i = place_of(edge.current, f);
            assert(edge.current[i].sort_number == f);
        } else {
            assert(names(edge.other, f));
            let j = place_of(edge.other, f);
            assert(edge.other[j].sort_number == f);
        }
    }
    assert(back =~= record);
}

/// Combining values and splitting the result gives the same values back.
pub proof fn lemma_combine_then_split<V>(edge: EdgeView, remainder: Seq<V>, value: Seq<V>)
    requires
        splits(edge, edge.current.len() + edge.other.len()),
        remainder.len() == edge.other.len(),
        value.len() == edge.current.len(),
    ensures
        values_at(combined_values(edge, remainder, value), edge.current) == value,
        values_at(combined_values(edge, remainder, value), edge.other) == remainder,
{
    let record = combined_values(edge, remainder, value);
    let n = edge.current.len() + edge.other.len();
    assert forall|i: int| 0 <= i < value.len() implies values_at(record, edge.current)[i]
        == value[i] by {
        lemma_place_of(edge.current, i);
    }
    assert forall|j: int| 0 <= j < remainder.len() implies values_at(record, edge.other)[j]
        == remainder[j] by {
        lemma_place_of(edge.other, j);
        let f = edge.other[j].sort_number as int;
        assert(names(edge.other, f));
        assert(!names(edge.current, f));
    }
    assert(values_at(record, edge.current) =~= value);
    assert(values_at(record, edge.other) =~= remainder);
}

fn wrap<V>(values: Vec<V>) -> (r: Vec<Option<V>>)
    ensures
        r@.len() == values@.len(),
        forall|i: int| 0 <= i < r@.len() ==> #[trigger] r@[i] == Some(values@[i]),
{
    let ghost all = values@;
    let mut slots: Vec<Option<V>> = Vec::new();
    for value in it: values.into_iter()
        invariant
            it.seq() == all,
            slots@.len() == it.index(),
            forall|i: int| 0 <= i < slots@.len() ==> #[trigger] slots@[i] == Some(all[i]),
    {
        slots.push(Some(value));
    }
    slots
}

fn take_values<V>(slots: &mut Vec<Option<V>>, keys: &Vec<ConversionSort>) -> (r: Vec<V>)
    requires
        distinct_keys(keys@),
        forall|i: int|
            0 <= i < keys@.len() ==> (#[trigger] keys@[i]).sort_number < old(slots)@.len()
                && old(slots)@[keys@[i].sort_number as int] is Some,
    ensures
        final(slots)@.len() == old(slots)@.len(),
        r@.len() == keys@.len(),
        forall|i: int|
            0 <= i < keys@.len() ==> Some(#[trigger] r@[i]) == old(slots)@[keys@[i].sort_number as int],
        forall|f: int|
            0 <= f < old(slots)@.len() ==> #[trigger] final(slots)@[f] == if names(keys@, f) {
                None
            } else {
                old(slots)@[f]
            },
{
    let ghost before = slots@;
    let mut values: Vec<V> = Vec::new();
    let mut i: usize = 0;
    while i < keys.len()
        invariant
            i <= keys.len(),
            distinct_keys(keys@),
            slots@.len() == before.len(),
            values@.len() == i,
            forall|p: int|
                0 <= p < keys@.len() ==> (#[trigger] keys@[p]).sort_number < before.len()
                    && before[keys@[p].sort_number as int] is Some,
            forall|p: int|
                0 <= p < i ==> Some(#[trigger] values@[p]) == before[keys@[p].sort_number as int],
            forall|f: int|
                0 <= f < before.len() ==> #[trigger] slots@[f] == if names(keys@.take(i as int), f) {
                    None
                } else {
                    before[f]
                },
        decreases keys.len() - i,
    {
        let field = keys[i].sort_number;
        let ghost current = slots@;
        proof {
            if names(keys@.take(i as int), field as int) {
                let p = place_of(keys@.take(i as int), field as int);
                assert(keys@[p].sort_number != keys@[i as int].sort_number);
            }
        }
        let slot = slots[field].take();
        values.push(slot.unwrap());
        proof {
            assert forall|f: int| 0 <= f < before.len() implies #[trigger] slots@[f] == if names(
                keys@.take(i + 1),
                f,
            ) {
                None
            } else {
                before[f]
            } by {
                let shorter = keys@.take(i as int);
                let longer = keys@.take(i + 1);
                if names(shorter, f) {
                    let p = place_of(shorter, f);
                    assert(longer[p].sort_number == f);
                }
                if f == field {
                    assert(longer[i as int].sort_number == f);
                }
                if names(longer, f) && f != field {
                    let p = place_of(longer, f);
                    assert(shorter[p].sort_number == f);
                }
            }
        }
        i += 1;
    }
    assert(keys@.take(i as int) =~= keys@);
    values
}

fn place_values<V>(slots: &mut Vec<Option<V>>, keys: &Vec<ConversionSort>, values: Vec<V>)
    requires
        distinct_keys(keys@),
        values@.len() == keys@.len(),
        forall|i: int| 0 <= i < keys@.len() ==> (#[trigger] keys@[i]).sort_number < old(slots)@.len(),
    ensures
        final(slots)@.len() == old(slots)@.len(),
        forall|f: int|
            0 <= f < old(slots)@.len() ==> #[trigger] final(slots)@[f] == if names(keys@, f) {
                Some(values@[place_of(keys@, f)])
            } else {
                old(slots)@[f]
            },
{
    let ghost before = slots@;
    let ghost all = values@;
    let mut place: usize = 0;
    for value in it: values.into_iter()
        invariant
            it.seq() == all,
            place == it.index(),
            all.len() == keys@.len(),
            distinct_keys(keys@),
            slots@.len() == before.len(),
            forall|i: int| 0 <= i < keys@.len() ==> (#[trigger] keys@[i]).sort_number < before.len(),
            forall|f: int|
                0 <= f < before.len() ==> #[trigger] slots@[f] == if names(
                    keys@.take(it.index() as int),
                    f,
                ) {
                    Some(all[place_of(keys@.take(it.index() as int), f)])
                } else {
                    before[f]
                },
    {
        let ghost i = place as int;
        let field = keys[place].sort_number;
        assert(place < keys.len());
        slots.set(field, Some(value));
        place += 1;
        proof {
            let shorter = keys@.take(i);
            let longer = keys@.take(i + 1);
            assert(distinct_keys(longer));
            assert forall|f: int| 0 <= f < before.len() implies #[trigger] slots@[f] == if names(
                longer,
                f,
            ) {
                Some(all[place_of(longer, f)])
            } else {
                before[f]
            } by {
                if f == field {
                    assert(longer[i] == keys@[i]);
                    lemma_place_of(longer, i);
                } else {
                    if names(shorter, f) {
                        let p = place_of(shorter, f);
                        assert(longer[p] == shorter[p]);
                        lemma_place_of(longer, p);
                    }
                    if names(longer, f) {
                        let p = place_of(longer, f);
                        assert(shorter[p].sort_number == f);
                        assert(distinct_keys(shorter));
                        lemma_place_of(shorter, p);
                    }
                }
            }
        }
    }
    assert(keys@.take(all.len() as int) =~= keys@);
}

fn unwrap_all<V>(slots: Vec<Option<V>>) -> (r: Vec<V>)
    requires
        forall|i: int| 0 <= i < slots@.len() ==> (#[trigger] slots@[i]) is Some,
    ensures
        r@.len() == slots@.len(),
        forall|i: int| 0 <= i < r@.len() ==> Some(#[trigger] r@[i]) == slots@[i],
{
    let ghost all = slots@;
    let mut values: Vec<V> = Vec::new();
    for slot in it: slots.into_iter()
        invariant
            it.seq() == all,
            forall|i: int| 0 <= i < all.len() ==> (#[trigger] all[i]) is Some,
            values@.len() == it.index(),
            forall|i: int| 0 <= i < values@.len() ==> Some(#[trigger] values@[i]) == all[i],
    {
        values.push(slot.unwrap());
    }
    values
}

impl Edge {
    /// Splits a record's value: the values of the fields split off, in the
    /// order of `current`, and the values of the fields left behind, in the
    /// order of `other`.
    pub fn split_take<V>(&self, record: Vec<V>) -> (r: (Vec<V>, Vec<V>))
        requires
            splits(self@, record@.len()),
        ensures
            r.0@ == values_at(record@, self@.current),
            r.1@ == values_at(record@, self@.other),
    {
        let mut slots = wrap(record);
        let value = take_values(&mut slots, &self.current);
        proof {
            assert forall|j: int| 0 <= j < self.other@.len() implies slots@[self.other@[j].sort_number as int] is Some by {
                let f = self.other@[j].sort_number as int;
                assert(names(self@.other, f));
                assert(!names(self@.current, f));
            }
        }
        let remainder = take_values(&mut slots, &self.other);
        assert(value@ =~= values_at(record@, self@.current));
        assert(remainder@ =~= values_at(record@, self@.other));
        (value, remainder)
    }

    /// Combines the values left behind with values for the fields split off
    /// into a record's value.
    pub fn combine<V>(&self, remainder: Vec<V>, value: Vec<V>) -> (r: Vec<V>)
        requires
            splits(self@, self@.current.len() + self@.other.len()),
            remainder@.len() == self@.other.len(),
            value@.len() == self@.current.len(),
            self@.current.len() + self@.other.len() <= usize::MAX,
        ensures
            r@ == combined_values(self@, remainder@, value@),
    {
        let n = self.current.len() + self.other.len();
        let mut slots: Vec<Option<V>> = Vec::new();
        let mut f: usize = 0;
        while f < n
            invariant
                f <= n,
                slots@.len() == f,
                forall|i: int| 0 <= i < slots@.len() ==> (#[trigger] slots@[i]) is None,
            decreases n - f,
        {
            slots.push(None);
            f += 1;
        }
        place_values(&mut slots, &self.current, value);
        place_values(&mut slots, &self.other, remainder);
        proof {
            assert forall|f: int| 0 <= f < slots@.len() implies (#[trigger] slots@[f]) is Some by {
                assert(names(self@.current, f) != names(self@.other, f));
            }
        }
        let record = unwrap_all(slots);
        proof {
            assert forall|f: int| 0 <= f < n implies record@[f] == combined_values(
                self@,
                remainder@,
                value@,
            )[f] by {
                assert(names(self@.current, f) != names(self@.other, f));
            }
            assert(record@ =~= combined_values(self@, remainder@, value@));
        }
        record
    }
}

} // verus!
