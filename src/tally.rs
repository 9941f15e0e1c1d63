//! Frequency tables over rows: how many rows have each field count, and how often each value
//! occurs in chosen columns.
use vstd::prelude::*;
use std::collections::HashMap;

use crate::text::texts;

verus! {

broadcast use vstd::std_specs::hash::group_hash_axioms;

/// How many rows were seen with each number of fields.
pub struct FieldCountTally {
    counts: HashMap<usize, usize>,
}

impl View for FieldCountTally {
    type V = Map<usize, usize>;

    closed spec fn view(&self) -> Map<usize, usize> {
        self.counts@
    }
}

/// The count a table holds for `key`, zero when it holds none.
pub open spec fn count_or_zero(m: Map<usize, usize>, key: usize) -> usize {
    if m.contains_key(key) {
        m[key]
    } else {
        0
    }
}

impl FieldCountTally {
    /// An empty table.
    pub fn new() -> (t: Self)
        ensures
            t@ == Map::<usize, usize>::empty(),
    {
        FieldCountTally { counts: HashMap::new() }
    }

    /// Counts one more row of `fields`; a count already at `usize::MAX` stays there.
    pub fn record(&mut self, fields: &Vec<String>)
        ensures
            final(self)@ == old(self)@.insert(
                fields.len(),
                if count_or_zero(old(self)@, fields.len()) < usize::MAX {
                    (count_or_zero(old(self)@, fields.len()) + 1) as usize
                } else {
                    usize::MAX
                },
            ),
    {
        let n = fields.len();
        let current = match self.counts.get(&n) {
            Some(c) => *c,
            None => 0,
        };
        let next = if current < usize::MAX {
            current + 1
        } else {
            usize::MAX
        };
        self.counts.insert(n, next);
    }

    /// The number of rows seen with `field_count` fields.
    pub fn count(&self, field_count: usize) -> (c: usize)
        ensures
            c == count_or_zero(self@, field_count),
    {
        match self.counts.get(&field_count) {
            Some(c) => *c,
            None => 0,
        }
    }

    /// The table as a map from field count to number of rows.
    pub fn into_map(self) -> (m: HashMap<usize, usize>)
        ensures
            m@ == self@,
    {
        self.counts
    }
}

/// How often `value` occurs in `entries`, a table of distinct values and their counts.
pub open spec fn occurrences(entries: Seq<(Seq<char>, usize)>, value: Seq<char>) -> nat
    decreases entries.len(),
{
    if entries.len() == 0 {
        0
    } else if entries.last().0 == value {
        entries.last().1 as nat
    } else {
        occurrences(entries.drop_last(), value)
    }
}

/// No value appears twice in `entries`.
pub open spec fn distinct_values(entries: Seq<(Seq<char>, usize)>) -> bool {
    forall|i: int, j: int| 0 <= i < j < entries.len() ==> entries[i].0 != entries[j].0
}

/// A value absent from the table occurs zero times.
proof fn lemma_occurrences_absent(entries: Seq<(Seq<char>, usize)>, value: Seq<char>)
    requires
        forall|i: int| 0 <= i < entries.len() ==> entries[i].0 != value,
    ensures
        occurrences(entries, value) == 0,
    decreases entries.len(),
{
    if entries.len() > 0 {
        lemma_occurrences_absent(entries.drop_last(), value);
    }
}

/// A value held at position `i` occurs as often as the count stored there.
proof fn lemma_occurrences_at(entries: Seq<(Seq<char>, usize)>, i: int)
    requires
        distinct_values(entries),
        0 <= i < entries.len(),
    ensures
        occurrences(entries, entries[i].0) == entries[i].1,
    decreases entries.len(),
{
    if i < entries.len() - 1 {
        lemma_occurrences_at(entries.drop_last(), i);
    }
}

/// Changing the count at position `i` changes the occurrences of that value alone.
proof fn lemma_occurrences_update(entries: Seq<(Seq<char>, usize)>, i: int, count: usize, value: Seq<char>)
    requires
        distinct_values(entries),
        0 <= i < entries.len(),
    ensures
        occurrences(entries.update(i, (entries[i].0, count)), value) == if value == entries[i].0 {
            count as nat
        } else {
            occurrences(entries, value)
        },
    decreases entries.len(),
{
    let updated = entries.update(i, (entries[i].0, count));
    if i == entries.len() - 1 {
        assert(updated.drop_last() =~= entries.drop_last());
    } else {
        assert(updated.drop_last() =~= entries.drop_last().update(i, (entries[i].0, count)));
        lemma_occurrences_update(entries.drop_last(), i, count, value);
        if value == entries[i].0 {
            assert(updated.last().0 != value);
        }
    }
}

/// The values and counts of a table, as character sequences.
pub open spec fn entries_view(v: Seq<(String, usize)>) -> Seq<(Seq<char>, usize)> {
    v.map_values(|e: (String, usize)| (e.0@, e.1))
}

/// How often each value occurs in one column.
pub struct ValueTally {
    entries: Vec<(String, usize)>,
}

impl ValueTally {
    /// The distinct values seen and their counts, in the order they were first seen.
    pub closed spec fn entries_spec(&self) -> Seq<(Seq<char>, usize)> {
        entries_view(self.entries@)
    }

    /// How often `value` was seen.
    pub open spec fn occurrences_of(&self, value: Seq<char>) -> nat {
        occurrences(self.entries_spec(), value)
    }

    pub open spec fn wf(&self) -> bool {
        distinct_values(self.entries_spec())
    }

    /// An empty table.
    pub fn new() -> (t: Self)
        ensures
            t.wf(),
            forall|v: Seq<char>| t.occurrences_of(v) == 0,
    {
        let t = ValueTally { entries: Vec::new() };
        assert(t.entries_spec() =~= Seq::<(Seq<char>, usize)>::empty());
        t
    }

    /// Counts one more occurrence of `value`; a count already at `usize::MAX` stays there.
    pub fn record(&mut self, value: &String)
        requires
            old(self).wf(),
        ensures
            final(self).wf(),
            forall|v: Seq<char>|
                #[trigger] final(self).occurrences_of(v) == if v == value@ {
                    if old(self).occurrences_of(v) < usize::MAX {
                        old(self).occurrences_of(v) + 1
                    } else {
                        old(self).occurrences_of(v)
                    }
                } else {
                    old(self).occurrences_of(v)
                },
    {
        let ghost before = self.entries_spec();
        let mut i: usize = 0;
        while i < self.entries.len()
            invariant
                i <= self.entries.len(),
                self.entries_spec() == before,
                before == old(self).entries_spec(),
                self.wf(),
                forall|k: int| 0 <= k < i ==> before[k].0 != value@,
            decreases self.entries.len() - i,
        {
            if self.entries[i].0 == *value {
                let current = self.entries[i].1;
                let next = if current < usize::MAX {
                    current + 1
                } else {
                    usize::MAX
                };
                let key = self.entries[i].0.clone();
                self.entries.set(i, (key, next));
                proof {
                    assert(before[i as int].0 == value@);
                    assert(self.entries_spec() =~= before.update(i as int, (before[i as int].0, next)));
                    lemma_occurrences_at(before, i as int);
                    assert(occurrences(before, value@) == current);
                    assert forall|v: Seq<char>| #[trigger] occurrences(self.entries_spec(), v) == if v == value@ {
                        next as nat
                    } else {
                        occurrences(before, v)
                    } by {
                        lemma_occurrences_update(before, i as int, next, v);
                    }
                }
                return;
            }
            i += 1;
        }
        self.entries.push((value.clone(), 1));
        proof {
            let after = self.entries_spec();
            assert(after =~= before.push((value@, 1usize)));
            assert(after.drop_last() =~= before);
            lemma_occurrences_absent(before, value@);
        }
    }

    /// The distinct values seen and their counts, in the order they were first seen.
    pub fn entries(&self) -> (r: Vec<(String, usize)>)
        ensures
            entries_view(r@) == self.entries_spec(),
    {
        let mut r: Vec<(String, usize)> = Vec::new();
        let mut i: usize = 0;
        while i < self.entries.len()
            invariant
                i <= self.entries.len(),
                entries_view(r@) == self.entries_spec().subrange(0, i as int),
            decreases self.entries.len() - i,
        {
            let e = &self.entries[i];
            let ghost before = r@;
            let key = e.0.clone();
            r.push((key, e.1));
            assert(r@ == before.push((key, e.1)));
            assert(entries_view(r@) =~= entries_view(before).push((key@, e.1)));
            assert(self.entries_spec()[i as int] == (key@, e.1));
            i += 1;
            assert(entries_view(r@) =~= self.entries_spec().subrange(0, i as int));
        }
        assert(self.entries_spec().subrange(0, i as int) =~= self.entries_spec());
        r
    }
}

/// The value of column `index` of a row, empty when the row is shorter.
pub open spec fn value_at(fields: Seq<Seq<char>>, index: usize) -> Seq<char> {
    if index < fields.len() {
        fields[index as int]
    } else {
        seq![]
    }
}

/// Counts, in `tallies[j]`, the value of column `analyze_field_indices[j]` of `fields`, for
/// each `j` that has a table.
pub fn update_field_value_distribution(
    fields: &Vec<String>,
    analyze_field_indices: &Vec<usize>,
    field_value_dist: &mut Vec<ValueTally>,
)
    requires
        forall|j: int| 0 <= j < old(field_value_dist).len() ==> #[trigger] old(field_value_dist)[j].wf(),
    ensures
        final(field_value_dist).len() == old(field_value_dist).len(),
        forall|j: int| 0 <= j < final(field_value_dist).len() ==> #[trigger] final(field_value_dist)[j].wf(),
        forall|j: int, v: Seq<char>|
            0 <= j < final(field_value_dist).len() ==> #[trigger] final(field_value_dist)[j].occurrences_of(v) == if j
                < analyze_field_indices.len() && v == value_at(texts(fields@), analyze_field_indices[j]) {
                if old(field_value_dist)[j].occurrences_of(v) < usize::MAX {
                    old(field_value_dist)[j].occurrences_of(v) + 1
                } else {
                    old(field_value_dist)[j].occurrences_of(v)
                }
            } else {
                old(field_value_dist)[j].occurrences_of(v)
            },
{
    let mut j: usize = 0;
    while j < analyze_field_indices.len() && j < field_value_dist.len()
        invariant
            j <= analyze_field_indices.len(),
            field_value_dist.len() == old(field_value_dist).len(),
            j <= field_value_dist.len(),
            forall|k: int| 0 <= k < field_value_dist.len() ==> #[trigger] field_value_dist[k].wf(),
            forall|k: int, v: Seq<char>|
                0 <= k < field_value_dist.len() ==> #[trigger] field_value_dist[k].occurrences_of(v) == if k < j
                    && v == value_at(texts(fields@), analyze_field_indices[k]) {
                    if old(field_value_dist)[k].occurrences_of(v) < usize::MAX {
                        old(field_value_dist)[k].occurrences_of(v) + 1
                    } else {
                        old(field_value_dist)[k].occurrences_of(v)
                    }
                } else {
                    old(field_value_dist)[k].occurrences_of(v)
                },
        decreases analyze_field_indices.len() - j,
    {
        let index = analyze_field_indices[j];
        let value = if index < fields.len() {
            fields[index].clone()
        } else {
            String::new()
        };
        field_value_dist[j].record(&value);
        j += 1;
    }
}

} // verus!
