//! Column types, the compatibility of a value with a column, and the inference of a schema
//! from rows that already have the expected width.
use vstd::prelude::*;

use crate::numeric::{is_float_literal, is_number_with_separator, with_decimal_point};
use crate::text::texts;

verus! {

/// The kind of value a column of the target schema is taken to hold.
#[derive(Clone, Copy, Debug, PartialEq, Eq, Structural)]
pub enum ColumnType {
    /// Every non-empty value seen parses as a number.
    Numeric,
    /// Some value seen is not a number, or none was seen.
    Text,
    /// No non-empty value seen yet; only exists while sampling.
    Undetermined,
}

/// `value` reads as a number once `decimal_separator` is read as a decimal point.
pub open spec fn is_numeric_text(value: Seq<char>, decimal_separator: char) -> bool {
    is_float_literal(with_decimal_point(value, decimal_separator))
}

/// A value may stand in a column of type `t`.
pub open spec fn compatible(value: Seq<char>, t: ColumnType, decimal_separator: char) -> bool {
    match t {
        ColumnType::Numeric => value.len() == 0 || is_numeric_text(value, decimal_separator),
        _ => true,
    }
}

/// Whether `value` may stand in a column of type `expected_type`.
pub fn is_field_type_compatible(value: &str, expected_type: &ColumnType, decimal_separator: &str) -> (r: bool)
    requires
        decimal_separator@.len() == 1,
    ensures
        r == compatible(value@, *expected_type, decimal_separator@[0]),
{
    match expected_type {
        ColumnType::Text => true,
        ColumnType::Undetermined => true,
        ColumnType::Numeric => {
            if value.is_empty() {
                return true;
            }
            is_number_with_separator(value, decimal_separator.get_char(0))
        },
    }
}

/// The type of a column after one more value is seen in it: an empty value changes nothing,
/// a number keeps the column numeric, anything else makes it text for good.
pub open spec fn observe(t: ColumnType, value: Seq<char>, decimal_separator: char) -> ColumnType {
    if value.len() == 0 {
        t
    } else {
        match t {
            ColumnType::Text => ColumnType::Text,
            _ => if is_numeric_text(value, decimal_separator) {
                ColumnType::Numeric
            } else {
                ColumnType::Text
            },
        }
    }
}

/// The moves a column type may make while sampling: `Undetermined` to anything, `Numeric` to
/// `Text`, and none back.
pub open spec fn may_become(from: ColumnType, to: ColumnType) -> bool {
    from == to || from == ColumnType::Undetermined || (from == ColumnType::Numeric && to == ColumnType::Text)
}

/// The type a column keeps once sampling is over: a column that saw no value is text.
pub open spec fn finalize(t: ColumnType) -> ColumnType {
    if t == ColumnType::Undetermined {
        ColumnType::Text
    } else {
        t
    }
}

/// The column types after one more row is seen.
pub open spec fn observe_row(types: Seq<ColumnType>, row: Seq<Seq<char>>, decimal_separator: char) -> Seq<ColumnType> {
    Seq::new(types.len(), |i: int| observe(types[i], row[i], decimal_separator))
}

/// The column types and the number of rows sampled after the first `rows.len()` rows: a row is
/// sampled when it has `width` fields and fewer than `limit` rows were sampled before it.
pub open spec fn profile(
    rows: Seq<Seq<Seq<char>>>,
    width: nat,
    limit: nat,
    decimal_separator: char,
) -> (Seq<ColumnType>, nat)
    decreases rows.len(),
{
    if rows.len() == 0 {
        (Seq::new(width, |i: int| ColumnType::Undetermined), 0)
    } else {
        let prev = profile(rows.drop_last(), width, limit, decimal_separator);
        let row = rows.last();
        if row.len() == width && prev.1 < limit {
            (observe_row(prev.0, row, decimal_separator), prev.1 + 1)
        } else {
            prev
        }
    }
}

/// The views of a sequence of rows.
pub open spec fn rows_view(rows: Seq<Vec<String>>) -> Seq<Seq<Seq<char>>> {
    rows.map_values(|r: Vec<String>| texts(r@))
}

/// The schema inferred from `rows`.
pub open spec fn inferred_schema(
    rows: Seq<Seq<Seq<char>>>,
    width: nat,
    limit: nat,
    decimal_separator: char,
) -> Seq<ColumnType> {
    profile(rows, width, limit, decimal_separator).0.map_values(|t: ColumnType| finalize(t))
}

/// Column types gathered from a sample of rows of the expected width.
///
/// Each column starts `Undetermined` and only moves as `may_become` allows.
pub struct TypeProfiler {
    types: Vec<ColumnType>,
    sample_limit: usize,
    sampled_rows: usize,
    decimal_separator: char,
}

impl TypeProfiler {
    /// The column types gathered so far.
    pub closed spec fn column_types(&self) -> Seq<ColumnType> {
        self.types@
    }

    /// The number of rows sampled so far.
    pub closed spec fn sampled(&self) -> nat {
        self.sampled_rows as nat
    }

    /// The number of rows after which sampling stops.
    pub closed spec fn limit(&self) -> nat {
        self.sample_limit as nat
    }

    /// The character read as a decimal point in numbers.
    pub closed spec fn separator(&self) -> char {
        self.decimal_separator
    }

    pub closed spec fn wf(&self) -> bool {
        self.sampled_rows <= self.sample_limit
    }

    /// A profiler for rows of `expected_fields` fields that samples at most `sample_limit` rows.
    pub fn new(expected_fields: usize, sample_limit: usize, decimal_separator: char) -> (p: Self)
        ensures
            p.wf(),
            p.column_types() == Seq::new(expected_fields as nat, |i: int| ColumnType::Undetermined),
            p.sampled() == 0,
            p.limit() == sample_limit,
            p.separator() == decimal_separator,
    {
        let mut types: Vec<ColumnType> = Vec::new();
        let mut i: usize = 0;
        while i < expected_fields
            invariant
                i <= expected_fields,
                types@ == Seq::new(i as nat, |k: int| ColumnType::Undetermined),
            decreases expected_fields - i,
        {
            types.push(ColumnType::Undetermined);
            i += 1;
            assert(types@ =~= Seq::new(i as nat, |k: int| ColumnType::Undetermined));
        }
        TypeProfiler { types, sample_limit, sampled_rows: 0, decimal_separator }
    }

    /// Whether the sample is full, so that no further row is taken.
    pub fn is_complete(&self) -> (r: bool)
        requires
            self.wf(),
        ensures
            r == (self.sampled() >= self.limit()),
    {
        self.sampled_rows >= self.sample_limit
    }

    /// The number of rows sampled so far.
    pub fn sampled_rows(&self) -> (r: usize)
        ensures
            r == self.sampled(),
    {
        self.sampled_rows
    }

    /// Takes `row` into the sample when it has the expected width and the sample is not full;
    /// says whether it did.
    pub fn observe_row(&mut self, row: &Vec<String>) -> (taken: bool)
        requires
            old(self).wf(),
        ensures
            final(self).wf(),
            taken == (row.len() == old(self).column_types().len() && old(self).sampled() < old(self).limit()),
            taken ==> final(self).column_types() == observe_row(
                old(self).column_types(),
                texts(row@),
                old(self).separator(),
            ),
            taken ==> final(self).sampled() == old(self).sampled() + 1,
            !taken ==> final(self).column_types() == old(self).column_types(),
            !taken ==> final(self).sampled() == old(self).sampled(),
            final(self).limit() == old(self).limit(),
            final(self).separator() == old(self).separator(),
            final(self).column_types().len() == old(self).column_types().len(),
            forall|i: int|
                0 <= i < old(self).column_types().len() ==> may_become(
                    old(self).column_types()[i],
                    #[trigger] final(self).column_types()[i],
                ),
    {
        if row.len() != self.types.len() || self.sampled_rows >= self.sample_limit {
            return false;
        }
        let ghost before = self.types@;
        let mut i: usize = 0;
        while i < row.len()
            invariant
                row.len() == self.types.len(),
                before.len() == row.len(),
                self.sampled_rows == old(self).sampled_rows,
                self.sample_limit == old(self).sample_limit,
                self.decimal_separator == old(self).decimal_separator,
                old(self).sampled_rows < old(self).sample_limit,
                i <= row.len(),
                forall|k: int| 0 <= k < i ==> #[trigger] self.types@[k] == observe(before[k], row@[k]@, self.decimal_separator),
                forall|k: int| i <= k < row.len() ==> #[trigger] self.types@[k] == before[k],
            decreases row.len() - i,
        {
            let value = &row[i];
            if !value.as_str().is_empty() {
                let current = self.types[i];
                let next = match current {
                    ColumnType::Text => ColumnType::Text,
                    _ => if is_number_with_separator(value.as_str(), self.decimal_separator) {
                        ColumnType::Numeric
                    } else {
                        ColumnType::Text
                    },
                };
                self.types.set(i, next);
            }
            i += 1;
        }
        self.sampled_rows += 1;
        assert(self.types@ =~= observe_row(before, texts(row@), self.decimal_separator));
        true
    }

    /// The finished schema: every column still `Undetermined` becomes `Text`.
    pub fn finish(self) -> (types: Vec<ColumnType>)
        ensures
            types@ == self.column_types().map_values(|t: ColumnType| finalize(t)),
    {
        let mut types = self.types;
        let ghost before = types@;
        let mut i: usize = 0;
        while i < types.len()
            invariant
                types@.len() == before.len(),
                i <= types.len(),
                forall|k: int| 0 <= k < i ==> #[trigger] types@[k] == finalize(before[k]),
                forall|k: int| i <= k < types.len() ==> #[trigger] types@[k] == before[k],
            decreases types.len() - i,
        {
            if types[i] == ColumnType::Undetermined {
                types.set(i, ColumnType::Text);
            }
            i += 1;
        }
        assert(types@ =~= before.map_values(|t: ColumnType| finalize(t)));
        types
    }
}

/// The schema inferred from the first `max_inference_lines` rows of `rows` that have
/// `expected_fields` fields.
pub fn infer_column_types(
    rows: &Vec<Vec<String>>,
    expected_fields: usize,
    max_inference_lines: usize,
    decimal_separator: char,
) -> (types: Vec<ColumnType>)
    ensures
        types@ == inferred_schema(rows_view(rows@), expected_fields as nat, max_inference_lines as nat, decimal_separator),
        types.len() == expected_fields,
{
    let mut profiler = TypeProfiler::new(expected_fields, max_inference_lines, decimal_separator);
    let mut i: usize = 0;
    while i < rows.len() && !profiler.is_complete()
        invariant
            i <= rows.len(),
            profiler.wf(),
            profiler.limit() == max_inference_lines,
            profiler.separator() == decimal_separator,
            (profiler.column_types(), profiler.sampled()) == profile(
                rows_view(rows@.subrange(0, i as int)),
                expected_fields as nat,
                max_inference_lines as nat,
                decimal_separator,
            ),
        decreases rows.len() - i,
    {
        proof {
            let next = rows_view(rows@.subrange(0, i + 1));
            assert(next.drop_last() =~= rows_view(rows@.subrange(0, i as int)));
            assert(next.last() == texts(rows@[i as int]@));
            lemma_profile_len(rows_view(rows@.subrange(0, i as int)), expected_fields as nat, max_inference_lines as nat, decimal_separator);
        }
        profiler.observe_row(&rows[i]);
        i += 1;
    }
    proof {
        assert(rows_view(rows@).subrange(0, i as int) =~= rows_view(rows@.subrange(0, i as int)));
        lemma_profile_full(rows_view(rows@), i as int, expected_fields as nat, max_inference_lines as nat, decimal_separator);
        lemma_profile_len(rows_view(rows@), expected_fields as nat, max_inference_lines as nat, decimal_separator);
    }
    profiler.finish()
}

/// Sampling keeps one type per column.
pub proof fn lemma_profile_len(rows: Seq<Seq<Seq<char>>>, width: nat, limit: nat, decimal_separator: char)
    ensures
        profile(rows, width, limit, decimal_separator).0.len() == width,
    decreases rows.len(),
{
    if rows.len() > 0 {
        lemma_profile_len(rows.drop_last(), width, limit, decimal_separator);
    }
}

/// Once the sample is full, later rows change nothing.
proof fn lemma_profile_full(rows: Seq<Seq<Seq<char>>>, i: int, width: nat, limit: nat, decimal_separator: char)
    requires
        0 <= i <= rows.len(),
        i == rows.len() || profile(rows.subrange(0, i), width, limit, decimal_separator).1 >= limit,
    ensures
        profile(rows, width, limit, decimal_separator) == profile(rows.subrange(0, i), width, limit, decimal_separator),
    decreases rows.len() - i,
{
    if i < rows.len() {
        let next = rows.subrange(0, i + 1);
        assert(next.drop_last() =~= rows.subrange(0, i));
        assert(profile(next, width, limit, decimal_separator) == profile(rows.subrange(0, i), width, limit, decimal_separator));
        lemma_profile_full(rows, i + 1, width, limit, decimal_separator);
    } else {
        assert(rows.subrange(0, i) =~= rows);
    }
}

} // verus!
