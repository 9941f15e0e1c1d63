//! Properties that hold across the functions of the library.
use vstd::prelude::*;

use crate::merge::{
    compatible_group, first_fit, fits, group_value, groups, lemma_fits_bounds, lex_le, merge_result, partition_exists,
};
use crate::repair::{render_spec, repair_spec, RowResult};
use crate::schema::{may_become, observe, observe_row, profile, ColumnType};
use crate::session::{count_row, line_result, RepairConfig, RepairCounts};
use crate::text::{join_with, lemma_join_push};
use crate::tokenizer::split_fields;

verus! {

/// A row that already has the schema's width is kept as it is and written as its fields joined
/// with the delimiter; no merge is made.
pub proof fn lemma_well_formed_row_is_kept(
    fields: Seq<Seq<char>>,
    schema: Seq<ColumnType>,
    merging: bool,
    decimal_separator: char,
    delimiter: Seq<char>,
)
    requires
        fields.len() == schema.len(),
    ensures
        repair_spec(fields, schema, merging, decimal_separator, delimiter) == RowResult::Exact(fields),
        render_spec(repair_spec(fields, schema, merging, decimal_separator, delimiter), delimiter)
            == join_with(fields, delimiter),
{
}

/// A line whose fields already number the schema's width is written as its fields joined with
/// the delimiter, and is counted as correct, not as fixed.
pub proof fn lemma_well_formed_line_is_kept(
    line: Seq<char>,
    config: RepairConfig,
    schema: Seq<ColumnType>,
    counts: RepairCounts,
)
    requires
        split_fields(line, config.delimiter).len() == schema.len(),
        counts.consistent(),
        counts.total < usize::MAX,
    ensures
        line_result(line, config, schema) == RowResult::Exact(split_fields(line, config.delimiter)),
        render_spec(line_result(line, config, schema), seq![config.delimiter])
            == join_with(split_fields(line, config.delimiter), seq![config.delimiter]),
        count_row(counts, line_result(line, config, schema)).fixed == counts.fixed,
        count_row(counts, line_result(line, config, schema)).ok == counts.ok + 1,
{
}

/// The groups of a partition number its sizes.
pub proof fn lemma_groups_len(fields: Seq<Seq<char>>, f: int, sizes: Seq<int>, delimiter: Seq<char>)
    ensures
        groups(fields, f, sizes, delimiter).len() == sizes.len(),
    decreases sizes.len(),
{
    if sizes.len() > 0 {
        lemma_groups_len(fields, f + sizes[0], sizes.drop_first(), delimiter);
    }
}

/// Repairing the fields of a regrouped row again keeps them as they are, with no further
/// merge, and writes the same line.
pub proof fn lemma_repair_idempotent(
    fields: Seq<Seq<char>>,
    schema: Seq<ColumnType>,
    merging: bool,
    decimal_separator: char,
    delimiter: Seq<char>,
)
    requires
        repair_spec(fields, schema, merging, decimal_separator, delimiter) is Merged,
    ensures
        ({
            let out = repair_spec(fields, schema, merging, decimal_separator, delimiter)->Merged_0;
            &&& repair_spec(out, schema, merging, decimal_separator, delimiter) == RowResult::Exact(out)
            &&& render_spec(repair_spec(out, schema, merging, decimal_separator, delimiter), delimiter)
                == render_spec(repair_spec(fields, schema, merging, decimal_separator, delimiter), delimiter)
        }),
{
    let sizes = choose|sizes: Seq<int>| first_fit(fields, 0, schema, 0, sizes, decimal_separator, delimiter);
    lemma_fits_bounds(fields, 0, schema, 0, sizes, decimal_separator, delimiter);
    lemma_groups_len(fields, 0, sizes, delimiter);
}

/// Among the integers in `1..=k`, some smallest one satisfies `p`, given that `k` does.
proof fn lemma_least_witness(p: spec_fn(int) -> bool, k: int) -> (m: int)
    requires
        1 <= k,
        p(k),
    ensures
        1 <= m <= k,
        p(m),
        forall|j: int| 1 <= j < m ==> !#[trigger] p(j),
    decreases k,
{
    if exists|j: int| 1 <= j < k && #[trigger] p(j) {
        let j = choose|j: int| 1 <= j < k && #[trigger] p(j);
        lemma_least_witness(p, j)
    } else {
        k
    }
}

/// Whenever some partition fits, a first one in the search order exists.
pub proof fn lemma_first_fit_exists(
    fields: Seq<Seq<char>>,
    f: int,
    types: Seq<ColumnType>,
    c: int,
    decimal_separator: char,
    delimiter: Seq<char>,
)
    requires
        0 <= c <= types.len(),
        partition_exists(fields, f, types, c, decimal_separator, delimiter),
    ensures
        exists|sizes: Seq<int>| first_fit(fields, f, types, c, sizes, decimal_separator, delimiter),
    decreases types.len() - c,
{
    let s0 = choose|s: Seq<int>| fits(fields, f, types, c, s, decimal_separator, delimiter);
    if c == types.len() {
        assert(first_fit(fields, f, types, c, s0, decimal_separator, delimiter));
    } else {
        let p = |k: int|
            1 <= k && f + k <= fields.len() && compatible_group(fields, f, k, types[c], decimal_separator, delimiter)
                && partition_exists(fields, f + k, types, c + 1, decimal_separator, delimiter);
        assert(fits(fields, f + s0[0], types, c + 1, s0.drop_first(), decimal_separator, delimiter));
        assert(p(s0[0]));
        let k0 = lemma_least_witness(p, s0[0]);
        let f1 = f + k0;
        let c1 = c + 1;
        lemma_first_fit_exists(fields, f1, types, c1, decimal_separator, delimiter);
        let rest = choose|r: Seq<int>| first_fit(fields, f1, types, c1, r, decimal_separator, delimiter);
        let sizes = seq![k0] + rest;
        assert(sizes.drop_first() =~= rest);
        assert(fits(fields, f, types, c, sizes, decimal_separator, delimiter));
        assert forall|other: Seq<int>| fits(fields, f, types, c, other, decimal_separator, delimiter) implies lex_le(
            sizes,
            other,
        ) by {
            assert(fits(fields, f + other[0], types, c + 1, other.drop_first(), decimal_separator, delimiter));
            assert(p(other[0]));
            if other[0] == k0 {
                assert(lex_le(rest, other.drop_first()));
            }
        }
        assert(first_fit(fields, f, types, c, sizes, decimal_separator, delimiter));
    }
}

/// The merge search succeeds exactly when some partition of the fields fits the schema, and
/// then returns the groups of the partition that comes first in the search order.
pub proof fn lemma_merge_iff_partition_exists(
    fields: Seq<Seq<char>>,
    schema: Seq<ColumnType>,
    decimal_separator: char,
    delimiter: Seq<char>,
)
    ensures
        merge_result(fields, 0, schema, 0, decimal_separator, delimiter) is Some <==> partition_exists(
            fields,
            0,
            schema,
            0,
            decimal_separator,
            delimiter,
        ),
        merge_result(fields, 0, schema, 0, decimal_separator, delimiter) matches Some(g) ==> exists|sizes: Seq<int>|
            {
                &&& fits(fields, 0, schema, 0, sizes, decimal_separator, delimiter)
                &&& (forall|other: Seq<int>|
                    fits(fields, 0, schema, 0, other, decimal_separator, delimiter) ==> lex_le(sizes, other))
                &&& g == groups(fields, 0, sizes, delimiter)
            },
{
    if partition_exists(fields, 0, schema, 0, decimal_separator, delimiter) {
        lemma_first_fit_exists(fields, 0, schema, 0, decimal_separator, delimiter);
    }
}

/// Joining two non-empty runs of parts is joining each and putting the delimiter between them.
pub proof fn lemma_join_concat(a: Seq<Seq<char>>, b: Seq<Seq<char>>, delimiter: Seq<char>)
    requires
        a.len() > 0,
        b.len() > 0,
    ensures
        join_with(a + b, delimiter) == join_with(a, delimiter) + delimiter + join_with(b, delimiter),
    decreases b.len(),
{
    if b.len() == 1 {
        assert(a + b =~= a.push(b[0]));
        lemma_join_push(a, delimiter, b[0]);
    } else {
        let init = b.drop_last();
        lemma_join_concat(a, init, delimiter);
        assert(a + b =~= (a + init).push(b.last()));
        lemma_join_push(a + init, delimiter, b.last());
        lemma_join_push(init, delimiter, b.last());
        assert(init.push(b.last()) =~= b);
        assert(join_with(a, delimiter) + delimiter + join_with(init, delimiter) + delimiter + b.last() =~= join_with(
            a,
            delimiter,
        ) + delimiter + (join_with(init, delimiter) + delimiter + b.last()));
    }
}

/// The groups of a fitting partition, joined, read as the fields they cover, joined.
pub proof fn lemma_groups_join(
    fields: Seq<Seq<char>>,
    f: int,
    types: Seq<ColumnType>,
    c: int,
    sizes: Seq<int>,
    decimal_separator: char,
    delimiter: Seq<char>,
)
    requires
        0 <= c < types.len(),
        0 <= f,
        fits(fields, f, types, c, sizes, decimal_separator, delimiter),
    ensures
        join_with(groups(fields, f, sizes, delimiter), delimiter) == join_with(
            fields.subrange(f, fields.len() as int),
            delimiter,
        ),
    decreases types.len() - c,
{
    let k = sizes[0];
    let rest = sizes.drop_first();
    let g0 = group_value(fields, f, k, delimiter);
    let later = groups(fields, f + k, rest, delimiter);
    assert(groups(fields, f, sizes, delimiter) == seq![g0] + later);
    assert(fits(fields, f + k, types, c + 1, rest, decimal_separator, delimiter));
    if c + 1 == types.len() {
        assert(rest.len() == 0 && f + k == fields.len());
        assert(seq![g0] + later =~= seq![g0]);
    } else {
        lemma_groups_join(fields, f + k, types, c + 1, rest, decimal_separator, delimiter);
        lemma_fits_bounds(fields, f + k, types, c + 1, rest, decimal_separator, delimiter);
        lemma_groups_len(fields, f + k, rest, delimiter);
        lemma_join_concat(seq![g0], later, delimiter);
        lemma_join_concat(fields.subrange(f, f + k), fields.subrange(f + k, fields.len() as int), delimiter);
        assert(fields.subrange(f, f + k) + fields.subrange(f + k, fields.len() as int) =~= fields.subrange(
            f,
            fields.len() as int,
        ));
    }
}

/// Regrouping never changes the text of a row: the merged columns, joined with the delimiter,
/// read exactly as the original fields joined with it.
pub proof fn lemma_merge_keeps_text(
    fields: Seq<Seq<char>>,
    schema: Seq<ColumnType>,
    decimal_separator: char,
    delimiter: Seq<char>,
)
    requires
        merge_result(fields, 0, schema, 0, decimal_separator, delimiter) is Some,
    ensures
        join_with(merge_result(fields, 0, schema, 0, decimal_separator, delimiter)->0, delimiter) == join_with(
            fields,
            delimiter,
        ),
{
    let sizes = choose|sizes: Seq<int>| first_fit(fields, 0, schema, 0, sizes, decimal_separator, delimiter);
    assert(fields.subrange(0, fields.len() as int) =~= fields);
    if schema.len() > 0 {
        lemma_groups_join(fields, 0, schema, 0, sizes, decimal_separator, delimiter);
    } else {
        assert(fields.len() == 0);
    }
}

/// Seeing one more value moves a column type only as `may_become` allows.
pub proof fn lemma_observe_moves_forward(t: ColumnType, value: Seq<char>, decimal_separator: char)
    ensures
        may_become(t, observe(t, value, decimal_separator)),
{
}

/// The moves of a column type compose: a column never comes back to a type it left.
pub proof fn lemma_may_become_transitive(a: ColumnType, b: ColumnType, c: ColumnType)
    requires
        may_become(a, b),
        may_become(b, c),
    ensures
        may_become(a, c),
{
}

/// Over a whole sample, a column's type after the first `i` rows can only have moved forward by
/// the first `j >= i` rows.
pub proof fn lemma_profile_monotonic(
    rows: Seq<Seq<Seq<char>>>,
    width: nat,
    limit: nat,
    decimal_separator: char,
    i: int,
    j: int,
    column: int,
)
    requires
        0 <= i <= j <= rows.len(),
        0 <= column < width,
    ensures
        may_become(
            profile(rows.subrange(0, i), width, limit, decimal_separator).0[column],
            profile(rows.subrange(0, j), width, limit, decimal_separator).0[column],
        ),
    decreases j - i,
{
    if i < j {
        lemma_profile_monotonic(rows, width, limit, decimal_separator, i, j - 1, column);
        let prefix = rows.subrange(0, j);
        assert(prefix.drop_last() =~= rows.subrange(0, j - 1));
        let prev = profile(rows.subrange(0, j - 1), width, limit, decimal_separator);
        crate::schema::lemma_profile_len(rows.subrange(0, j - 1), width, limit, decimal_separator);
        let before = prev.0[column];
        let after = profile(prefix, width, limit, decimal_separator).0[column];
        if prefix.last().len() == width && prev.1 < limit {
            assert(after == observe_row(prev.0, prefix.last(), decimal_separator)[column]);
            lemma_observe_moves_forward(before, prefix.last()[column], decimal_separator);
        }
        lemma_may_become_transitive(
            profile(rows.subrange(0, i), width, limit, decimal_separator).0[column],
            before,
            after,
        );
    }
}

} // verus!
