//! The search that regroups the fields of an over-wide row into the columns of a schema.
use vstd::prelude::*;

use crate::schema::{compatible, is_field_type_compatible, ColumnType};
use crate::text::{join_with, lemma_join_push, lemma_texts_subrange_push, texts};

verus! {

/// The value of a group: `fields[start..start + size]` joined with the delimiter.
pub open spec fn group_value(fields: Seq<Seq<char>>, start: int, size: int, delimiter: Seq<char>) -> Seq<char> {
    join_with(fields.subrange(start, start + size), delimiter)
}

/// The group of `size` fields from `start` may stand in a column of type `t`.
pub open spec fn compatible_group(
    fields: Seq<Seq<char>>,
    start: int,
    size: int,
    t: ColumnType,
    decimal_separator: char,
    delimiter: Seq<char>,
) -> bool {
    compatible(group_value(fields, start, size, delimiter), t, decimal_separator)
}

/// `sizes` cuts `fields[f..]` into consecutive groups, one for each column of `types[c..]`, each of
/// one field or more and compatible with its column.
pub open spec fn fits(
    fields: Seq<Seq<char>>,
    f: int,
    types: Seq<ColumnType>,
    c: int,
    sizes: Seq<int>,
    decimal_separator: char,
    delimiter: Seq<char>,
) -> bool
    decreases types.len() - c,
{
    if c >= types.len() {
        sizes.len() == 0 && f == fields.len()
    } else {
        &&& sizes.len() > 0
        &&& 1 <= sizes[0]
        &&& f + sizes[0] <= fields.len()
        &&& compatible_group(fields, f, sizes[0], types[c], decimal_separator, delimiter)
        &&& fits(fields, f + sizes[0], types, c + 1, sizes.drop_first(), decimal_separator, delimiter)
    }
}

/// Lexicographic order on sequences of group sizes.
pub open spec fn lex_le(a: Seq<int>, b: Seq<int>) -> bool
    decreases a.len(),
{
    if a.len() == 0 || b.len() == 0 {
        true
    } else if a[0] != b[0] {
        a[0] < b[0]
    } else {
        lex_le(a.drop_first(), b.drop_first())
    }
}

/// `sizes` is the first partition in the search order: it fits, and no fitting partition
/// comes before it lexicographically (smaller groups are tried first, left to right).
pub open spec fn first_fit(
    fields: Seq<Seq<char>>,
    f: int,
    types: Seq<ColumnType>,
    c: int,
    sizes: Seq<int>,
    decimal_separator: char,
    delimiter: Seq<char>,
) -> bool {
    &&& fits(fields, f, types, c, sizes, decimal_separator, delimiter)
    &&& forall|other: Seq<int>|
        fits(fields, f, types, c, other, decimal_separator, delimiter) ==> lex_le(sizes, other)
}

/// Some partition of `fields[f..]` fits `types[c..]`.
pub open spec fn partition_exists(
    fields: Seq<Seq<char>>,
    f: int,
    types: Seq<ColumnType>,
    c: int,
    decimal_separator: char,
    delimiter: Seq<char>,
) -> bool {
    exists|sizes: Seq<int>| fits(fields, f, types, c, sizes, decimal_separator, delimiter)
}

/// The groups that a partition makes, in order.
pub open spec fn groups(fields: Seq<Seq<char>>, f: int, sizes: Seq<int>, delimiter: Seq<char>) -> Seq<Seq<char>>
    decreases sizes.len(),
{
    if sizes.len() == 0 {
        seq![]
    } else {
        seq![group_value(fields, f, sizes[0], delimiter)] + groups(fields, f + sizes[0], sizes.drop_first(), delimiter)
    }
}

/// The columns that the search makes of `fields[f..]` for `types[c..]`: the groups of the first
/// fitting partition, or `None` when no partition fits.
pub open spec fn merge_result(
    fields: Seq<Seq<char>>,
    f: int,
    types: Seq<ColumnType>,
    c: int,
    decimal_separator: char,
    delimiter: Seq<char>,
) -> Option<Seq<Seq<char>>> {
    if exists|sizes: Seq<int>| first_fit(fields, f, types, c, sizes, decimal_separator, delimiter) {
        let sizes = choose|sizes: Seq<int>| first_fit(fields, f, types, c, sizes, decimal_separator, delimiter);
        Some(groups(fields, f, sizes, delimiter))
    } else {
        None
    }
}

/// A fitting partition has one group per remaining column, and its first group leaves at least
/// one field for each later column.
pub proof fn lemma_fits_bounds(
    fields: Seq<Seq<char>>,
    f: int,
    types: Seq<ColumnType>,
    c: int,
    sizes: Seq<int>,
    decimal_separator: char,
    delimiter: Seq<char>,
)
    requires
        0 <= c <= types.len(),
        fits(fields, f, types, c, sizes, decimal_separator, delimiter),
    ensures
        sizes.len() == types.len() - c,
        fields.len() - f >= types.len() - c,
        c < types.len() ==> sizes[0] <= (fields.len() - f) - (types.len() - c - 1),
    decreases types.len() - c,
{
    if c < types.len() {
        lemma_fits_bounds(fields, f + sizes[0], types, c + 1, sizes.drop_first(), decimal_separator, delimiter);
    }
}

/// Two sequences of one length that are each lexicographically below the other are equal.
pub proof fn lemma_lex_le_antisymmetric(a: Seq<int>, b: Seq<int>)
    requires
        a.len() == b.len(),
        lex_le(a, b),
        lex_le(b, a),
    ensures
        a == b,
    decreases a.len(),
{
    if a.len() > 0 {
        lemma_lex_le_antisymmetric(a.drop_first(), b.drop_first());
        assert(a =~= seq![a[0]] + a.drop_first());
        assert(b =~= seq![b[0]] + b.drop_first());
    }
}

/// At most one partition is first in the search order.
pub proof fn lemma_first_fit_unique(
    fields: Seq<Seq<char>>,
    f: int,
    types: Seq<ColumnType>,
    c: int,
    a: Seq<int>,
    b: Seq<int>,
    decimal_separator: char,
    delimiter: Seq<char>,
)
    requires
        0 <= c <= types.len(),
        first_fit(fields, f, types, c, a, decimal_separator, delimiter),
        first_fit(fields, f, types, c, b, decimal_separator, delimiter),
    ensures
        a == b,
{
    lemma_fits_bounds(fields, f, types, c, a, decimal_separator, delimiter);
    lemma_fits_bounds(fields, f, types, c, b, decimal_separator, delimiter);
    lemma_lex_le_antisymmetric(a, b);
}

/// The search for a partition of `original_fields[current_field_index..]` into the columns
/// `expected_types[target_col_index..]`.
///
/// Group sizes are tried from one field upward, columns left to right, and the first partition
/// found is kept: on success its groups are appended to `fixed_line_so_far`; on failure
/// `fixed_line_so_far` is left as it was.
pub fn try_merge_fields(
    original_fields: &[String],
    current_field_index: usize,
    target_col_index: usize,
    expected_types: &[ColumnType],
    decimal_separator: &str,
    delimiter_str: &str,
    fixed_line_so_far: &mut Vec<String>,
) -> (success: bool)
    requires
        current_field_index <= original_fields.len(),
        target_col_index <= expected_types.len(),
        decimal_separator@.len() == 1,
    ensures
        success == partition_exists(
            texts(original_fields@),
            current_field_index as int,
            expected_types@,
            target_col_index as int,
            decimal_separator@[0],
            delimiter_str@,
        ),
        success ==> merge_result(
            texts(original_fields@),
            current_field_index as int,
            expected_types@,
            target_col_index as int,
            decimal_separator@[0],
            delimiter_str@,
        ) == Some(texts(final(fixed_line_so_far)@).skip(old(fixed_line_so_far)@.len() as int)),
        success ==> texts(final(fixed_line_so_far)@).take(old(fixed_line_so_far)@.len() as int)
            == texts(old(fixed_line_so_far)@),
        success ==> final(fixed_line_so_far)@.len() == old(fixed_line_so_far)@.len() + expected_types.len()
            - target_col_index,
        !success ==> final(fixed_line_so_far)@ == old(fixed_line_so_far)@,
    decreases expected_types.len() - target_col_index,
{
    let ghost fv = texts(original_fields@);
    let ghost types = expected_types@;
    let ghost sep = decimal_separator@[0];
    let ghost d = delimiter_str@;
    let ghost f = current_field_index as int;
    let ghost c = target_col_index as int;
    let ghost acc0 = fixed_line_so_far@;
    let m = original_fields.len();
    let n = expected_types.len();
    if target_col_index == n {
        if current_field_index == m {
            proof {
                let e: Seq<int> = seq![];
                assert(fits(fv, f, types, c, e, sep, d));
                assert(first_fit(fv, f, types, c, e, sep, d));
                let s = choose|s: Seq<int>| first_fit(fv, f, types, c, s, sep, d);
                lemma_first_fit_unique(fv, f, types, c, s, e, sep, d);
                assert(texts(fixed_line_so_far@).skip(acc0.len() as int) =~= seq![]);
                assert(texts(fixed_line_so_far@).take(acc0.len() as int) =~= texts(acc0));
            }
            return true;
        } else {
            proof {
                assert forall|s: Seq<int>| !fits(fv, f, types, c, s, sep, d) by {}
            }
            return false;
        }
    }
    if current_field_index == m {
        proof {
            assert forall|s: Seq<int>| !fits(fv, f, types, c, s, sep, d) by {
                if fits(fv, f, types, c, s, sep, d) {
                    lemma_fits_bounds(fv, f, types, c, s, sep, d);
                }
            }
        }
        return false;
    }
    let remaining = m - current_field_index;
    let later_columns = n - target_col_index - 1;
    if remaining <= later_columns {
        proof {
            assert forall|s: Seq<int>| !fits(fv, f, types, c, s, sep, d) by {
                if fits(fv, f, types, c, s, sep, d) {
                    lemma_fits_bounds(fv, f, types, c, s, sep, d);
                }
            }
        }
        return false;
    }
    let max_k = remaining - later_columns;
    let mut candidate = String::new();
    let mut tried: usize = 0;
    while tried < max_k
        invariant
            tried <= max_k,
            max_k == (m - current_field_index) - (n - target_col_index - 1),
            current_field_index < m,
            target_col_index < n,
            m == original_fields.len(),
            n == expected_types.len(),
            fv == texts(original_fields@),
            types == expected_types@,
            sep == decimal_separator@[0],
            decimal_separator@.len() == 1,
            d == delimiter_str@,
            f == current_field_index,
            c == target_col_index,
            fixed_line_so_far@ == acc0,
            acc0 == old(fixed_line_so_far)@,
            tried > 0 ==> candidate@ == group_value(fv, f, tried as int, d),
            tried == 0 ==> candidate@ == Seq::<char>::empty(),
            forall|s: Seq<int>|
                fits(fv, f, types, c, s, sep, d) ==> s[0] > tried,
        decreases max_k - tried,
    {
        let k = tried + 1;
        let end = current_field_index + k;
        proof {
            lemma_texts_subrange_push(original_fields@, f, end - 1);
            assert(fv.subrange(f, end as int) =~= texts(original_fields@.subrange(f, end as int)));
            assert(fv.subrange(f, end - 1) =~= texts(original_fields@.subrange(f, end - 1)));
        }
        if k > 1 {
            candidate.append(delimiter_str);
            proof {
                lemma_join_push(fv.subrange(f, end - 1), d, fv[end - 1]);
                assert(fv.subrange(f, end - 1).push(fv[end - 1]) =~= fv.subrange(f, end as int));
            }
        } else {
            assert(fv.subrange(f, end as int) =~= seq![fv[f]]);
        }
        candidate.append(original_fields[end - 1].as_str());
        assert(candidate@ == group_value(fv, f, k as int, d));
        if is_field_type_compatible(candidate.as_str(), &expected_types[target_col_index], decimal_separator) {
            fixed_line_so_far.push(candidate.clone());
            let ghost acc1 = fixed_line_so_far@;
            assert(texts(acc1) =~= texts(acc0).push(candidate@));
            let found = try_merge_fields(
                original_fields,
                end,
                target_col_index + 1,
                expected_types,
                decimal_separator,
                delimiter_str,
                fixed_line_so_far,
            );
            if found {
                proof {
                    let e = end as int;
                    let c1 = c + 1;
                    let rest = choose|s: Seq<int>| first_fit(fv, e, types, c1, s, sep, d);
                    let sizes = seq![k as int] + rest;
                    assert(sizes.drop_first() =~= rest);
                    assert(fits(fv, f, types, c, sizes, sep, d));
                    assert forall|other: Seq<int>| fits(fv, f, types, c, other, sep, d) implies lex_le(sizes, other) by {
                        assert(sizes[0] == k);
                        assert(other.len() > 0);
                        if other[0] == k {
                            assert(fits(fv, e, types, c1, other.drop_first(), sep, d));
                            assert(lex_le(rest, other.drop_first()));
                        }
                    }
                    assert(first_fit(fv, f, types, c, sizes, sep, d));
                    let chosen = choose|s: Seq<int>| first_fit(fv, f, types, c, s, sep, d);
                    lemma_first_fit_unique(fv, f, types, c, chosen, sizes, sep, d);
                    let tf = texts(fixed_line_so_far@);
                    assert(tf.take(acc1.len() as int) == texts(acc1));
                    assert(tf.len() >= acc1.len());
                    assert(tf[acc0.len() as int] == tf.take(acc1.len() as int)[acc0.len() as int]);
                    assert(tf.skip(acc1.len() as int) == groups(fv, end as int, rest, d));
                    assert(tf.skip(acc0.len() as int) =~= seq![candidate@] + tf.skip(acc1.len() as int));
                    assert(groups(fv, f, sizes, d) == seq![group_value(fv, f, k as int, d)] + groups(fv, e, rest, d));
                    assert(merge_result(fv, f, types, c, sep, d) == Some(groups(fv, f, sizes, d)));
                    assert(tf.skip(acc0.len() as int) == groups(fv, f, sizes, d));
                    assert(texts(acc1).take(acc0.len() as int) =~= texts(acc0));
                    assert(tf.take(acc0.len() as int) == texts(acc0));
                    assert(tf.take(acc0.len() as int) =~= tf.take(acc1.len() as int).take(acc0.len() as int));
                }
                return true;
            }
            fixed_line_so_far.pop();
            proof {
                assert(fixed_line_so_far@ =~= acc0);
                assert forall|s: Seq<int>| fits(fv, f, types, c, s, sep, d) implies s[0] >= k + 1 by {
                    if s[0] == k {
                        assert(fits(fv, end as int, types, c + 1, s.drop_first(), sep, d));
                    }
                }
            }
        }
        tried = k;
    }
    proof {
        assert forall|s: Seq<int>| !fits(fv, f, types, c, s, sep, d) by {
            if fits(fv, f, types, c, s, sep, d) {
                lemma_fits_bounds(fv, f, types, c, s, sep, d);
            }
        }
    }
    false
}

} // verus!
