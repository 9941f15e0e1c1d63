//! One repair decision per row, how it is written out, and the pass over all rows.
use vstd::prelude::*;

use crate::merge::{merge_result, try_merge_fields};
use crate::schema::ColumnType;
use crate::text::{decimal, decimal_string, join_fields, join_with, texts};

verus! {

/// Why a row could not be brought to the expected width.
#[derive(Clone, Copy, Debug, PartialEq, Eq, Structural)]
pub enum UnrepairableReason {
    /// The row has fewer fields than the schema has columns.
    TooFewFields,
    /// No regrouping of the row's fields fits the `expected` columns of the schema; `resolved` is
    /// the number of columns left filled, none since a failed search undoes its partial work.
    MergeFailed { expected: usize, resolved: usize },
    /// The row is too wide and no schema was inferred to regroup it by.
    NoInference,
}

/// What became of one row.
pub enum RepairOutcome {
    /// The row already had the expected width and is kept as it is.
    Exact(Vec<String>),
    /// The row was too wide and its fields were regrouped into the expected width.
    Merged(Vec<String>),
    /// The row is kept with its original fields and marked.
    Unrepairable { fields: Vec<String>, reason: UnrepairableReason },
}

/// What became of one row, as character sequences.
pub enum RowResult {
    Exact(Seq<Seq<char>>),
    Merged(Seq<Seq<char>>),
    Unrepairable(Seq<Seq<char>>, UnrepairableReason),
}

impl View for RepairOutcome {
    type V = RowResult;

    open spec fn view(&self) -> RowResult {
        match self {
            RepairOutcome::Exact(v) => RowResult::Exact(texts(v@)),
            RepairOutcome::Merged(v) => RowResult::Merged(texts(v@)),
            RepairOutcome::Unrepairable { fields, reason } => RowResult::Unrepairable(texts(fields@), *reason),
        }
    }
}

/// The decision for a row of `fields` against `schema`: a row of the schema's width is kept;
/// a narrower one is marked; a wider one is regrouped by the merge search when `merging` is on
/// and marked when the search fails or `merging` is off.
pub open spec fn repair_spec(
    fields: Seq<Seq<char>>,
    schema: Seq<ColumnType>,
    merging: bool,
    decimal_separator: char,
    delimiter: Seq<char>,
) -> RowResult {
    if fields.len() == schema.len() {
        RowResult::Exact(fields)
    } else if fields.len() < schema.len() {
        RowResult::Unrepairable(fields, UnrepairableReason::TooFewFields)
    } else if !merging {
        RowResult::Unrepairable(fields, UnrepairableReason::NoInference)
    } else {
        match merge_result(fields, 0, schema, 0, decimal_separator, delimiter) {
            Some(g) => RowResult::Merged(g),
            None => RowResult::Unrepairable(
                fields,
                UnrepairableReason::MergeFailed { expected: schema.len() as usize, resolved: 0 },
            ),
        }
    }
}

/// The tag that opens the line of a marked row of `count` fields.
pub open spec fn marker_spec(reason: UnrepairableReason, count: nat) -> Seq<char> {
    match reason {
        UnrepairableReason::TooFewFields => "#BAD_FEW ("@ + decimal(count) + " champs)"@,
        UnrepairableReason::MergeFailed { expected, resolved } => "#BAD_MERGE_FAILED ("@ + decimal(count)
            + " champs, attendus "@ + decimal(expected as nat) + ", résolus "@ + decimal(resolved as nat) + ")"@,
        UnrepairableReason::NoInference => "#BAD_EXCESS_NO_INFERENCE ("@ + decimal(count) + " champs)"@,
    }
}

/// The output line for a row: its fields joined with the delimiter, or for a marked row the
/// marker followed by the original fields.
pub open spec fn render_spec(result: RowResult, delimiter: Seq<char>) -> Seq<char> {
    match result {
        RowResult::Exact(v) => join_with(v, delimiter),
        RowResult::Merged(v) => join_with(v, delimiter),
        RowResult::Unrepairable(v, reason) => join_with(seq![marker_spec(reason, v.len())] + v, delimiter),
    }
}

/// Decides what becomes of a row of `fields` against `schema` (see `repair_spec`).
pub fn repair_row(
    fields: Vec<String>,
    schema: &Vec<ColumnType>,
    merging: bool,
    delimiter: &str,
    decimal_separator: &str,
) -> (out: RepairOutcome)
    requires
        decimal_separator@.len() == 1,
    ensures
        out@ == repair_spec(texts(fields@), schema@, merging, decimal_separator@[0], delimiter@),
{
    let n = schema.len();
    if fields.len() == n {
        RepairOutcome::Exact(fields)
    } else if fields.len() < n {
        RepairOutcome::Unrepairable { fields, reason: UnrepairableReason::TooFewFields }
    } else if !merging {
        RepairOutcome::Unrepairable { fields, reason: UnrepairableReason::NoInference }
    } else {
        let mut resolved: Vec<String> = Vec::new();
        let found = try_merge_fields(
            fields.as_slice(),
            0,
            0,
            schema.as_slice(),
            decimal_separator,
            delimiter,
            &mut resolved,
        );
        if found {
            proof {
                assert(texts(resolved@).skip(0) =~= texts(resolved@));
            }
            RepairOutcome::Merged(resolved)
        } else {
            RepairOutcome::Unrepairable {
                fields,
                reason: UnrepairableReason::MergeFailed { expected: n, resolved: resolved.len() },
            }
        }
    }
}

fn append_decimal(s: &mut String, n: usize)
    ensures
        final(s)@ == old(s)@ + decimal(n as nat),
{
    let digits = decimal_string(n);
    s.append(digits.as_str());
}

/// The tag that opens the line of a marked row of `count` fields.
pub fn marker(reason: UnrepairableReason, count: usize) -> (r: String)
    ensures
        r@ == marker_spec(reason, count as nat),
{
    let mut r = String::new();
    match reason {
        UnrepairableReason::TooFewFields => {
            r.append("#BAD_FEW (");
            append_decimal(&mut r, count);
            r.append(" champs)");
        },
        UnrepairableReason::MergeFailed { expected, resolved } => {
            r.append("#BAD_MERGE_FAILED (");
            append_decimal(&mut r, count);
            r.append(" champs, attendus ");
            append_decimal(&mut r, expected);
            r.append(", résolus ");
            append_decimal(&mut r, resolved);
            r.append(")");
        },
        UnrepairableReason::NoInference => {
            r.append("#BAD_EXCESS_NO_INFERENCE (");
            append_decimal(&mut r, count);
            r.append(" champs)");
        },
    }
    assert(r@ =~= marker_spec(reason, count as nat));
    r
}

/// The output line for `outcome` (see `render_spec`).
pub fn render_outcome(outcome: &RepairOutcome, delimiter: &str) -> (line: String)
    ensures
        line@ == render_spec(outcome@, delimiter@),
{
    match outcome {
        RepairOutcome::Exact(v) => join_fields(v.as_slice(), delimiter),
        RepairOutcome::Merged(v) => join_fields(v.as_slice(), delimiter),
        RepairOutcome::Unrepairable { fields, reason } => {
            let mut parts: Vec<String> = Vec::new();
            parts.push(marker(*reason, fields.len()));
            let mut i: usize = 0;
            while i < fields.len()
                invariant
                    i <= fields.len(),
                    texts(parts@) == seq![marker_spec(*reason, fields.len() as nat)] + texts(fields@.subrange(0, i as int)),
                decreases fields.len() - i,
            {
                let ghost before = parts@;
                parts.push(fields[i].clone());
                proof {
                    crate::text::lemma_texts_subrange_push(fields@, 0, i as int);
                    assert(texts(parts@) =~= texts(before).push(fields@[i as int]@));
                }
                i += 1;
                assert(texts(parts@) =~= seq![marker_spec(*reason, fields.len() as nat)] + texts(fields@.subrange(0, i as int)));
            }
            assert(fields@.subrange(0, fields.len() as int) =~= fields@);
            join_fields(parts.as_slice(), delimiter)
        },
    }
}

/// The line for a row under the simple rule: a row of `width` fields is joined as it is; a
/// wider one keeps its first `width - 1` fields and joins all the others into the last column;
/// any other row is marked with its field count.
pub open spec fn tail_merge_spec(fields: Seq<Seq<char>>, width: nat, delimiter: Seq<char>) -> Seq<char> {
    if fields.len() == width {
        join_with(fields, delimiter)
    } else if fields.len() > width && width > 0 {
        join_with(
            fields.take(width - 1).push(join_with(fields.skip(width - 1), delimiter)),
            delimiter,
        )
    } else {
        join_with(seq!["#BAD ("@ + decimal(fields.len()) + " champs)"@] + fields, delimiter)
    }
}

fn clone_range(fields: &[String], lo: usize, hi: usize) -> (r: Vec<String>)
    requires
        lo <= hi <= fields.len(),
    ensures
        texts(r@) == texts(fields@).subrange(lo as int, hi as int),
{
    let mut r: Vec<String> = Vec::new();
    let mut i: usize = lo;
    while i < hi
        invariant
            lo <= i <= hi <= fields.len(),
            texts(r@) == texts(fields@).subrange(lo as int, i as int),
        decreases hi - i,
    {
        let ghost before = r@;
        r.push(fields[i].clone());
        assert(texts(r@) =~= texts(before).push(fields@[i as int]@));
        i += 1;
        assert(texts(r@) =~= texts(fields@).subrange(lo as int, i as int));
    }
    r
}

/// The line for a row under the simple rule (see `tail_merge_spec`).
pub fn tail_merge_line(fields: &Vec<String>, expected_fields: usize, delimiter: &str) -> (line: String)
    ensures
        line@ == tail_merge_spec(texts(fields@), expected_fields as nat, delimiter@),
{
    let n = fields.len();
    if n == expected_fields {
        join_fields(fields.as_slice(), delimiter)
    } else if n > expected_fields && expected_fields > 0 {
        let mut kept = clone_range(fields.as_slice(), 0, expected_fields - 1);
        let rest = clone_range(fields.as_slice(), expected_fields - 1, n);
        let last = join_fields(rest.as_slice(), delimiter);
        let ghost before = kept@;
        kept.push(last);
        proof {
            let fv = texts(fields@);
            assert(fv.take(expected_fields - 1) =~= fv.subrange(0, expected_fields - 1));
            assert(fv.skip(expected_fields - 1) =~= fv.subrange(expected_fields - 1, n as int));
            assert(texts(kept@) =~= texts(before).push(last@));
        }
        join_fields(kept.as_slice(), delimiter)
    } else {
        let mut tag = String::new();
        tag.append("#BAD (");
        let count = decimal_string(n);
        tag.append(count.as_str());
        tag.append(" champs)");
        let mut parts: Vec<String> = Vec::new();
        parts.push(tag);
        let mut rest = clone_range(fields.as_slice(), 0, n);
        parts.append(&mut rest);
        proof {
            assert(texts(fields@).subrange(0, n as int) =~= texts(fields@));
            assert(texts(parts@) =~= seq!["#BAD ("@ + decimal(n as nat) + " champs)"@] + texts(fields@));
        }
        join_fields(parts.as_slice(), delimiter)
    }
}

} // verus!
