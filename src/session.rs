//! The configuration of a repair pass and the state carried from row to row.
use vstd::prelude::*;

use crate::repair::{render_outcome, render_spec, repair_row, repair_spec, RepairOutcome, RowResult, UnrepairableReason};
use crate::schema::ColumnType;
use crate::text::push_char;
use crate::tokenizer::{split_fields, split_line};

verus! {

/// A configuration that cannot drive a pass.
#[derive(Clone, Copy, Debug, PartialEq, Eq, Structural)]
pub enum ConfigError {
    /// The field delimiter is empty.
    EmptyDelimiter,
    /// The expected number of fields is zero.
    NoExpectedFields,
    /// The decimal separator is empty.
    EmptyDecimalSeparator,
}

/// The character a delimiter argument stands for: the two characters `\t` stand for a tab,
/// anything else for its first character.
pub open spec fn delimiter_of(text: Seq<char>) -> Option<char> {
    if text == seq!['\\', 't'] {
        Some('\t')
    } else if text.len() == 0 {
        None
    } else {
        Some(text[0])
    }
}

/// The character a delimiter argument stands for (see `delimiter_of`).
pub fn parse_delimiter(text: &str) -> (r: Option<char>)
    ensures
        r == delimiter_of(text@),
{
    let chars = crate::text::chars_of(text);
    if chars.len() == 2 && chars[0] == '\\' && chars[1] == 't' {
        assert(text@ =~= seq!['\\', 't']);
        Some('\t')
    } else if chars.len() == 0 {
        None
    } else {
        Some(chars[0])
    }
}

/// The settings of a repair pass.
#[derive(Clone, Copy, Debug)]
pub struct RepairConfig {
    /// Separates fields, both when a line is split and when fields are joined.
    pub delimiter: char,
    /// The number of columns of the schema.
    pub expected_fields: usize,
    /// Read as a decimal point when a value is tested for being a number.
    pub decimal_separator: char,
    /// How many rows of the expected width are sampled to infer the schema; zero turns inference,
    /// and with it the regrouping of over-wide rows, off.
    pub inference_sample_size: usize,
    /// The pass stops after this many rows, when set.
    pub row_limit: Option<usize>,
}

impl RepairConfig {
    /// A configuration from its textual settings; the delimiter and decimal separator are read
    /// with `delimiter_of` and by their first character.
    pub fn new(
        delimiter: &str,
        expected_fields: usize,
        decimal_separator: &str,
        inference_sample_size: usize,
        row_limit: Option<usize>,
    ) -> (r: Result<RepairConfig, ConfigError>)
        ensures
            delimiter_of(delimiter@) is None ==> r == Err::<RepairConfig, ConfigError>(ConfigError::EmptyDelimiter),
            delimiter_of(delimiter@) is Some && expected_fields == 0 ==> r == Err::<RepairConfig, ConfigError>(
                ConfigError::NoExpectedFields,
            ),
            delimiter_of(delimiter@) is Some && expected_fields > 0 && decimal_separator@.len() == 0 ==> r == Err::<
                RepairConfig,
                ConfigError,
            >(ConfigError::EmptyDecimalSeparator),
            r is Ok <==> (delimiter_of(delimiter@) is Some && expected_fields > 0 && decimal_separator@.len() > 0),
            r matches Ok(c) ==> (c.delimiter == delimiter_of(delimiter@)->0 && c.expected_fields == expected_fields
                && c.decimal_separator == decimal_separator@[0] && c.inference_sample_size == inference_sample_size
                && c.row_limit == row_limit),
    {
        let d = match parse_delimiter(delimiter) {
            Some(c) => c,
            None => return Err(ConfigError::EmptyDelimiter),
        };
        if expected_fields == 0 {
            return Err(ConfigError::NoExpectedFields);
        }
        let chars = crate::text::chars_of(decimal_separator);
        if chars.len() == 0 {
            return Err(ConfigError::EmptyDecimalSeparator);
        }
        Ok(RepairConfig {
            delimiter: d,
            expected_fields,
            decimal_separator: chars[0],
            inference_sample_size,
            row_limit,
        })
    }
}

/// How many rows of each kind a pass has seen.
#[derive(Clone, Copy, Debug, PartialEq, Eq, Structural)]
pub struct RepairCounts {
    pub total: usize,
    /// Rows that already had the expected width.
    pub ok: usize,
    /// Over-wide rows regrouped to the expected width.
    pub fixed: usize,
    /// Rows with too few fields.
    pub too_few: usize,
    /// Over-wide rows that no regrouping fits.
    pub merge_failed: usize,
    /// Over-wide rows met while inference is off.
    pub excess_no_inference: usize,
}

impl RepairCounts {
    /// Every row is counted under exactly one kind.
    pub open spec fn consistent(&self) -> bool {
        self.total == self.ok + self.fixed + self.too_few + self.merge_failed + self.excess_no_inference
    }

    pub open spec fn bad_spec(&self) -> int {
        self.too_few + self.merge_failed + self.excess_no_inference
    }

    /// The rows that were marked, whatever the reason.
    pub fn bad(&self) -> (r: usize)
        requires
            self.consistent(),
        ensures
            r == self.bad_spec(),
    {
        self.too_few + self.merge_failed + self.excess_no_inference
    }
}

/// The counts after one more row with the given result.
pub open spec fn count_row(c: RepairCounts, r: RowResult) -> RepairCounts {
    let c1 = RepairCounts { total: (c.total + 1) as usize, ..c };
    match r {
        RowResult::Exact(_) => RepairCounts { ok: (c.ok + 1) as usize, ..c1 },
        RowResult::Merged(_) => RepairCounts { fixed: (c.fixed + 1) as usize, ..c1 },
        RowResult::Unrepairable(_, UnrepairableReason::TooFewFields) => RepairCounts {
            too_few: (c.too_few + 1) as usize,
            ..c1
        },
        RowResult::Unrepairable(_, UnrepairableReason::MergeFailed { .. }) => RepairCounts {
            merge_failed: (c.merge_failed + 1) as usize,
            ..c1
        },
        RowResult::Unrepairable(_, UnrepairableReason::NoInference) => RepairCounts {
            excess_no_inference: (c.excess_no_inference + 1) as usize,
            ..c1
        },
    }
}

/// What the pass makes of one raw line.
pub open spec fn line_result(line: Seq<char>, config: RepairConfig, schema: Seq<ColumnType>) -> RowResult {
    repair_spec(
        split_fields(line, config.delimiter),
        schema,
        config.inference_sample_size > 0,
        config.decimal_separator,
        seq![config.delimiter],
    )
}

/// A repair pass over the rows of one input, with its finished schema and its counts.
pub struct RepairSession {
    config: RepairConfig,
    schema: Vec<ColumnType>,
    delimiter_text: String,
    separator_text: String,
    counts: RepairCounts,
}

impl RepairSession {
    pub closed spec fn config_spec(&self) -> RepairConfig {
        self.config
    }

    pub closed spec fn schema_spec(&self) -> Seq<ColumnType> {
        self.schema@
    }

    pub closed spec fn counts_spec(&self) -> RepairCounts {
        self.counts
    }

    pub closed spec fn wf(&self) -> bool {
        &&& self.schema@.len() == self.config.expected_fields
        &&& self.delimiter_text@ == seq![self.config.delimiter]
        &&& self.separator_text@ == seq![self.config.decimal_separator]
        &&& self.counts.consistent()
    }

    /// The pass may take another row: the row limit is not reached and the counts have room.
    pub open spec fn accepts_more_spec(&self) -> bool {
        &&& self.counts_spec().total < usize::MAX
        &&& self.config_spec().row_limit matches Some(limit) ==> self.counts_spec().total < limit
    }

    /// A pass with no rows seen yet.
    pub fn new(config: RepairConfig, schema: Vec<ColumnType>) -> (s: Self)
        requires
            schema.len() == config.expected_fields,
        ensures
            s.wf(),
            s.config_spec() == config,
            s.schema_spec() == schema@,
            s.counts_spec() == (RepairCounts {
                total: 0,
                ok: 0,
                fixed: 0,
                too_few: 0,
                merge_failed: 0,
                excess_no_inference: 0,
            }),
    {
        let mut delimiter_text = String::new();
        push_char(&mut delimiter_text, config.delimiter);
        let mut separator_text = String::new();
        push_char(&mut separator_text, config.decimal_separator);
        RepairSession {
            config,
            schema,
            delimiter_text,
            separator_text,
            counts: RepairCounts { total: 0, ok: 0, fixed: 0, too_few: 0, merge_failed: 0, excess_no_inference: 0 },
        }
    }

    /// Whether the pass may take another row (see `accepts_more_spec`).
    pub fn accepts_more(&self) -> (r: bool)
        ensures
            r == self.accepts_more_spec(),
    {
        if self.counts.total == usize::MAX {
            return false;
        }
        match self.config.row_limit {
            Some(limit) => self.counts.total < limit,
            None => true,
        }
    }

    /// The counts so far.
    pub fn counts(&self) -> (c: RepairCounts)
        requires
            self.wf(),
        ensures
            c == self.counts_spec(),
            c.consistent(),
    {
        self.counts
    }

    /// Repairs one raw line and returns the line to write for it; the row is counted under its kind.
    pub fn repair_line(&mut self, line: &str) -> (out: String)
        requires
            old(self).wf(),
            old(self).accepts_more_spec(),
        ensures
            final(self).wf(),
            final(self).config_spec() == old(self).config_spec(),
            final(self).schema_spec() == old(self).schema_spec(),
            out@ == render_spec(
                line_result(line@, old(self).config_spec(), old(self).schema_spec()),
                seq![old(self).config_spec().delimiter],
            ),
            final(self).counts_spec() == count_row(
                old(self).counts_spec(),
                line_result(line@, old(self).config_spec(), old(self).schema_spec()),
            ),
    {
        let fields = split_line(line, self.config.delimiter);
        let outcome = repair_row(
            fields,
            &self.schema,
            self.config.inference_sample_size > 0,
            self.delimiter_text.as_str(),
            self.separator_text.as_str(),
        );
        let out = render_outcome(&outcome, self.delimiter_text.as_str());
        let c = self.counts;
        let total = c.total + 1;
        self.counts = match &outcome {
            RepairOutcome::Exact(_) => RepairCounts { total, ok: c.ok + 1, ..c },
            RepairOutcome::Merged(_) => RepairCounts { total, fixed: c.fixed + 1, ..c },
            RepairOutcome::Unrepairable { reason, .. } => match reason {
                UnrepairableReason::TooFewFields => RepairCounts { total, too_few: c.too_few + 1, ..c },
                UnrepairableReason::MergeFailed { .. } => RepairCounts { total, merge_failed: c.merge_failed + 1, ..c },
                UnrepairableReason::NoInference => RepairCounts {
                    total,
                    excess_no_inference: c.excess_no_inference + 1,
                    ..c
                },
            },
        };
        out
    }
}

} // verus!
