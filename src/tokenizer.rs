//! Splitting a raw line into fields, honouring quoted spans.
use vstd::prelude::*;

use crate::text::{string_of, texts};

verus! {

/// The first position at or after `i` that does not hold a quote character.
pub open spec fn leading_quotes_end(s: Seq<char>, i: int) -> int
    decreases s.len() - i,
{
    if 0 <= i < s.len() && s[i] == '"' {
        leading_quotes_end(s, i + 1)
    } else {
        i
    }
}

/// The start of the run of quote characters that ends at position `j`.
pub open spec fn trailing_quotes_start(s: Seq<char>, j: int) -> int
    decreases j,
{
    if 0 < j <= s.len() && s[j - 1] == '"' {
        trailing_quotes_start(s, j - 1)
    } else {
        j
    }
}

/// `s` without the quote characters at its start and at its end.
pub open spec fn trim_quotes(s: Seq<char>) -> Seq<char> {
    let a = leading_quotes_end(s, 0);
    if a >= s.len() {
        seq![]
    } else {
        s.subrange(a, trailing_quotes_start(s, s.len() as int))
    }
}

/// The state of the scan after the first `i` characters of `line`: the fields closed so far,
/// the characters of the open field, and whether a quoted span is open.
pub open spec fn scan(line: Seq<char>, delimiter: char, i: int) -> (Seq<Seq<char>>, Seq<char>, bool)
    decreases i,
{
    if i <= 0 {
        (seq![], seq![], false)
    } else {
        let prev = scan(line, delimiter, i - 1);
        let ch = line[i - 1];
        if ch == '"' {
            (prev.0, prev.1.push(ch), !prev.2)
        } else if ch == delimiter && !prev.2 {
            (prev.0.push(trim_quotes(prev.1)), seq![], prev.2)
        } else {
            (prev.0, prev.1.push(ch), prev.2)
        }
    }
}

/// The fields of `line`: a delimiter outside a quoted span ends a field, a quote character opens
/// or closes a span and is kept, and each field loses the quote characters at its ends.
pub open spec fn split_fields(line: Seq<char>, delimiter: char) -> Seq<Seq<char>> {
    let last = scan(line, delimiter, line.len() as int);
    last.0.push(trim_quotes(last.1))
}

fn trim_quotes_exec(s: &Vec<char>) -> (r: Vec<char>)
    ensures
        r@ == trim_quotes(s@),
{
    let mut a: usize = 0;
    while a < s.len() && s[a] == '"'
        invariant
            a <= s.len(),
            leading_quotes_end(s@, a as int) == leading_quotes_end(s@, 0),
        decreases s.len() - a,
    {
        a += 1;
    }
    if a >= s.len() {
        return Vec::new();
    }
    let mut b: usize = s.len();
    while b > 0 && s[b - 1] == '"'
        invariant
            b <= s.len(),
            a < s.len(),
            s@[a as int] != '"',
            a < b,
            trailing_quotes_start(s@, b as int) == trailing_quotes_start(s@, s.len() as int),
        decreases b,
    {
        b -= 1;
    }
    let mut r: Vec<char> = Vec::new();
    let mut i: usize = a;
    while i < b
        invariant
            a <= i <= b <= s.len(),
            r@ == s@.subrange(a as int, i as int),
        decreases b - i,
    {
        r.push(s[i]);
        i += 1;
        assert(r@ =~= s@.subrange(a as int, i as int));
    }
    r
}

/// Splits `line` into fields at each `delimiter` that stands outside a quoted span.
pub fn split_line(line: &str, delimiter: char) -> (fields: Vec<String>)
    ensures
        texts(fields@) == split_fields(line@, delimiter),
        fields.len() >= 1,
{
    let mut fields: Vec<String> = Vec::new();
    let mut current: Vec<char> = Vec::new();
    let mut in_quotes = false;
    for c in it: line.chars()
        invariant
            it.seq() == line@,
            scan(line@, delimiter, it.index() as int) == (texts(fields@), current@, in_quotes),
    {
        if c == '"' {
            in_quotes = !in_quotes;
            current.push(c);
        } else if c == delimiter && !in_quotes {
            let trimmed = trim_quotes_exec(&current);
            fields.push(string_of(&trimmed));
            current = Vec::new();
        } else {
            current.push(c);
        }
        assert(texts(fields@) =~= scan(line@, delimiter, it.index() + 1).0);
        assert(current@ =~= scan(line@, delimiter, it.index() + 1).1);
    }
    let trimmed = trim_quotes_exec(&current);
    fields.push(string_of(&trimmed));
    assert(texts(fields@) =~= split_fields(line@, delimiter));
    fields
}

} // verus!
