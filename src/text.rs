//! Character sequences: reading and building strings, joining fields, decimal numerals.
use vstd::prelude::*;
use vstd::string::*;

verus! {

/// The character sequences held by a sequence of strings.
pub open spec fn texts(v: Seq<String>) -> Seq<Seq<char>> {
    v.map_values(|s: String| s@)
}

/// `parts` written one after another with `delimiter` between neighbours.
pub open spec fn join_with(parts: Seq<Seq<char>>, delimiter: Seq<char>) -> Seq<char>
    decreases parts.len(),
{
    if parts.len() == 0 {
        seq![]
    } else if parts.len() == 1 {
        parts[0]
    } else {
        join_with(parts.drop_last(), delimiter) + delimiter + parts.last()
    }
}

/// Joining one more part adds the delimiter and that part.
pub proof fn lemma_join_push(parts: Seq<Seq<char>>, delimiter: Seq<char>, p: Seq<char>)
    requires
        parts.len() > 0,
    ensures
        join_with(parts.push(p), delimiter) == join_with(parts, delimiter) + delimiter + p,
{
    assert(parts.push(p).drop_last() =~= parts);
}

/// The views of the strings of `v[lo..hi]`, extended by one.
pub proof fn lemma_texts_subrange_push(v: Seq<String>, lo: int, hi: int)
    requires
        0 <= lo <= hi < v.len(),
    ensures
        texts(v.subrange(lo, hi + 1)) == texts(v.subrange(lo, hi)).push(v[hi]@),
        texts(v.subrange(lo, hi + 1)).len() == hi + 1 - lo,
{
    assert(texts(v.subrange(lo, hi + 1)) =~= texts(v.subrange(lo, hi)).push(v[hi]@));
}

/// Relies on `String::push`: appends one character.
#[verifier::external_body]
pub(crate) fn push_char(s: &mut String, c: char)
    ensures
        final(s)@ == old(s)@.push(c),
{
    s.push(c);
}

/// The characters of a string, in order.
pub fn chars_of(s: &str) -> (r: Vec<char>)
    ensures
        r@ == s@,
{
    let mut r: Vec<char> = Vec::new();
    for c in it: s.chars()
        invariant
            r@ == it.seq().subrange(0, it.index() as int),
    {
        r.push(c);
    }
    r
}

/// A string holding the given characters.
pub fn string_of(v: &Vec<char>) -> (r: String)
    ensures
        r@ == v@,
{
    let mut r = String::new();
    let mut i: usize = 0;
    while i < v.len()
        invariant
            i <= v.len(),
            r@ == v@.subrange(0, i as int),
        decreases v.len() - i,
    {
        push_char(&mut r, v[i]);
        i += 1;
        assert(r@ =~= v@.subrange(0, i as int));
    }
    assert(v@.subrange(0, v.len() as int) =~= v@);
    r
}

/// The decimal digit `d`.
pub open spec fn digit_char(d: nat) -> char {
    seq!['0', '1', '2', '3', '4', '5', '6', '7', '8', '9'][d as int]
}

/// The decimal representation of `n`, without leading zeros.
pub open spec fn decimal(n: nat) -> Seq<char>
    decreases n,
{
    if n < 10 {
        seq![digit_char(n)]
    } else {
        decimal(n / 10).push(digit_char(n % 10))
    }
}

fn digit_exec(d: usize) -> (c: char)
    requires
        d < 10,
    ensures
        c == digit_char(d as nat),
{
    let digits = ['0', '1', '2', '3', '4', '5', '6', '7', '8', '9'];
    assert(digits@ == seq!['0', '1', '2', '3', '4', '5', '6', '7', '8', '9']);
    digits[d]
}

/// The decimal representation of `n`.
pub fn decimal_string(n: usize) -> (r: String)
    ensures
        r@ == decimal(n as nat),
{
    let mut suffix: Vec<char> = Vec::new();
    let mut m = n;
    while m >= 10
        invariant
            decimal(n as nat) == decimal(m as nat) + suffix@,
        decreases m,
    {
        let ghost old_suffix = suffix@;
        suffix.insert(0, digit_exec(m % 10));
        assert(decimal(m as nat) == decimal((m / 10) as nat).push(digit_char((m % 10) as nat)));
        assert(decimal((m / 10) as nat).push(digit_char((m % 10) as nat)) + old_suffix =~= decimal((m / 10) as nat) + suffix@);
        m = m / 10;
    }
    suffix.insert(0, digit_exec(m));
    assert(decimal(m as nat) + suffix@.drop_first() =~= suffix@);
    string_of(&suffix)
}

/// The strings of `fields`, with `delimiter` between neighbours.
pub fn join_fields(fields: &[String], delimiter: &str) -> (r: String)
    ensures
        r@ == join_with(texts(fields@), delimiter@),
{
    let mut r = String::new();
    let mut i: usize = 0;
    while i < fields.len()
        invariant
            i <= fields.len(),
            r@ == join_with(texts(fields@.subrange(0, i as int)), delimiter@),
        decreases fields.len() - i,
    {
        proof {
            lemma_texts_subrange_push(fields@, 0, i as int);
        }
        if i > 0 {
            r.append(delimiter);
            proof {
                lemma_join_push(texts(fields@.subrange(0, i as int)), delimiter@, fields@[i as int]@);
            }
        } else {
            assert(texts(fields@.subrange(0, 1)) =~= seq![fields@[0]@]);
        }
        r.append(fields[i].as_str());
        i += 1;
    }
    assert(fields@.subrange(0, fields.len() as int) =~= fields@);
    r
}

} // verus!
