//! Recognition of the text that `str::parse::<f64>` accepts.
//!
//! The grammar is the one documented for `f64`'s `FromStr`:
//!
//! ```text
//! Float  ::= Sign? ( 'inf' | 'infinity' | 'nan' | Number )
//! Number ::= ( Digit+ | Digit+ '.' Digit* | Digit* '.' Digit+ ) Exp?
//! Exp    ::= 'e' Sign? Digit+
//! Sign   ::= [+-]
//! Digit  ::= [0-9]
//! ```
//!
//! Letters are matched without regard to ASCII case; no whitespace is allowed.
use vstd::prelude::*;

verus! {

pub open spec fn is_digit(c: char) -> bool {
    '0' <= c && c <= '9'
}

pub open spec fn is_sign(c: char) -> bool {
    c == '+' || c == '-'
}

/// `c` is the lower-case ASCII letter `w`, or its upper-case form.
pub open spec fn same_letter(c: char, w: char) -> bool {
    c == w || ('a' <= w && w <= 'z' && (c as u32) + 32 == (w as u32))
}

/// The first position at or after `i` that does not hold a digit.
pub open spec fn digits_end(s: Seq<char>, i: int) -> int
    decreases s.len() - i,
{
    if 0 <= i < s.len() && is_digit(s[i]) {
        digits_end(s, i + 1)
    } else {
        i
    }
}

/// `s[i..]` is an optional exponent: empty, or `e`, an optional sign and one digit or more.
pub open spec fn exponent_from(s: Seq<char>, i: int) -> bool {
    i == s.len() || (0 <= i < s.len() && same_letter(s[i], 'e') && {
        let j = if i + 1 < s.len() && is_sign(s[i + 1]) {
            i + 2
        } else {
            i + 1
        };
        j < s.len() && digits_end(s, j) == s.len()
    })
}

/// `s[i..]` is a `Number`: digits, an optional point and digits (at least one digit in all),
/// then an optional exponent.
pub open spec fn number_from(s: Seq<char>, i: int) -> bool {
    let a = digits_end(s, i);
    if a < s.len() && s[a] == '.' {
        let b = digits_end(s, a + 1);
        (a > i || b > a + 1) && exponent_from(s, b)
    } else {
        a > i && exponent_from(s, a)
    }
}

/// `t` spells `word` in ASCII letters of either case.
pub open spec fn spells(t: Seq<char>, word: Seq<char>) -> bool {
    t.len() == word.len() && forall|k: int| 0 <= k < t.len() ==> same_letter(#[trigger] t[k], word[k])
}

/// `s[i..]` is one of the special values `inf`, `infinity` or `nan`.
pub open spec fn special_from(s: Seq<char>, i: int) -> bool {
    let t = s.subrange(i, s.len() as int);
    spells(t, seq!['i', 'n', 'f']) || spells(t, seq!['i', 'n', 'f', 'i', 'n', 'i', 't', 'y'])
        || spells(t, seq!['n', 'a', 'n'])
}

/// `s` is accepted by `f64`'s `FromStr`.
pub open spec fn is_float_literal(s: Seq<char>) -> bool {
    let i: int = if s.len() > 0 && is_sign(s[0]) {
        1
    } else {
        0
    };
    special_from(s, i) || number_from(s, i)
}

/// `s` with every `separator` read as a decimal point.
pub open spec fn with_decimal_point(s: Seq<char>, separator: char) -> Seq<char> {
    s.map_values(|c: char| if c == separator { '.' } else { c })
}

fn scan_digits(s: &Vec<char>, i: usize) -> (r: usize)
    requires
        i <= s.len(),
    ensures
        r as int == digits_end(s@, i as int),
        i <= r <= s.len(),
{
    let mut j = i;
    while j < s.len() && '0' <= s[j] && s[j] <= '9'
        invariant
            i <= j <= s.len(),
            digits_end(s@, j as int) == digits_end(s@, i as int),
        decreases s.len() - j,
    {
        j += 1;
    }
    j
}

fn letter_matches(c: char, w: char) -> (r: bool)
    ensures
        r == same_letter(c, w),
{
    c == w || ('a' <= w && w <= 'z' && (c as u32) + 32 == (w as u32))
}

fn spells_word(s: &Vec<char>, i: usize, word: &[char]) -> (r: bool)
    requires
        i <= s.len(),
    ensures
        r == spells(s@.subrange(i as int, s.len() as int), word@),
{
    if s.len() - i != word.len() {
        return false;
    }
    let mut k: usize = 0;
    while k < word.len()
        invariant
            k <= word.len(),
            s.len() - i == word.len(),
            forall|m: int| 0 <= m < k ==> same_letter(s@[i + m], word@[m]),
        decreases word.len() - k,
    {
        if !letter_matches(s[i + k], word[k]) {
            assert(s@.subrange(i as int, s.len() as int)[k as int] == s@[i + k]);
            return false;
        }
        k += 1;
    }
    let ghost t = s@.subrange(i as int, s.len() as int);
    assert forall|m: int| 0 <= m < t.len() implies same_letter(#[trigger] t[m], word@[m]) by {
        assert(t[m] == s@[i + m]);
    }
    true
}

fn is_exponent_from(s: &Vec<char>, i: usize) -> (r: bool)
    requires
        i <= s.len(),
    ensures
        r == exponent_from(s@, i as int),
{
    if i == s.len() {
        return true;
    }
    if !letter_matches(s[i], 'e') {
        return false;
    }
    let j: usize = if i + 1 < s.len() && (s[i + 1] == '+' || s[i + 1] == '-') {
        i + 2
    } else {
        i + 1
    };
    j < s.len() && scan_digits(s, j) == s.len()
}

fn is_number_from(s: &Vec<char>, i: usize) -> (r: bool)
    requires
        i <= s.len(),
    ensures
        r == number_from(s@, i as int),
{
    let a = scan_digits(s, i);
    if a < s.len() && s[a] == '.' {
        let b = scan_digits(s, a + 1);
        (a > i || b > a + 1) && is_exponent_from(s, b)
    } else {
        a > i && is_exponent_from(s, a)
    }
}

/// Whether `s` is accepted by `f64`'s `FromStr`.
pub fn is_float_text(s: &Vec<char>) -> (r: bool)
    ensures
        r == is_float_literal(s@),
{
    let i: usize = if s.len() > 0 && (s[0] == '+' || s[0] == '-') {
        1
    } else {
        0
    };
    let inf = ['i', 'n', 'f'];
    let infinity = ['i', 'n', 'f', 'i', 'n', 'i', 't', 'y'];
    let nan = ['n', 'a', 'n'];
    assert(inf@ == seq!['i', 'n', 'f']);
    assert(infinity@ == seq!['i', 'n', 'f', 'i', 'n', 'i', 't', 'y']);
    assert(nan@ == seq!['n', 'a', 'n']);
    spells_word(s, i, &inf) || spells_word(s, i, &infinity) || spells_word(s, i, &nan)
        || is_number_from(s, i)
}

/// Whether `value`, with each `decimal_separator` read as a decimal point, is a number that
/// `f64`'s `FromStr` accepts.
pub fn is_number_with_separator(value: &str, decimal_separator: char) -> (r: bool)
    ensures
        r == is_float_literal(with_decimal_point(value@, decimal_separator)),
{
    let chars = crate::text::chars_of(value);
    let mut normal: Vec<char> = Vec::new();
    let mut i: usize = 0;
    while i < chars.len()
        invariant
            i <= chars.len(),
            normal@ == with_decimal_point(chars@.subrange(0, i as int), decimal_separator),
        decreases chars.len() - i,
    {
        let c = chars[i];
        normal.push(if c == decimal_separator { '.' } else { c });
        i += 1;
        assert(normal@ =~= with_decimal_point(chars@.subrange(0, i as int), decimal_separator));
    }
    assert(chars@.subrange(0, chars.len() as int) =~= chars@);
    is_float_text(&normal)
}

} // verus!
