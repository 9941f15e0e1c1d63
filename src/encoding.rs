//! The character encodings an input may be declared in, chosen by label.
use vstd::prelude::*;

use crate::text::chars_of;

verus! {

/// The lower-case form of `s`, as `str::to_lowercase` computes it.
pub uninterp spec fn lower_of(s: Seq<char>) -> Seq<char>;

/// Relies on `str::to_lowercase`: the Unicode lower-case form, a function of the characters alone.
#[verifier::external_body]
fn lowercase(s: &str) -> (r: String)
    ensures
        r@ == lower_of(s@),
{
    s.to_lowercase()
}

/// An encoding the input may be read in.
#[derive(Clone, Copy, Debug, PartialEq, Eq, Structural)]
pub enum TextEncoding {
    Utf8,
    /// Windows-1252, also used for inputs labelled ISO-8859-1.
    Windows1252,
}

/// The encoding named by a label already in lower case, if it is one of those supported.
pub open spec fn encoding_for_folded(folded: Seq<char>) -> Option<TextEncoding> {
    if folded == "utf-8"@ {
        Some(TextEncoding::Utf8)
    } else if folded == "windows-1252"@ || folded == "iso-8859-1"@ {
        Some(TextEncoding::Windows1252)
    } else {
        None
    }
}

fn same_text(a: &str, b: &str) -> (r: bool)
    ensures
        r == (a@ == b@),
{
    let x = chars_of(a);
    let y = chars_of(b);
    if x.len() != y.len() {
        return false;
    }
    let mut i: usize = 0;
    while i < x.len()
        invariant
            x@ == a@,
            y@ == b@,
            x.len() == y.len(),
            i <= x.len(),
            forall|k: int| 0 <= k < i ==> x@[k] == y@[k],
        decreases x.len() - i,
    {
        if x[i] != y[i] {
            assert(a@[i as int] != b@[i as int]);
            return false;
        }
        i += 1;
    }
    assert(x@ =~= y@);
    true
}

/// The encoding named by `folded`, a label already in lower case (see `encoding_for_folded`).
pub fn encoding_for_lowercase_label(folded: &str) -> (r: Option<TextEncoding>)
    ensures
        r == encoding_for_folded(folded@),
{
    if same_text(folded, "utf-8") {
        Some(TextEncoding::Utf8)
    } else if same_text(folded, "windows-1252") || same_text(folded, "iso-8859-1") {
        Some(TextEncoding::Windows1252)
    } else {
        None
    }
}

/// The encoding named by `label`, in any case; `None` when it is not supported.
pub fn encoding_for_label(label: &str) -> (r: Option<TextEncoding>)
    ensures
        r == encoding_for_folded(lower_of(label@)),
{
    let folded = lowercase(label);
    encoding_for_lowercase_label(folded.as_str())
}

} // verus!
