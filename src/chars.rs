//! Character classes and the character comparison used by the matcher.
use vstd::prelude::*;

verus! {

/// Word separators: `_ - . space ' " :`.
pub open spec fn is_separator(c: char) -> bool {
    c == '_' || c == '-' || c == '.' || c == ' ' || c == '\'' || c == '"' || c == ':'
}

/// Path separators, which match each other.
pub open spec fn is_path_separator(c: char) -> bool {
    c == '/' || c == '\\'
}

pub open spec fn is_ascii_char(c: char) -> bool {
    (c as u32) < 128
}

pub open spec fn is_ascii_upper(c: char) -> bool {
    65 <= (c as u32) <= 90
}

/// The code point of `c` with ASCII upper case letters lowered.
pub open spec fn ascii_folded(c: char) -> u32 {
    if is_ascii_upper(c) {
        (c as u32 + 32) as u32
    } else {
        c as u32
    }
}

/// The lowercase mapping of `c` (one or more characters), as Unicode defines it.
pub uninterp spec fn lowercase_of(c: char) -> Seq<char>;

/// Whether `c` has the Unicode `Uppercase` property.
pub uninterp spec fn uppercase_property(c: char) -> bool;

/// Two lowercase forms agree when they agree on every position both have.
pub open spec fn forms_agree(a: Seq<char>, b: Seq<char>) -> bool {
    forall|k: int| 0 <= k < a.len() && 0 <= k < b.len() ==> a[k] == b[k]
}

/// Whether target character `t` is matched by query character `q`.
pub open spec fn chars_match(t: char, q: char) -> bool {
    if is_path_separator(t) {
        is_path_separator(q)
    } else if is_ascii_char(t) {
        ascii_folded(t) == ascii_folded(q)
    } else {
        forms_agree(lowercase_of(t), lowercase_of(q))
    }
}

/// Upper case letters, which start a word in camel case.
pub open spec fn is_upper_char(c: char) -> bool {
    if is_ascii_char(c) {
        is_ascii_upper(c)
    } else {
        uppercase_property(c)
    }
}

/// Relies on `char::to_lowercase`: the lowercase mapping of `c`, collected.
#[verifier::external_body]
fn lowercase_chars(c: char) -> (r: Vec<char>)
    ensures
        r@ == lowercase_of(c),
{
    c.to_lowercase().collect()
}

/// Relies on `char::is_uppercase`: whether `c` has the `Uppercase` property.
#[verifier::external_body]
fn has_uppercase_property(c: char) -> (r: bool)
    ensures
        r == uppercase_property(c),
{
    c.is_uppercase()
}

pub fn separator(c: char) -> (r: bool)
    ensures
        r == is_separator(c),
{
    c == '_' || c == '-' || c == '.' || c == ' ' || c == '\'' || c == '"' || c == ':'
}

pub fn path_separator(c: char) -> (r: bool)
    ensures
        r == is_path_separator(c),
{
    c == '/' || c == '\\'
}

fn fold_ascii(c: char) -> (r: u32)
    ensures
        r == ascii_folded(c),
{
    let v = c as u32;
    if 65 <= v && v <= 90 {
        v + 32
    } else {
        v
    }
}

/// Compares two lowercase forms position by position, as far as the shorter
/// one reaches.
pub fn lowercase_forms_agree(a: &Vec<char>, b: &Vec<char>) -> (r: bool)
    ensures
        r == forms_agree(a@, b@),
{
    let n = if a.len() < b.len() {
        a.len()
    } else {
        b.len()
    };
    let mut k: usize = 0;
    while k < n
        invariant
            n <= a.len(),
            n <= b.len(),
            n == a.len() || n == b.len(),
            k <= n,
            forall|j: int| 0 <= j < k ==> a@[j] == b@[j],
        decreases n - k,
    {
        if a[k] != b[k] {
            return false;
        }
        k = k + 1;
    }
    true
}

/// Whether target character `t` is matched by query character `q`.
pub fn char_matches(t: char, q: char) -> (r: bool)
    ensures
        r == chars_match(t, q),
{
    if path_separator(t) {
        path_separator(q)
    } else if (t as u32) < 128 {
        fold_ascii(t) == fold_ascii(q)
    } else {
        let a = lowercase_chars(t);
        let b = lowercase_chars(q);
        lowercase_forms_agree(&a, &b)
    }
}

/// Whether `c` is an upper case letter.
pub fn upper_char(c: char) -> (r: bool)
    ensures
        r == is_upper_char(c),
{
    if (c as u32) < 128 {
        let v = c as u32;
        65 <= v && v <= 90
    } else {
        has_uppercase_property(c)
    }
}

} // verus!
