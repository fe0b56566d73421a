//! JavaScript identifier classification (ECMAScript `IdentifierName`).
//!
//! ASCII characters are classified directly; everything else defers to the
//! Unicode `ID_Start` / `ID_Continue` properties of an outside crate, plus
//! the two join controls that the grammar admits in identifier parts.

use vstd::prelude::*;

verus! {

pub uninterp spec fn id_start_unicode(c: char) -> bool;

pub uninterp spec fn id_continue_unicode(c: char) -> bool;

/// Relies on unicode_id_start::is_id_start_unicode: whether `c` has the
/// Unicode `ID_Start` property, a function of the character alone.
#[verifier::external_body]
fn is_id_start_unicode(c: char) -> (r: bool)
    ensures
        r == id_start_unicode(c),
{
    unicode_id_start::is_id_start_unicode(c)
}

/// Relies on unicode_id_start::is_id_continue_unicode: whether `c` has the
/// Unicode `ID_Continue` property, a function of the character alone.
#[verifier::external_body]
fn is_id_continue_unicode(c: char) -> (r: bool)
    ensures
        r == id_continue_unicode(c),
{
    unicode_id_start::is_id_continue_unicode(c)
}

/// A character may start an identifier: ASCII letters, `$`, `_`, or a
/// Unicode `ID_Start` character.
pub open spec fn spec_is_identifier_start(c: char) -> bool {
    if (c as u32) < 128 {
        ('a' <= c && c <= 'z') || ('A' <= c && c <= 'Z') || c == '$' || c == '_'
    } else {
        id_start_unicode(c)
    }
}

/// A character may continue an identifier: ASCII letters and digits, `$`,
/// `_`, a Unicode `ID_Continue` character, or ZWNJ / ZWJ.
pub open spec fn spec_is_identifier_part(c: char) -> bool {
    if (c as u32) < 128 {
        ('a' <= c && c <= 'z') || ('A' <= c && c <= 'Z') || ('0' <= c && c <= '9') || c == '$' || c
            == '_'
    } else {
        id_continue_unicode(c) || c == '\u{200c}' || c == '\u{200d}'
    }
}

/// A non-empty character sequence shaped like an identifier.
pub open spec fn spec_is_identifier_name(s: Seq<char>) -> bool {
    &&& s.len() > 0
    &&& spec_is_identifier_start(s[0])
    &&& forall|i: int| 1 <= i < s.len() ==> spec_is_identifier_part(#[trigger] s[i])
}

fn is_identifier_start(c: char) -> (r: bool)
    ensures
        r == spec_is_identifier_start(c),
{
    if (c as u32) < 128 {
        ('a' <= c && c <= 'z') || ('A' <= c && c <= 'Z') || c == '$' || c == '_'
    } else {
        is_id_start_unicode(c)
    }
}

fn is_identifier_part(c: char) -> (r: bool)
    ensures
        r == spec_is_identifier_part(c),
{
    if (c as u32) < 128 {
        ('a' <= c && c <= 'z') || ('A' <= c && c <= 'Z') || ('0' <= c && c <= '9') || c == '$' || c
            == '_'
    } else {
        is_id_continue_unicode(c) || c == '\u{200c}' || c == '\u{200d}'
    }
}

/// Whether `name` is a valid JavaScript identifier name.
pub fn is_identifier_name(name: &str) -> (r: bool)
    ensures
        r == spec_is_identifier_name(name@),
{
    let n = name.unicode_len();
    if n == 0 {
        return false;
    }
    if !is_identifier_start(name.get_char(0)) {
        return false;
    }
    let mut i: usize = 1;
    while i < n
        invariant
            1 <= i <= n == name@.len(),
            spec_is_identifier_start(name@[0]),
            forall|j: int| 1 <= j < i ==> spec_is_identifier_part(#[trigger] name@[j]),
        decreases n - i,
    {
        if !is_identifier_part(name.get_char(i)) {
            return false;
        }
        i = i + 1;
    }
    true
}

} // verus!
