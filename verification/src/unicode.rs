//! The character classes of the lexical grammar. They are the Unicode
//! classes of the standard library; Verus has no definition of them, so
//! each gets a name, and the library's contracts speak of the names.

use vstd::prelude::*;

verus! {

/// What `char::is_whitespace` answers for `c`.
pub uninterp spec fn whitespace(c: char) -> bool;

/// What `char::is_numeric` answers for `c`.
pub uninterp spec fn numeric(c: char) -> bool;

/// What `char::is_alphabetic` answers for `c`.
pub uninterp spec fn alphabetic(c: char) -> bool;

/// `char::is_whitespace`: assumed to be a function of the character alone,
/// named `whitespace`. Nothing else is claimed of it.
pub assume_specification[ char::is_whitespace ](c: char) -> (r: bool)
    ensures
        r == whitespace(c),
;

/// `char::is_numeric`: assumed to be a function of the character alone,
/// named `numeric`. Nothing else is claimed of it.
pub assume_specification[ char::is_numeric ](c: char) -> (r: bool)
    ensures
        r == numeric(c),
;

/// `char::is_alphabetic`: assumed to be a function of the character alone,
/// named `alphabetic`. Nothing else is claimed of it.
pub assume_specification[ char::is_alphabetic ](c: char) -> (r: bool)
    ensures
        r == alphabetic(c),
;

/// `char::is_alphanumeric`: assumed to hold of exactly the characters that
/// are alphabetic or numeric, as its documentation defines it.
pub assume_specification[ char::is_alphanumeric ](c: char) -> (r: bool)
    ensures
        r == (alphabetic(c) || numeric(c)),
;

} // verus!
