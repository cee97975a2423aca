//! Which names are identifiers.

use vstd::prelude::*;

verus! {

/// A letter of the ASCII alphabet.
pub open spec fn is_letter(c: char) -> bool {
    ('a' <= c && c <= 'z') || ('A' <= c && c <= 'Z')
}

/// A character that may stand in an identifier: a letter, a digit or an
/// underscore.
pub open spec fn is_identifier_char(c: char) -> bool {
    c == '_' || is_letter(c) || ('0' <= c && c <= '9')
}

/// An identifier starts with a letter, or with an underscore that something
/// follows, and holds nothing but letters, digits and underscores. The one
/// exception is the name `<SELF>`.
pub open spec fn valid_identifier(s: Seq<char>) -> bool {
    ||| s == seq!['<', 'S', 'E', 'L', 'F', '>']
    ||| {
        &&& s.len() > 0
        &&& (is_letter(s[0]) || (s[0] == '_' && s.len() > 1))
        &&& forall|i: int| 1 <= i < s.len() ==> is_identifier_char(#[trigger] s[i])
    }
}

/// Calls `move_core_types::identifier::Identifier::is_valid`. Trusted: the
/// result is `true` exactly for the names that `valid_identifier` admits,
/// which is the rule that the function's source applies to the bytes of the
/// name.
#[verifier::external_body]
pub(crate) fn is_valid_identifier(name: &str) -> (r: bool)
    ensures
        r == valid_identifier(name@),
{
    move_core_types::identifier::Identifier::is_valid(name)
}

} // verus!
