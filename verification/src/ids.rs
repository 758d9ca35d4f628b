//! Fresh identifiers.
use vstd::prelude::*;

verus! {

/// A lower-case hexadecimal digit.
pub open spec fn is_hex_digit(c: char) -> bool {
    ('0' <= c && c <= '9') || ('a' <= c && c <= 'f')
}

/// Thirty-two hexadecimal digits.
pub open spec fn is_simple_uuid(s: Seq<char>) -> bool {
    s.len() == 32 && forall|i: int| 0 <= i < 32 ==> is_hex_digit(#[trigger] s[i])
}

/// Hexadecimal digits in groups of eight, four, four, four and twelve, with
/// hyphens between them.
pub open spec fn is_hyphenated_uuid(s: Seq<char>) -> bool {
    s.len() == 36 && forall|i: int|
        0 <= i < 36 ==> if i == 8 || i == 13 || i == 18 || i == 23 {
            #[trigger] s[i] == '-'
        } else {
            is_hex_digit(s[i])
        }
}

/// `uuid::Uuid::new_v4` in its hyphenated form: a random identifier. Of its
/// digits nothing is claimed. A system that gives no random bytes stops the
/// program; that is no matter of any argument.
#[verifier::external_body]
pub(crate) fn random_id() -> (r: String)
    ensures
        is_hyphenated_uuid(r@),
{
    uuid::Uuid::new_v4().to_string()
}

/// `uuid::Uuid::new_v4` in its simple form: a random identifier without
/// hyphens.
#[verifier::external_body]
pub(crate) fn random_simple_id() -> (r: String)
    ensures
        is_simple_uuid(r@),
{
    uuid::Uuid::new_v4().simple().to_string()
}

/// `uuid::Uuid::now_v7` in its hyphenated form: an identifier that begins with
/// the time. Of its digits nothing is claimed. A clock that stands before 1970
/// stops the program; that is no matter of any argument.
#[verifier::external_body]
pub(crate) fn timed_id() -> (r: String)
    ensures
        is_hyphenated_uuid(r@),
{
    uuid::Uuid::now_v7().to_string()
}

/// `uuid::Uuid::now_v7` in its simple form.
#[verifier::external_body]
pub(crate) fn timed_simple_id() -> (r: String)
    ensures
        is_simple_uuid(r@),
{
    uuid::Uuid::now_v7().simple().to_string()
}

} // verus!
