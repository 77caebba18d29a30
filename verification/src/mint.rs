//! Identifiers and creation stamps. Both come from outside the library:
//! an identifier is drawn at random, a stamp is read from the clock.

use vstd::prelude::*;

verus! {

/// A digit of lower-case hexadecimal.
pub open spec fn is_lower_hex(c: char) -> bool {
    ('0' <= c && c <= '9') || ('a' <= c && c <= 'f')
}

/// The four places of a hyphenated identifier that hold a hyphen.
pub open spec fn is_hyphen_place(i: int) -> bool {
    i == 8 || i == 13 || i == 18 || i == 23
}

/// The shape of a random identifier: 36 characters in the groups
/// 8-4-4-4-12, hyphens between the groups and lower-case hexadecimal
/// digits within them, the version digit `4` and a variant digit of
/// `8`, `9`, `a` or `b`.
pub open spec fn is_random_id(s: Seq<char>) -> bool {
    &&& s.len() == 36
    &&& forall|i: int|
        0 <= i < 36 ==> if is_hyphen_place(i) {
            #[trigger] s[i] == '-'
        } else {
            is_lower_hex(s[i])
        }
    &&& s[14] == '4'
    &&& (s[19] == '8' || s[19] == '9' || s[19] == 'a' || s[19] == 'b')
}

/// The shape of a creation stamp: a date and time with the offset of
/// UTC written out at its end.
pub open spec fn is_utc_stamp(s: Seq<char>) -> bool {
    &&& s.len() >= 25
    &&& s.subrange(s.len() - 6, s.len() as int) == "+00:00"@
}

/// A fresh identifier: `uuid::Uuid::new_v4()` written out by `to_string`.
///
/// Trusted, not proved: the result has the hyphenated lower-case form
/// with the version and variant digits of a random identifier. Which
/// identifier comes back is left open; two calls may even return the same
/// one. The call panics where the system offers no random bytes.
#[verifier::external_body]
pub(crate) fn fresh_id() -> (id: String)
    ensures
        is_random_id(id@),
{
    uuid::Uuid::new_v4().to_string()
}

/// The current time: `chrono::Utc::now()` written out by `to_rfc3339`.
///
/// Trusted, not proved: the result is at least 25 characters long and
/// ends in the offset `+00:00`. Which time it gives is left open; stamps
/// of successive calls may repeat or go back with the clock. The call
/// panics where the clock stands before 1970.
#[verifier::external_body]
pub(crate) fn utc_now() -> (stamp: String)
    ensures
        is_utc_stamp(stamp@),
{
    chrono::Utc::now().to_rfc3339()
}

} // verus!
