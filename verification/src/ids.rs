//! Fresh identifiers and timestamps for new records.

use vstd::prelude::*;

verus! {

/// A digit `0`–`9`.
pub open spec fn is_digit(c: char) -> bool {
    '0' <= c && c <= '9'
}

/// A lower-case hexadecimal digit.
pub open spec fn is_lower_hex(c: char) -> bool {
    is_digit(c) || ('a' <= c && c <= 'f')
}

/// The hyphenated lower-case text of a version-4 UUID: 32 hexadecimal
/// digits in groups of 8, 4, 4, 4 and 12 joined by hyphens, the version
/// digit `4` first in the third group and the variant digit (`8`, `9`, `a`
/// or `b`) first in the fourth.
pub open spec fn is_v4_uuid_text(s: Seq<char>) -> bool {
    &&& s.len() == 36
    &&& forall|i: int|
        0 <= i < 36 ==> if i == 8 || i == 13 || i == 18 || i == 23 {
            s[i] == '-'
        } else {
            is_lower_hex(#[trigger] s[i])
        }
    &&& s[14] == '4'
    &&& (s[19] == '8' || s[19] == '9' || s[19] == 'a' || s[19] == 'b')
}

/// A new random identifier: `uuid::Uuid::new_v4()` in its hyphenated
/// text form.
///
/// Trusted: the text is the hyphenated lower-case form of a version-4
/// UUID (`new_v4` sets the version and variant bits; `Display` writes lower
/// hexadecimal with hyphens); which identifier comes out is left open.
#[verifier::external_body]
pub(crate) fn new_id() -> (r: String)
    ensures
        is_v4_uuid_text(r@),
{
    uuid::Uuid::new_v4().to_string()
}

/// The year as chrono writes it: four digits, or for years past 9999 a
/// `+` and at least five digits.
pub open spec fn is_year_text(y: Seq<char>) -> bool {
    ||| (y.len() == 4 && forall|i: int| 0 <= i < 4 ==> is_digit(#[trigger] y[i]))
    ||| (y.len() >= 6 && y[0] == '+' && forall|i: int| 1 <= i < y.len() ==> is_digit(#[trigger] y[i]))
}

/// `-MM-DDTHH:MM:SS`: month, day, hour, minute and second of two digits.
pub open spec fn is_date_time_text(m: Seq<char>) -> bool {
    &&& m.len() == 15
    &&& m[0] == '-' && m[3] == '-' && m[6] == 'T' && m[9] == ':' && m[12] == ':'
    &&& forall|i: int|
        0 <= i < 15 && i != 0 && i != 3 && i != 6 && i != 9 && i != 12 ==> is_digit(
            #[trigger] m[i],
        )
}

/// A fraction of a second: nothing, or a `.` and 3, 6 or 9 digits.
pub open spec fn is_fraction_text(f: Seq<char>) -> bool {
    ||| f.len() == 0
    ||| (f[0] == '.' && (f.len() == 4 || f.len() == 7 || f.len() == 10) && forall|i: int|
        1 <= i < f.len() ==> is_digit(#[trigger] f[i]))
}

/// A UTC time in the RFC 3339 form chrono writes:
/// `YYYY-MM-DDTHH:MM:SS`, an optional fraction of a second, and `+00:00`.
pub open spec fn is_utc_rfc3339(s: Seq<char>) -> bool {
    exists|y: Seq<char>, m: Seq<char>, f: Seq<char>|
        is_year_text(y) && is_date_time_text(m) && is_fraction_text(f) && s == y + m + f
            + "+00:00"@
}

/// The current time in RFC 3339 form: `chrono::Utc::now().to_rfc3339()`.
///
/// Trusted: the text has the shape `is_utc_rfc3339` describes (chrono's
/// `write_rfc3339` with automatic sub-second digits and a zero offset
/// written `+00:00`); which time it holds is left open (`Utc::now` panics on
/// a system clock set before 1970).
#[verifier::external_body]
pub(crate) fn now_rfc3339() -> (r: String)
    ensures
        is_utc_rfc3339(r@),
{
    chrono::Utc::now().to_rfc3339()
}

} // verus!
