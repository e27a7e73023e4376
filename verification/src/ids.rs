//! Fresh identifiers and the current time.
use vstd::prelude::*;

verus! {

pub open spec fn is_lower_hex(c: char) -> bool {
    ('0' <= c && c <= '9') || ('a' <= c && c <= 'f')
}

/// The text of a hyphenated lower-case UUID: 36 characters, hyphens at positions 8, 13,
/// 18 and 23, hexadecimal digits elsewhere.
pub open spec fn is_uuid_text(s: Seq<char>) -> bool {
    &&& s.len() == 36
    &&& forall|i: int|
        0 <= i < 36 ==> if i == 8 || i == 13 || i == 18 || i == 23 {
            #[trigger] s[i] == '-'
        } else {
            is_lower_hex(s[i])
        }
}

/// `uuid::Uuid::new_v4().to_string()`. The value is random; the claim is the shape of its
/// text, which `uuid`'s hyphenated lower-case formatting gives.
#[verifier::external_body]
pub(crate) fn new_id() -> (s: String)
    ensures
        is_uuid_text(s@),
{
    uuid::Uuid::new_v4().to_string()
}

/// `chrono::Utc::now().to_rfc3339()`: the current time. Nothing is claimed of it.
#[verifier::external_body]
pub(crate) fn now_rfc3339() -> (s: String) {
    chrono::Utc::now().to_rfc3339()
}

/// `chrono::Utc::now()` written as `chrono`'s serde writes a `DateTime<Utc>`: RFC 3339
/// with `Z` and as many fraction digits as needed. Nothing is claimed of it.
#[verifier::external_body]
pub(crate) fn now_utc_text() -> (s: String) {
    chrono::Utc::now().to_rfc3339_opts(chrono::SecondsFormat::AutoSi, true)
}

/// The instant that an RFC 3339 text names, written in UTC as `now_utc_text` writes one;
/// `None` where the text is no RFC 3339 date and time.
pub uninterp spec fn rfc3339_as_utc(s: Seq<char>) -> Option<Seq<char>>;

/// `chrono::DateTime::parse_from_rfc3339`, then `with_timezone(&Utc)`, written as
/// `now_utc_text` writes a time. The claim is only that the result is a function of the
/// text, named `rfc3339_as_utc`.
#[verifier::external_body]
pub(crate) fn utc_text_of(s: &str) -> (r: Option<String>)
    ensures
        match r {
            Some(t) => rfc3339_as_utc(s@) == Some(t@),
            None => rfc3339_as_utc(s@) is None,
        },
{
    match chrono::DateTime::parse_from_rfc3339(s) {
        Ok(dt) => Some(
            dt.with_timezone(&chrono::Utc).to_rfc3339_opts(chrono::SecondsFormat::AutoSi, true),
        ),
        Err(_) => None,
    }
}

/// The Unix time, in seconds, of the last second of chrono's latest date, 262142-12-31
/// 23:59:59 UTC.
pub open spec fn latest_timestamp() -> int {
    8_210_266_876_799
}

/// `chrono::Utc::now().timestamp()`: the current Unix time in seconds. The claim is the
/// range every reading lies in: `Utc::now` stops (panics) on a system clock before 1970 and
/// on one past chrono's latest date, so what it returns lies between them.
#[verifier::external_body]
pub(crate) fn now_timestamp() -> (t: i64)
    ensures
        0 <= t <= latest_timestamp(),
{
    chrono::Utc::now().timestamp()
}

/// The first 8 bytes of a UUID's text are whole characters.
pub proof fn lemma_uuid_prefix(s: Seq<char>)
    requires
        is_uuid_text(s),
    ensures
        vstd::utf8::is_char_boundary(vstd::utf8::encode_utf8(s), 8),
{
    broadcast use vstd::utf8::group_utf8_lib;

    assert(vstd::utf8::is_ascii_chars(s)) by {
        assert forall|i: int| 0 <= i < s.len() implies '\0' <= #[trigger] s[i] <= '\u{7f}' by {
            if i == 8 || i == 13 || i == 18 || i == 23 {
            } else {
                assert(is_lower_hex(s[i]));
            }
        }
    }
    let b = vstd::utf8::encode_utf8(s);
    assert(s[8] == '-');
    assert(b[8] == s[8] as u8);
    assert(!vstd::utf8::is_continuation_byte(b[8]));
}

} // verus!
