//! Validation of the user names, e-mail addresses and passwords that accounts are made of.
use vstd::prelude::*;
use crate::text::{byte_len, str_byte_len, chars_of, law_sanitize_idempotent, sanitize_string, sanitized};

verus! {

broadcast use vstd::string::group_string_axioms;

/// What `char::is_alphanumeric` answers for `c` (Unicode `Alphabetic` or `Numeric`).
pub uninterp spec fn char_is_alphanumeric(c: char) -> bool;

/// What `char::is_uppercase` answers for `c` (Unicode `Uppercase`).
pub uninterp spec fn char_is_uppercase(c: char) -> bool;

/// What `char::is_lowercase` answers for `c` (Unicode `Lowercase`).
pub uninterp spec fn char_is_lowercase(c: char) -> bool;

/// `char::is_alphanumeric`. Claims only that the answer is a function of `c`; the Unicode
/// tables behind it are not restated.
#[verifier::external_body]
fn is_alphanumeric(c: char) -> (r: bool)
    ensures
        r == char_is_alphanumeric(c),
{
    c.is_alphanumeric()
}

/// `char::is_uppercase`. Claims only that the answer is a function of `c`.
#[verifier::external_body]
fn is_uppercase(c: char) -> (r: bool)
    ensures
        r == char_is_uppercase(c),
{
    c.is_uppercase()
}

/// `char::is_lowercase`. Claims only that the answer is a function of `c`.
#[verifier::external_body]
fn is_lowercase(c: char) -> (r: bool)
    ensures
        r == char_is_lowercase(c),
{
    c.is_lowercase()
}

pub open spec fn is_ascii_digit_char(c: char) -> bool {
    '0' <= c && c <= '9'
}

/// The view of a `Result<String, String>`.
pub open spec fn result_view(r: Result<String, String>) -> Result<Seq<char>, Seq<char>> {
    match r {
        Ok(s) => Ok(s@),
        Err(e) => Err(e@),
    }
}

pub open spec fn username_char(c: char) -> bool {
    char_is_alphanumeric(c) || c == '_' || c == '-'
}

/// The outcome of validating the user name `u`: the sanitized name, or the first rule it breaks.
/// Lengths are counted in UTF-8 bytes.
pub open spec fn username_verdict(u: Seq<char>) -> Result<Seq<char>, Seq<char>> {
    let t = sanitized(u);
    if byte_len(t) < 3 {
        Err("Username must be at least 3 characters long"@)
    } else if byte_len(t) > 50 {
        Err("Username must be less than 50 characters long"@)
    } else if !(forall|i: int| 0 <= i < t.len() ==> username_char(#[trigger] t[i])) {
        Err("Username can only contain alphanumeric characters, underscores, and hyphens"@)
    } else {
        Ok(t)
    }
}

/// `p` is the position of the only `@` in `t`.
pub open spec fn single_at(t: Seq<char>, p: int) -> bool {
    &&& 0 <= p < t.len()
    &&& t[p] == '@'
    &&& forall|j: int| 0 <= j < t.len() && j != p ==> #[trigger] t[j] != '@'
}

/// The outcome of validating the e-mail address `e`: the sanitized address, or the first
/// rule it breaks. An address holds exactly one `@`, with a non-empty part on each side
/// and a `.` after it.
pub open spec fn email_verdict(e: Seq<char>) -> Result<Seq<char>, Seq<char>> {
    let t = sanitized(e);
    if byte_len(t) > 254 {
        Err("Email must be less than 254 characters long"@)
    } else if !(exists|p: int| single_at(t, p)) {
        Err("Invalid email format"@)
    } else {
        let p = choose|p: int| single_at(t, p);
        if p == 0 || p == t.len() - 1 || !t.subrange(p + 1, t.len() as int).contains('.') {
            Err("Invalid email format"@)
        } else {
            Ok(t)
        }
    }
}

/// The outcome of validating the password `p`, which is not sanitized: it must hold 8 to
/// 128 bytes and at least one upper-case letter, one lower-case letter and one ASCII digit.
pub open spec fn password_verdict(p: Seq<char>) -> Result<Seq<char>, Seq<char>> {
    if byte_len(p) < 8 {
        Err("Password must be at least 8 characters long"@)
    } else if byte_len(p) > 128 {
        Err("Password must be less than 128 characters long"@)
    } else if !((exists|i: int| 0 <= i < p.len() && char_is_uppercase(#[trigger] p[i])) && (exists|
        i: int,
    |
        0 <= i < p.len() && char_is_lowercase(#[trigger] p[i])) && (exists|i: int|
        0 <= i < p.len() && is_ascii_digit_char(#[trigger] p[i]))) {
        Err(
            "Password must contain at least one uppercase letter, one lowercase letter, and one digit"@,
        )
    } else {
        Ok(p)
    }
}

pub fn validate_username(username: &str) -> (r: Result<String, String>)
    ensures
        result_view(r) == username_verdict(username@),
{
    let sanitized = sanitize_string(username);
    let n = str_byte_len(sanitized.as_str());
    if n < 3 {
        return Err("Username must be at least 3 characters long".to_string());
    }
    if n > 50 {
        return Err("Username must be less than 50 characters long".to_string());
    }
    let chars = chars_of(sanitized.as_str());
    let mut i: usize = 0;
    while i < chars.len()
        invariant
            chars@ == sanitized@,
            sanitized@ == crate::text::sanitized(username@),
            3 <= byte_len(sanitized@) <= 50,
            i <= chars.len(),
            forall|j: int| 0 <= j < i ==> username_char(#[trigger] chars@[j]),
        decreases chars.len() - i,
    {
        let c = chars[i];
        if !(is_alphanumeric(c) || c == '_' || c == '-') {
            assert(!username_char(crate::text::sanitized(username@)[i as int]));
            return Err(
                "Username can only contain alphanumeric characters, underscores, and hyphens".to_string(),
            );
        }
        i = i + 1;
    }
    Ok(sanitized)
}

pub fn validate_email(email: &str) -> (r: Result<String, String>)
    ensures
        result_view(r) == email_verdict(email@),
{
    let sanitized = sanitize_string(email);
    if str_byte_len(sanitized.as_str()) > 254 {
        return Err("Email must be less than 254 characters long".to_string());
    }
    let chars = chars_of(sanitized.as_str());
    let ghost t = chars@;
    // Number of `@` seen so far, counted up to 2, and where the first and second are.
    let mut count: usize = 0;
    let mut pos: usize = 0;
    let ghost mut second: int = 0;
    let mut i: usize = 0;
    while i < chars.len()
        invariant
            t == chars@,
            t == sanitized@,
            i <= chars.len(),
            count <= 2,
            count == 0 ==> forall|j: int| 0 <= j < i ==> #[trigger] t[j] != '@',
            count >= 1 ==> pos < i && t[pos as int] == '@',
            count == 1 ==> forall|j: int| 0 <= j < i && j != pos ==> #[trigger] t[j] != '@',
            count == 2 ==> 0 <= second < i && second != pos && t[second] == '@',
        decreases chars.len() - i,
    {
        if chars[i] == '@' {
            if count == 0 {
                pos = i;
                count = 1;
            } else if count == 1 {
                proof {
                    second = i as int;
                }
                count = 2;
            }
        }
        i = i + 1;
    }
    if count != 1 {
        proof {
            if count == 0 {
                assert forall|p: int| !single_at(t, p) by {
                    if 0 <= p < t.len() {
                        assert(t[p] != '@');
                    }
                }
            } else {
                assert forall|p: int| !single_at(t, p) by {
                    if single_at(t, p) {
                        if p == pos {
                            assert(t[second] != '@');
                        } else {
                            assert(t[pos as int] != '@');
                        }
                    }
                }
            }
        }
        return Err("Invalid email format".to_string());
    }
    proof {
        assert(single_at(t, pos as int));
        let p = choose|p: int| single_at(t, p);
        if p != pos {
            assert(t[pos as int] != '@');
        }
    }
    if pos == 0 || pos == chars.len() - 1 {
        return Err("Invalid email format".to_string());
    }
    let mut j: usize = pos + 1;
    let mut has_dot = false;
    while j < chars.len()
        invariant_except_break
            !has_dot,
            forall|k: int| pos + 1 <= k < j ==> #[trigger] t[k] != '.',
        invariant
            t == chars@,
            pos + 1 <= j <= chars.len(),
        ensures
            has_dot ==> j < chars.len() && t[j as int] == '.',
            !has_dot ==> forall|k: int| pos + 1 <= k < chars.len() ==> #[trigger] t[k] != '.',
        decreases chars.len() - j,
    {
        if chars[j] == '.' {
            has_dot = true;
            break;
        }
        j = j + 1;
    }
    proof {
        let d = t.subrange(pos + 1, t.len() as int);
        if has_dot {
            assert(d[j - pos - 1] == '.');
        } else {
            assert forall|k: int| 0 <= k < d.len() implies d[k] != '.' by {
                assert(d[k] == t[k + pos + 1]);
            }
        }
    }
    if !has_dot {
        return Err("Invalid email format".to_string());
    }
    Ok(sanitized)
}

pub fn validate_password(password: &str) -> (r: Result<String, String>)
    ensures
        result_view(r) == password_verdict(password@),
{
    let n = str_byte_len(password);
    if n < 8 {
        return Err("Password must be at least 8 characters long".to_string());
    }
    if n > 128 {
        return Err("Password must be less than 128 characters long".to_string());
    }
    let chars = chars_of(password);
    let mut has_upper = false;
    let mut has_lower = false;
    let mut has_digit = false;
    let mut i: usize = 0;
    while i < chars.len()
        invariant
            chars@ == password@,
            i <= chars.len(),
            has_upper == (exists|k: int| 0 <= k < i && char_is_uppercase(#[trigger] chars@[k])),
            has_lower == (exists|k: int| 0 <= k < i && char_is_lowercase(#[trigger] chars@[k])),
            has_digit == (exists|k: int| 0 <= k < i && is_ascii_digit_char(#[trigger] chars@[k])),
        decreases chars.len() - i,
    {
        let c = chars[i];
        if is_uppercase(c) {
            has_upper = true;
        }
        if is_lowercase(c) {
            has_lower = true;
        }
        if '0' <= c && c <= '9' {
            has_digit = true;
        }
        i = i + 1;
    }
    if !has_upper || !has_lower || !has_digit {
        return Err(
            "Password must contain at least one uppercase letter, one lowercase letter, and one digit".to_string(),
        );
    }
    Ok(password.to_string())
}

/// A user name that is accepted is accepted again, unchanged, when it is validated anew.
pub proof fn law_accepted_username_revalidates(u: Seq<char>)
    requires
        username_verdict(u) is Ok,
    ensures
        username_verdict(username_verdict(u)->Ok_0) == username_verdict(u),
{
    law_sanitize_idempotent(u);
}

/// An e-mail address that is accepted is accepted again, unchanged, when it is validated
/// anew.
pub proof fn law_accepted_email_revalidates(e: Seq<char>)
    requires
        email_verdict(e) is Ok,
    ensures
        email_verdict(email_verdict(e)->Ok_0) == email_verdict(e),
{
    law_sanitize_idempotent(e);
}

/// An accepted user name is made only of alphanumeric characters, `_` and `-`; a name
/// whose sanitized form has a length allowed but holds any other character is refused for
/// its characters.
pub proof fn law_username_characters(u: Seq<char>)
    ensures
        username_verdict(u) matches Ok(t) ==> forall|i: int|
            0 <= i < t.len() ==> char_is_alphanumeric(#[trigger] t[i]) || t[i] == '_' || t[i] == '-',
        (3 <= byte_len(sanitized(u)) <= 50 && exists|i: int|
            0 <= i < sanitized(u).len() && !(char_is_alphanumeric(#[trigger] sanitized(u)[i])
                || sanitized(u)[i] == '_' || sanitized(u)[i] == '-')) ==> username_verdict(u) == Err::<
            Seq<char>,
            Seq<char>,
        >("Username can only contain alphanumeric characters, underscores, and hyphens"@),
{
    if let Ok(t) = username_verdict(u) {
        assert forall|i: int| 0 <= i < t.len() implies char_is_alphanumeric(#[trigger] t[i]) || t[i] == '_'
            || t[i] == '-' by {
            assert(username_char(t[i]));
        }
    }
    let t = sanitized(u);
    if 3 <= byte_len(t) <= 50 && exists|i: int|
        0 <= i < t.len() && !(char_is_alphanumeric(#[trigger] t[i]) || t[i] == '_' || t[i] == '-') {
        let i = choose|i: int|
            0 <= i < t.len() && !(char_is_alphanumeric(#[trigger] t[i]) || t[i] == '_' || t[i] == '-');
        assert(!username_char(t[i]));
    }
}

/// An accepted e-mail address holds exactly one `@`, with something before it and
/// something after it, and a `.` somewhere after it; it is at most 254 bytes long.
pub proof fn law_email_shape(e: Seq<char>)
    ensures
        email_verdict(e) matches Ok(t) ==> {
            &&& byte_len(t) <= 254
            &&& exists|p: int|
                {
                    &&& 0 < p < t.len() - 1
                    &&& t[p] == '@'
                    &&& (forall|j: int| 0 <= j < t.len() && j != p ==> #[trigger] t[j] != '@')
                    &&& (exists|k: int| p < k < t.len() && #[trigger] t[k] == '.')
                }
        },
{
    if let Ok(t) = email_verdict(e) {
        let p = choose|p: int| single_at(t, p);
        let rest = t.subrange(p + 1, t.len() as int);
        let k = choose|k: int| 0 <= k < rest.len() && rest[k] == '.';
        assert(t[p + 1 + k] == '.');
    }
}

/// An accepted password is 8 to 128 bytes long and holds an upper-case letter, a
/// lower-case letter and an ASCII digit; it is returned as given.
pub proof fn law_password_rules(p: Seq<char>)
    ensures
        password_verdict(p) matches Ok(q) ==> {
            &&& q == p
            &&& 8 <= byte_len(p) <= 128
            &&& exists|i: int| 0 <= i < p.len() && char_is_uppercase(#[trigger] p[i])
            &&& exists|i: int| 0 <= i < p.len() && char_is_lowercase(#[trigger] p[i])
            &&& exists|i: int| 0 <= i < p.len() && '0' <= #[trigger] p[i] <= '9'
        },
{
    if password_verdict(p) is Ok {
        let i = choose|i: int| 0 <= i < p.len() && is_ascii_digit_char(#[trigger] p[i]);
        assert('0' <= p[i] <= '9');
    }
}

} // verus!
