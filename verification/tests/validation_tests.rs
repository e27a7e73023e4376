use bismillah::text::{decimal_string, sanitize_string};
use bismillah::validation::{validate_email, validate_password, validate_username};

#[test]
fn sanitize_drops_control_characters_and_trims() {
    assert_eq!(sanitize_string("  ab\u{0}c\u{7}  "), "abc");
    assert_eq!(sanitize_string("\tline\none\r\n"), "line\none");
    assert_eq!(sanitize_string(""), "");
    assert_eq!(sanitize_string(" \u{1b} "), "");
}

#[test]
fn sanitize_keeps_inner_whitespace() {
    assert_eq!(sanitize_string("a b\tc"), "a b\tc");
}

#[test]
fn sanitize_trims_unicode_whitespace() {
    assert_eq!(sanitize_string("\u{a0}x y\u{2003}"), "x y");
}

#[test]
fn decimal_string_writes_digits() {
    assert_eq!(decimal_string(0), "0");
    assert_eq!(decimal_string(42), "42");
    assert_eq!(decimal_string(u64::MAX), "18446744073709551615");
}

#[test]
fn username_accepted_after_sanitizing() {
    assert_eq!(validate_username("  alice_01 "), Ok("alice_01".to_string()));
    assert_eq!(validate_username("a-b"), Ok("a-b".to_string()));
    assert_eq!(validate_username("élan"), Ok("élan".to_string()));
}

#[test]
fn username_too_short() {
    assert_eq!(
        validate_username(" ab "),
        Err("Username must be at least 3 characters long".to_string())
    );
}

#[test]
fn username_length_counts_bytes() {
    // Two characters, four bytes.
    assert_eq!(validate_username("éé"), Ok("éé".to_string()));
}

#[test]
fn username_too_long() {
    let name = "a".repeat(51);
    assert_eq!(
        validate_username(&name),
        Err("Username must be less than 50 characters long".to_string())
    );
    let name = "a".repeat(50);
    assert_eq!(validate_username(&name), Ok(name.clone()));
}

#[test]
fn username_bad_characters() {
    assert_eq!(
        validate_username("bob smith"),
        Err("Username can only contain alphanumeric characters, underscores, and hyphens".to_string())
    );
    assert_eq!(
        validate_username("bob!"),
        Err("Username can only contain alphanumeric characters, underscores, and hyphens".to_string())
    );
}

#[test]
fn email_accepted() {
    assert_eq!(validate_email(" a@b.co "), Ok("a@b.co".to_string()));
}

#[test]
fn email_refused() {
    let bad = Err("Invalid email format".to_string());
    assert_eq!(validate_email("ab.co"), bad);
    assert_eq!(validate_email("a@@b.co"), bad);
    assert_eq!(validate_email("a@b@c.co"), bad);
    assert_eq!(validate_email("@b.co"), bad);
    assert_eq!(validate_email("a@"), bad);
    assert_eq!(validate_email("a@bco"), bad);
    // The dot must come after the `@`.
    assert_eq!(validate_email("a.b@co"), bad);
}

#[test]
fn email_too_long() {
    let address = format!("{}@b.co", "a".repeat(250));
    assert_eq!(
        validate_email(&address),
        Err("Email must be less than 254 characters long".to_string())
    );
}

#[test]
fn password_rules() {
    assert_eq!(validate_password("Passw0rd"), Ok("Passw0rd".to_string()));
    assert_eq!(
        validate_password("Pa0"),
        Err("Password must be at least 8 characters long".to_string())
    );
    assert_eq!(
        validate_password(&format!("Aa1{}", "x".repeat(126))),
        Err("Password must be less than 128 characters long".to_string())
    );
    let missing = Err(
        "Password must contain at least one uppercase letter, one lowercase letter, and one digit"
            .to_string(),
    );
    assert_eq!(validate_password("password1"), missing);
    assert_eq!(validate_password("PASSWORD1"), missing);
    assert_eq!(validate_password("Password"), missing);
}

#[test]
fn password_is_not_sanitized() {
    assert_eq!(validate_password(" Passw0rd "), Ok(" Passw0rd ".to_string()));
}

#[test]
fn sanitizing_twice_changes_nothing() {
    for s in [" \u{7}a b\t ", "\u{0}\u{0} x", "plain", "  ", "\u{a0}\u{1}y\u{a0}"] {
        let once = sanitize_string(s);
        assert_eq!(sanitize_string(&once), once);
    }
}

#[test]
fn accepted_values_revalidate_unchanged() {
    let u = validate_username(" \u{1}carol_9 ").unwrap();
    assert_eq!(validate_username(&u), Ok(u.clone()));
    let e = validate_email("\tcarol@example.org\u{7f}").unwrap();
    assert_eq!(e, "carol@example.org");
    assert_eq!(validate_email(&e), Ok(e.clone()));
}
