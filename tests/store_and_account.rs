use catalyst::account::{is_email_like, normalize_email, validate_password};
use catalyst::store::{
    classify_steam_game_kind, decode_basic_html_entities, is_forbidden_http_error,
    normalize_backend_warning_message,
};

#[test]
fn html_entities_are_decoded_in_order() {
    assert_eq!(decode_basic_html_entities("Tom &amp; Jerry &lt;3&gt; &quot;x&quot; it&#39;s"), "Tom & Jerry <3> \"x\" it's");
    assert_eq!(decode_basic_html_entities("&amp;lt;"), "<");
    assert_eq!(decode_basic_html_entities("a&nbsp;b&apos;"), "a b'");
}

#[test]
fn kinds_from_names() {
    assert_eq!(classify_steam_game_kind("Portal 2 Demo"), "demo");
    assert_eq!(classify_steam_game_kind("Demonic Tales"), "game");
    assert_eq!(classify_steam_game_kind("Game - DLC Pack"), "dlc");
    assert_eq!(classify_steam_game_kind("Great Game Season Pass"), "dlc");
    assert_eq!(classify_steam_game_kind("Original Soundtrack"), "dlc");
    assert_eq!(classify_steam_game_kind("Half-Life"), "game");
}

#[test]
fn forbidden_errors() {
    assert!(is_forbidden_http_error("Request failed with STATUS 403"));
    assert!(is_forbidden_http_error("Forbidden"));
    assert!(!is_forbidden_http_error("status 404"));
}

#[test]
fn warnings_are_compacted_and_cut() {
    assert_eq!(normalize_backend_warning_message("  a \n b\t\tc "), "a b c");
    assert_eq!(
        normalize_backend_warning_message(" \n "),
        "Could not load beta branch data from Steam."
    );
    let long: String = std::iter::repeat("ab ").take(100).collect();
    let cut = normalize_backend_warning_message(&long);
    assert_eq!(cut.chars().count(), 220);
    assert!(cut.ends_with("..."));
    let exact: String = std::iter::repeat('x').take(220).collect();
    assert_eq!(normalize_backend_warning_message(&exact), exact);
}

#[test]
fn passwords_have_bounded_length() {
    assert!(validate_password("1234567").is_err());
    assert!(validate_password("12345678").is_ok());
    let max: String = std::iter::repeat('é').take(128).collect();
    assert!(validate_password(&max).is_ok());
    let over: String = std::iter::repeat('a').take(129).collect();
    assert!(validate_password(&over).is_err());
}

#[test]
fn email_shapes() {
    assert!(is_email_like("a@b.c"));
    assert!(!is_email_like("a b@c.d"));
    assert!(!is_email_like("@b.c"));
    assert!(!is_email_like("a@.bc"));
    assert!(!is_email_like("a@bc."));
    assert!(!is_email_like("a@bc"));
    assert!(!is_email_like("abc"));
    assert!(is_email_like("a@b@c.d"));
}

#[test]
fn emails_are_trimmed_and_lowered() {
    assert_eq!(normalize_email("  Ann@Example.COM ").unwrap(), "ann@example.com");
    assert!(normalize_email("not-an-address").is_err());
}
