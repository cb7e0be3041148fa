use app_organizer::config::Casing;
use app_organizer::rules::to_snake_case;

#[test]
fn snake_case_handles_acronyms_and_digits() {
    for (input, expected) in [
        ("Credentials", "credentials"),
        ("authenticate", "authenticate"),
        ("HTTPClient", "http_client"),
        ("UserID", "user_id"),
        ("parse2Json", "parse2_json"),
        ("_Private", "_private"),
        ("already_snake", "already_snake"),
    ] {
        assert_eq!(to_snake_case(input), expected, "for `{input}`");
    }
}

#[test]
fn snake_case_of_nothing_is_nothing() {
    assert_eq!(to_snake_case(""), "");
    assert_eq!(to_snake_case("A"), "a");
    assert_eq!(to_snake_case("ABC"), "abc");
}

#[test]
fn casings_check_names() {
    assert!(Casing::SnakeCase.matches("user_id2"));
    assert!(!Casing::SnakeCase.matches("UserId"));
    assert!(!Casing::SnakeCase.matches(""));
    assert!(Casing::KebabCase.matches("user-id"));
    assert!(!Casing::KebabCase.matches("user_id"));
    assert!(Casing::PascalCase.matches("UserId"));
    assert!(!Casing::PascalCase.matches("userId"));
    assert!(Casing::CamelCase.matches("userId"));
    assert!(!Casing::CamelCase.matches("user_id"));
}

#[test]
fn casings_suggest_names() {
    assert_eq!(Casing::SnakeCase.suggest("HTTPClient"), Some("http_client".to_string()));
    assert_eq!(Casing::KebabCase.suggest("HTTPClient"), Some("http-client".to_string()));
    assert_eq!(Casing::PascalCase.suggest("http_client"), None);
    assert_eq!(Casing::CamelCase.suggest("http_client"), None);
    assert_eq!(Casing::KebabCase.as_str(), "kebab-case");
    assert_eq!(Casing::CamelCase.as_str(), "camelCase");
}

#[test]
fn snake_case_is_its_own_spelling() {
    for input in ["Credentials", "HTTPClient", "UserID", "parse2Json", "_Private", "a_B_c", "ABC"] {
        let once = to_snake_case(input);
        assert_eq!(to_snake_case(&once), once, "for `{input}`");
        assert!(!once.chars().any(|c| c.is_ascii_uppercase()));
        assert_eq!(once.replace('_', ""), input.replace('_', "").to_ascii_lowercase());
    }
}
