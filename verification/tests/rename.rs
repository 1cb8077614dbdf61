//! The case conventions of `rename_all`, applied to variants and to fields.

use serde_lax::rename::RenameRule;

const RULES: [(&str, RenameRule); 8] = [
    ("lowercase", RenameRule::LowerCase),
    ("UPPERCASE", RenameRule::UpperCase),
    ("PascalCase", RenameRule::PascalCase),
    ("camelCase", RenameRule::CamelCase),
    ("snake_case", RenameRule::SnakeCase),
    ("SCREAMING_SNAKE_CASE", RenameRule::ScreamingSnakeCase),
    ("kebab-case", RenameRule::KebabCase),
    ("SCREAMING-KEBAB-CASE", RenameRule::ScreamingKebabCase),
];

#[test]
fn rule_names_are_recognised_exactly() {
    for (name, rule) in RULES {
        assert_eq!(RenameRule::from_name(name), Some(rule));
    }
    assert_eq!(RenameRule::from_name("camelcase"), None);
    assert_eq!(RenameRule::from_name("Snake_Case"), None);
    assert_eq!(RenameRule::from_name(""), None);
}

#[test]
fn variants_follow_each_convention() {
    let expected = [
        "httpserver",
        "HTTPSERVER",
        "HttpServer",
        "httpServer",
        "http_server",
        "HTTP_SERVER",
        "http-server",
        "HTTP-SERVER",
    ];
    for ((_, rule), want) in RULES.iter().zip(expected) {
        assert_eq!(rule.apply_to_variant("HttpServer"), want);
    }
    assert_eq!(RenameRule::Unchanged.apply_to_variant("HttpServer"), "HttpServer");
}

#[test]
fn fields_follow_each_convention() {
    let expected = [
        "line_items",
        "LINE_ITEMS",
        "LineItems",
        "lineItems",
        "line_items",
        "LINE_ITEMS",
        "line-items",
        "LINE-ITEMS",
    ];
    for ((_, rule), want) in RULES.iter().zip(expected) {
        assert_eq!(rule.apply_to_field("line_items"), want);
    }
    assert_eq!(RenameRule::Unchanged.apply_to_field("line_items"), "line_items");
}

#[test]
fn every_uppercase_letter_starts_a_word_in_snake_case() {
    assert_eq!(RenameRule::SnakeCase.apply_to_variant("HTTPServer"), "h_t_t_p_server");
    assert_eq!(RenameRule::SnakeCase.apply_to_variant("X\u{c0}"), "x_\u{c0}");
    assert_eq!(RenameRule::KebabCase.apply_to_variant("X\u{c0}y"), "x-\u{c0}y");
    assert_eq!(RenameRule::SnakeCase.apply_to_variant("a\u{e9}B"), "a\u{e9}_b");
}
