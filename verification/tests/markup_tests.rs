use site_i18n::markup::{should_wrap, should_wrap_team, wrap_with_markup};
use site_i18n::bundle::{email_markup, english_markup};

#[test]
fn wrap_rule_title_suffix() {
    assert_eq!(should_wrap("x-title", true), false);
}

#[test]
fn wrap_rule_plain_id() {
    assert_eq!(should_wrap("x", true), true);
}

#[test]
fn wrap_rule_mode_off() {
    assert_eq!(should_wrap("x", false), false);
}

#[test]
fn wrap_rule_meta_prefix() {
    assert_eq!(should_wrap("meta-x", true), false);
}

#[test]
fn wrap_rule_alt_suffix() {
    assert_eq!(should_wrap("picture-alt", true), false);
}

#[test]
fn team_wrap_rule_keeps_title() {
    assert_eq!(should_wrap_team("x-title", true), true);
    assert_eq!(should_wrap_team("x-alt", true), false);
    assert_eq!(should_wrap_team("meta-x", true), false);
    assert_eq!(should_wrap_team("x", false), false);
}

#[test]
fn markup_wraps_text_unchanged() {
    let out = wrap_with_markup("greeting", "Hello");
    assert_eq!(out, "<span data-l10n-id='greeting'>Hello</span>");
}

#[test]
fn email_markup_text() {
    assert_eq!(
        email_markup("who@example.com"),
        "<a href='mailto:who@example.com' lang='en-US'>who@example.com</a>"
    );
}

#[test]
fn english_markup_text() {
    assert_eq!(english_markup("plain"), "<span lang='en-US'>plain</span>");
}
