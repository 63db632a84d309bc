use std::sync::Arc;
use fluent_bundle::FluentResource;
use site_i18n::bundle::{create_bundle, parse_resource, Bundle, BundleError};
use site_i18n::fallback::build_fallbacks;
use site_i18n::i18n::{explicit_locale_info, I18NHelper, LookupError};
use site_i18n::params::{ArgValue, ArgumentMap};

fn res(src: &str) -> Arc<FluentResource> {
    parse_resource(src.to_string()).expect("resource must parse")
}

fn helper() -> I18NHelper {
    let core = res("test-id = English text\ngreet = Hello { $name }\ncount-msg = You have { $count }\nonly-attr =\n    .label = Hi\ncontact = { EMAIL(\"who@example.com\") }\nmarked = { ENGLISH(\"plain\") }");
    let en_own = res("english-only = Only in English");
    let zh_own = res("zh-only = \u{4e2d}\u{6587}");
    let en = create_bundle("en-US", core.clone(), &vec![en_own]).expect("en bundle");
    let zh = create_bundle("zh-CN", core.clone(), &vec![zh_own]).expect("zh bundle");
    I18NHelper::new(vec![("en-US".to_string(), en), ("zh-CN".to_string(), zh)])
}

#[test]
fn fallback_chains_cover_locales() {
    let chains = build_fallbacks(&vec!["en-US".to_string(), "zh-CN".to_string()]);
    assert_eq!(chains.len(), 2);
    assert_eq!(chains[0].0, "en-US");
    assert!(!chains[0].1.is_empty());
    assert_eq!(chains[0].1[0], "en-US");
    assert!(!chains[1].1.is_empty());
    assert_eq!(chains[1].1[0], "zh-CN");
}

#[test]
fn lookup_core_id_direct() {
    let h = helper();
    assert_eq!(h.lookup("en-US", "test-id", None).unwrap(), "English text");
    assert_eq!(h.lookup("zh-CN", "test-id", None).unwrap(), "English text");
}

#[test]
fn lookup_unsupported_locale_falls_back_to_default() {
    // Locales en-US and zh-CN are present; zh-TW has no bundle, and the
    // identifier is defined only in the core resource of en-US.
    let h = helper();
    assert_eq!(h.lookup("zh-TW", "english-only", None).unwrap(), "Only in English");
}

#[test]
fn lookup_missing_id_gives_placeholder() {
    let h = helper();
    assert_eq!(
        h.lookup("en-US", "no-such-id", None).unwrap(),
        "Unknown localization no-such-id"
    );
}

#[test]
fn lookup_no_english_absent_iff_chain_misses() {
    let h = helper();
    // Defined only in the en-US bundle's own resource: absent for zh-CN.
    assert!(h.lookup_no_english("zh-CN", "english-only", None).unwrap().is_none());
    // Defined in the chain: present.
    assert_eq!(
        h.lookup_no_english("zh-CN", "zh-only", None).unwrap().unwrap(),
        "\u{4e2d}\u{6587}"
    );
    // The default-permitting variant still resolves it.
    assert_eq!(h.lookup("zh-CN", "english-only", None).unwrap(), "Only in English");
}

#[test]
fn lookup_formats_string_argument() {
    let h = helper();
    let mut args = ArgumentMap::new();
    args.insert("name".to_string(), ArgValue::Str("Ferris".to_string()));
    assert_eq!(h.lookup("en-US", "greet", Some(&args)).unwrap(), "Hello Ferris");
}

#[test]
fn lookup_formats_number_argument() {
    let h = helper();
    let mut args = ArgumentMap::new();
    args.insert("count".to_string(), ArgValue::Num("42".to_string()));
    assert_eq!(h.lookup("en-US", "count-msg", Some(&args)).unwrap(), "You have 42");
}

#[test]
fn lookup_message_without_value_is_fatal() {
    let h = helper();
    match h.lookup("en-US", "only-attr", None).unwrap_err() {
        LookupError::Format(e) => {
            assert_eq!(e.locale, "en-US");
            assert_eq!(e.id, "only-attr");
        }
        other => panic!("expected a formatting fault, got {:?}", other),
    }
}

#[test]
fn lookup_against_unknown_locale_is_fatal() {
    let h = helper();
    match h.lookup_single_language("xx", "test-id", None).unwrap_err() {
        LookupError::UnknownLanguage(l) => assert_eq!(l, "xx"),
        other => panic!("expected an unknown-language fault, got {:?}", other),
    }
}

#[test]
fn lookup_without_default_bundle_is_fatal() {
    // A roster without the final default locale: exhausting the chain then
    // reaches a locale no bundle was built for.
    let zh = create_bundle("zh-CN", res("zh-only = \u{4e2d}\u{6587}"), &vec![]).expect("zh bundle");
    let h = I18NHelper::new(vec![("zh-CN".to_string(), zh)]);
    match h.lookup("zh-CN", "absent-id", None).unwrap_err() {
        LookupError::UnknownLanguage(l) => assert_eq!(l, "en-US"),
        other => panic!("expected an unknown-language fault, got {:?}", other),
    }
}

#[test]
fn duplicate_ids_within_one_resource_are_fatal() {
    let core = res("dup = one\ndup = two");
    assert!(matches!(create_bundle("en-US", core, &vec![]), Err(BundleError::ResourceConflict)));
}

#[test]
fn single_language_lookup_is_scoped() {
    let h = helper();
    assert!(h.lookup_single_language("zh-CN", "english-only", None).unwrap().is_none());
    assert_eq!(
        h.lookup_single_language("en-US", "english-only", None).unwrap().unwrap(),
        "Only in English"
    );
}

#[test]
fn email_function_formats_address() {
    let h = helper();
    assert_eq!(
        h.lookup("en-US", "contact", None).unwrap(),
        "<a href='mailto:who@example.com' lang='en-US'>who@example.com</a>"
    );
}

#[test]
fn english_function_marks_text() {
    let h = helper();
    assert_eq!(h.lookup("zh-CN", "marked", None).unwrap(), "<span lang='en-US'>plain</span>");
}

#[test]
fn conflicting_resources_are_fatal() {
    let core = res("dup = one");
    let clash = res("dup = two");
    let r: Result<Bundle, BundleError> = create_bundle("en-US", core, &vec![clash]);
    assert!(matches!(r, Err(BundleError::ResourceConflict)));
}

#[test]
fn resource_shadowing_function_name_is_fatal() {
    let core = res("EMAIL = shadow");
    let r = create_bundle("en-US", core, &vec![]);
    assert!(matches!(r, Err(BundleError::FunctionConflict)));
}

#[test]
fn malformed_resource_is_rejected() {
    assert!(parse_resource("just some words without a message".to_string()).is_err());
}

#[test]
fn supported_locale_checks_bundles() {
    let h = helper();
    assert_eq!(h.supported_locale("en-US").unwrap().0, "en-US");
    assert!(h.supported_locale("fr").is_none());
}

#[test]
fn locale_info_lists_offered_locales() {
    let infos = explicit_locale_info();
    assert_eq!(infos.len(), 6);
    assert_eq!(infos[0].lang, "en-US");
    assert_eq!(infos[0].text, "English");
    assert_eq!(infos[1].lang, "zh-CN");
}
