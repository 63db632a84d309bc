use std::sync::Arc;
use fluent_bundle::FluentResource;
use site_i18n::bundle::{create_bundle, parse_resource};
use site_i18n::i18n::I18NHelper;
use site_i18n::params::{
    BlockParam, HashValue, NodeElement, ParamBlock, RootArg, TemplateError, TemplateNode,
};
use site_i18n::render::{team_fluent_id, team_params, HelperError, TeamHelper};

fn res(src: &str) -> Arc<FluentResource> {
    parse_resource(src.to_string()).expect("resource must parse")
}

fn helper() -> I18NHelper {
    let core = res("greeting = Hello { $name }\nplain = Plain text\ngovernance-team-core-name = Kernteam");
    let en = create_bundle("en-US", core.clone(), &vec![]).expect("en bundle");
    let de = create_bundle("de", core.clone(), &vec![res("governance-team-core-role = Rolle")])
        .expect("de bundle");
    I18NHelper::new(vec![("en-US".to_string(), en), ("de".to_string(), de)])
}

fn id_node(id: &str) -> TemplateNode {
    TemplateNode { args: vec![RootArg::StrLit(id.to_string())], hash: vec![], template: None }
}

#[test]
fn render_plain_lookup() {
    let h = helper();
    let out = h.render(&id_node("plain"), "en-US", false).unwrap();
    assert_eq!(out, "Plain text");
}

#[test]
fn render_wraps_in_context_mode() {
    let h = helper();
    let out = h.render(&id_node("plain"), "en-US", true).unwrap();
    assert_eq!(out, "<span data-l10n-id='plain'>Plain text</span>");
}

#[test]
fn render_with_rendered_parameter() {
    let h = helper();
    let node = TemplateNode {
        args: vec![RootArg::StrLit("greeting".to_string())],
        hash: vec![],
        template: Some(vec![NodeElement::Block(ParamBlock {
            name: "fluentparam".to_string(),
            params: vec![BlockParam::StrLit("name".to_string())],
            body: Some("Ferris".to_string()),
        })]),
    };
    assert_eq!(h.render(&node, "en-US", false).unwrap(), "Hello Ferris");
}

#[test]
fn render_requires_identifier() {
    let h = helper();
    let node = TemplateNode { args: vec![], hash: vec![], template: None };
    assert!(matches!(h.render(&node, "en-US", false), Err(HelperError::MissingParameter)));
    let node = TemplateNode {
        args: vec![RootArg::Path("x".to_string())],
        hash: vec![],
        template: None,
    };
    assert!(matches!(h.render(&node, "en-US", false), Err(HelperError::PathParameter)));
    let node = TemplateNode { args: vec![RootArg::OtherLit], hash: vec![], template: None };
    assert!(matches!(h.render(&node, "en-US", false), Err(HelperError::NonStringParameter)));
}

#[test]
fn render_propagates_structural_errors() {
    let h = helper();
    let node = TemplateNode {
        args: vec![RootArg::StrLit("plain".to_string())],
        hash: vec![("a".to_string(), HashValue::Str("v".to_string()))],
        template: Some(vec![NodeElement::Block(ParamBlock {
            name: "if".to_string(),
            params: vec![],
            body: None,
        })]),
    };
    assert!(matches!(
        h.render(&node, "en-US", false),
        Err(HelperError::Template(TemplateError::UnknownBlock))
    ));
}

#[test]
fn team_params_want_two_identifiers() {
    let node = TemplateNode {
        args: vec![RootArg::Path("team".to_string()), RootArg::Path("name".to_string())],
        hash: vec![],
        template: None,
    };
    let (n, i) = team_params(&node).unwrap();
    assert_eq!(n, "team");
    assert_eq!(i, "name");
    let bad = TemplateNode {
        args: vec![RootArg::Path("team".to_string())],
        hash: vec![],
        template: None,
    };
    assert!(matches!(team_params(&bad), Err(HelperError::MissingParameter)));
    let bad = TemplateNode {
        args: vec![RootArg::StrLit("team".to_string()), RootArg::Path("name".to_string())],
        hash: vec![],
        template: None,
    };
    assert!(matches!(team_params(&bad), Err(HelperError::NotIdentifier)));
}

#[test]
fn team_fluent_id_is_synthesized() {
    assert_eq!(team_fluent_id("core", "name"), "governance-team-core-name");
}

#[test]
fn team_text_english_uses_team_data() {
    let th = TeamHelper::new(helper());
    let english = "Core Team".to_string();
    let out = th.render_team("en-US", "name", "core", Some(&english), false).unwrap();
    assert_eq!(out, "Core Team");
}

#[test]
fn team_text_translated_locale_uses_chain() {
    let th = TeamHelper::new(helper());
    let english = "Core Team".to_string();
    // The synthesized identifier exists in the de bundle through the core.
    let out = th.render_team("de", "name", "core", Some(&english), false).unwrap();
    assert_eq!(out, "Kernteam");
}

#[test]
fn team_text_falls_back_to_english_text() {
    let th = TeamHelper::new(helper());
    let english = "The English description".to_string();
    let out = th.render_team("de", "desc", "core", Some(&english), false).unwrap();
    assert_eq!(out, "The English description");
}

#[test]
fn team_text_wraps_with_synthesized_id() {
    let th = TeamHelper::new(helper());
    let english = "Core Team".to_string();
    let out = th.render_team("en-US", "name", "core", Some(&english), true).unwrap();
    assert_eq!(out, "<span data-l10n-id='governance-team-core-name'>Core Team</span>");
}

#[test]
fn team_text_missing_english_is_an_error() {
    let th = TeamHelper::new(helper());
    assert!(matches!(
        th.render_team("en-US", "name", "core", None, false),
        Err(HelperError::MissingTeamText)
    ));
}
