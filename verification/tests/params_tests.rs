use site_i18n::params::{
    extract, ArgValue, ArgumentMap, BlockParam, HashValue, NodeElement, ParamBlock, RootArg,
    TemplateError, TemplateNode,
};

fn node(
    args: Vec<RootArg>,
    hash: Vec<(String, HashValue)>,
    template: Option<Vec<NodeElement>>,
) -> TemplateNode {
    TemplateNode { args, hash, template }
}

#[test]
fn extract_filters_hash_to_strings_and_numbers() {
    let n = node(
        vec![],
        vec![
            ("a".to_string(), HashValue::Str("one".to_string())),
            ("b".to_string(), HashValue::Num("2".to_string())),
            ("c".to_string(), HashValue::Other),
        ],
        None,
    );
    let m = extract(&n).unwrap().unwrap();
    assert!(matches!(m.get("a"), Some(ArgValue::Str(s)) if s == "one"));
    assert!(matches!(m.get("b"), Some(ArgValue::Num(s)) if s == "2"));
    assert!(m.get("c").is_none());
}

#[test]
fn extract_empty_hash_is_absent() {
    let n = node(vec![], vec![], None);
    assert!(extract(&n).unwrap().is_none());
}

#[test]
fn extract_block_missing_name_is_structural_error() {
    let n = node(
        vec![],
        vec![("a".to_string(), HashValue::Str("one".to_string()))],
        Some(vec![NodeElement::Block(ParamBlock {
            name: "fluentparam".to_string(),
            params: vec![],
            body: Some("v".to_string()),
        })]),
    );
    assert!(matches!(extract(&n), Err(TemplateError::BlockMissingName)));
}

#[test]
fn extract_unknown_block_is_structural_error() {
    let n = node(
        vec![],
        vec![],
        Some(vec![NodeElement::Block(ParamBlock {
            name: "each".to_string(),
            params: vec![BlockParam::StrLit("x".to_string())],
            body: None,
        })]),
    );
    assert!(matches!(extract(&n), Err(TemplateError::UnknownBlock)));
}

#[test]
fn extract_non_string_name_is_structural_error() {
    let n = node(
        vec![],
        vec![],
        Some(vec![NodeElement::Block(ParamBlock {
            name: "fluentparam".to_string(),
            params: vec![BlockParam::Other],
            body: None,
        })]),
    );
    assert!(matches!(extract(&n), Err(TemplateError::BlockNonStringName)));
}

#[test]
fn extract_rendered_child_binds_parameter() {
    let n = node(
        vec![RootArg::StrLit("greeting".to_string())],
        vec![],
        Some(vec![NodeElement::Block(ParamBlock {
            name: "fluentparam".to_string(),
            params: vec![BlockParam::StrLit("name".to_string())],
            body: Some("Ferris".to_string()),
        })]),
    );
    let m = extract(&n).unwrap().unwrap();
    assert!(matches!(m.get("name"), Some(ArgValue::Str(s)) if s == "Ferris"));
}

#[test]
fn extract_child_overwrites_literal() {
    let n = node(
        vec![],
        vec![("name".to_string(), HashValue::Str("literal".to_string()))],
        Some(vec![NodeElement::Block(ParamBlock {
            name: "fluentparam".to_string(),
            params: vec![BlockParam::StrLit("name".to_string())],
            body: Some("rendered".to_string()),
        })]),
    );
    let m = extract(&n).unwrap().unwrap();
    assert!(matches!(m.get("name"), Some(ArgValue::Str(s)) if s == "rendered"));
}

#[test]
fn argument_map_insert_overwrites() {
    let mut m = ArgumentMap::new();
    m.insert("k".to_string(), ArgValue::Str("a".to_string()));
    m.insert("k".to_string(), ArgValue::Str("b".to_string()));
    assert!(matches!(m.get("k"), Some(ArgValue::Str(s)) if s == "b"));
    assert!(m.get("other").is_none());
}
