use ktmpl::processor::process_yaml;
use ktmpl::{
    parameter_values_from_str, parameter_values_from_yaml, Node, ParamMap, Parameter,
    ParameterFile, ParameterType, ParameterValue, ParameterValues, Secret, Secrets, Template,
};

#[test]
fn base64_parameter_encodes_plain_value() {
    let template = r#"
---
objects:
  - payload: "$(DATA)"
parameters:
  - name: "DATA"
    parameterType: "base64"
"#;
    let mut values = ParameterValues::new();
    values.insert("DATA".to_string(), ParameterValue::Plain("foo".to_string()));
    let output = Template::new(template.to_string(), values, None).unwrap().process().unwrap();
    assert_eq!(output, "---\npayload: Zm9v");
}

#[test]
fn base64_parameter_keeps_encoded_value() {
    let template = r#"
---
objects:
  - payload: "$(DATA)"
parameters:
  - name: "DATA"
    parameterType: "base64"
"#;
    let mut values = ParameterValues::new();
    values.insert("DATA".to_string(), ParameterValue::Encoded("Zm9v".to_string()));
    let output = Template::new(template.to_string(), values, None).unwrap().process().unwrap();
    assert_eq!(output, "---\npayload: Zm9v");
}

#[test]
fn non_base64_parameter_keeps_plain_value_raw() {
    let template = r#"
---
objects:
  - payload: "$(DATA)"
parameters:
  - name: "DATA"
    parameterType: "string"
"#;
    let mut values = ParameterValues::new();
    values.insert("DATA".to_string(), ParameterValue::Plain("foo".to_string()));
    let output = Template::new(template.to_string(), values, None).unwrap().process().unwrap();
    assert_eq!(output, "---\npayload: foo");
}

#[test]
fn secret_with_explicit_namespace_is_matched() {
    let template = r#"
---
objects:
  - kind: "Secret"
    metadata:
      name: "webapp"
      namespace: "prod"
    data:
      token: "foo"
parameters: []
"#;
    let mut secrets = Secrets::new();
    secrets.insert(Secret { name: "webapp".to_string(), namespace: "prod".to_string() });
    let output = Template::new(template.to_string(), ParameterValues::new(), Some(secrets))
        .unwrap()
        .process()
        .unwrap();
    assert_eq!(
        output,
        "---\ndata: \n  token: Zm9v\nkind: Secret\nmetadata: \n  name: webapp\n  namespace: prod"
    );
}

#[test]
fn omitted_namespace_defaults_when_matching() {
    let template = r#"
---
objects:
  - kind: "Secret"
    metadata:
      name: "webapp"
    data:
      token: "foo"
parameters: []
"#;
    let mut secrets = Secrets::new();
    secrets.insert(Secret { name: "webapp".to_string(), namespace: "default".to_string() });
    let output = Template::new(template.to_string(), ParameterValues::new(), Some(secrets))
        .unwrap()
        .process()
        .unwrap();
    assert_eq!(output, "---\ndata: \n  token: Zm9v\nkind: Secret\nmetadata: \n  name: webapp");
}

#[test]
fn matched_secret_without_data_counts_as_satisfied() {
    let template = r#"
---
objects:
  - kind: "Secret"
    metadata:
      name: "webapp"
parameters: []
"#;
    let mut secrets = Secrets::new();
    secrets.insert(Secret { name: "webapp".to_string(), namespace: "default".to_string() });
    let output = Template::new(template.to_string(), ParameterValues::new(), Some(secrets))
        .unwrap()
        .process()
        .unwrap();
    assert_eq!(output, "---\nkind: Secret\nmetadata: \n  name: webapp");
}

#[test]
fn namespace_mismatch_is_not_matched() {
    let template = r#"
---
objects:
  - kind: "Secret"
    metadata:
      name: "webapp"
    data:
      token: "foo"
parameters: []
"#;
    let mut secrets = Secrets::new();
    secrets.insert(Secret { name: "webapp".to_string(), namespace: "prod".to_string() });
    let result = Template::new(template.to_string(), ParameterValues::new(), Some(secrets))
        .unwrap()
        .process();
    assert_eq!(result.err().unwrap(), "Not all secrets specified were found.");
}

#[test]
fn untargeted_secret_is_left_unencoded() {
    let template = r#"
---
objects:
  - kind: "Secret"
    metadata:
      name: "other"
    data:
      token: "foo"
  - kind: "Secret"
    metadata:
      name: "webapp"
    data:
      token: "foo"
parameters: []
"#;
    let mut secrets = Secrets::new();
    secrets.insert(Secret { name: "webapp".to_string(), namespace: "default".to_string() });
    let output = Template::new(template.to_string(), ParameterValues::new(), Some(secrets))
        .unwrap()
        .process()
        .unwrap();
    assert_eq!(
        output,
        "---\ndata: \n  token: foo\nkind: Secret\nmetadata: \n  name: other\n---\ndata: \n  token: Zm9v\nkind: Secret\nmetadata: \n  name: webapp"
    );
}

#[test]
fn parameter_type_parses_exact_names_only() {
    assert!(matches!(ParameterType::from_str("base64"), Ok(ParameterType::Base64)));
    assert!(matches!(ParameterType::from_str("bool"), Ok(ParameterType::Bool)));
    assert!(matches!(ParameterType::from_str("int"), Ok(ParameterType::Int)));
    assert!(matches!(ParameterType::from_str("string"), Ok(ParameterType::String)));
    assert_eq!(
        ParameterType::from_str("Base64").err().unwrap(),
        "Invalid parameterType \"Base64\": parameterType must be base64, bool, int, or string."
    );
}

#[test]
fn parameter_values_parse_from_text() {
    let values = parameter_values_from_str("a: \"x\"\nb: \"y\"\n").unwrap();
    match values.get("b") {
        Some(ParameterValue::Plain(s)) => assert_eq!(s, "y"),
        _ => panic!("expected a plain value"),
    }
}

#[test]
fn parameter_values_reject_non_string_values() {
    let err = parameter_values_from_str("a:\n  - 1\n").err().unwrap();
    assert_eq!(err, "Parameter values in parameter files must be strings.");
}

#[test]
fn parameter_values_reject_non_string_names() {
    let err = parameter_values_from_str("1: \"x\"\n").err().unwrap();
    assert_eq!(err, "Parameters names in parameter files must be strings.");
}

#[test]
fn parameter_values_reject_non_mapping_documents() {
    let err = parameter_values_from_str("- 1\n").err().unwrap();
    assert_eq!(err, "YAML documents in parameter files must be hashes.");
}

#[test]
fn parameter_values_from_node_tree() {
    let doc = Node::Mapping(vec![(
        Node::Str("name".to_string()),
        Node::Str("mongo".to_string()),
    )]);
    let values = parameter_values_from_yaml(&doc).unwrap();
    match values.get("name") {
        Some(ParameterValue::Plain(s)) => assert_eq!(s, "mongo"),
        _ => panic!("expected a plain value"),
    }
}

#[test]
fn parameter_file_flattens_nested_mappings() {
    let text = "db:\n  host: \"localhost\"\n  port: 5432\nflag: true\npi: 3.25\nskipped:\n  - 1\n";
    let file = ParameterFile::from_str(text.to_string()).unwrap();
    match file.parameters.get("db_host") {
        Some(ParameterValue::Plain(s)) => assert_eq!(s, "localhost"),
        _ => panic!("expected db_host"),
    }
    match file.parameters.get("db_port") {
        Some(ParameterValue::Plain(s)) => assert_eq!(s, "5432"),
        _ => panic!("expected db_port"),
    }
    match file.parameters.get("flag") {
        Some(ParameterValue::Plain(s)) => assert_eq!(s, "true"),
        _ => panic!("expected flag"),
    }
    match file.parameters.get("pi") {
        Some(ParameterValue::Plain(s)) => assert_eq!(s, "3.25"),
        _ => panic!("expected pi"),
    }
    assert!(file.parameters.get("skipped").is_none());
    assert_eq!(file.doc_str, text);
    assert_eq!(file.filename, "");
}

#[test]
fn process_yaml_rewrites_a_tree_in_place() {
    let mut params = ParamMap::new();
    params.insert(Parameter {
        description: None,
        display_name: None,
        name: "WHO".to_string(),
        parameter_type: None,
        required: false,
        value: Some("world".to_string()),
    });

    let tree = Node::Mapping(vec![(
        Node::Str("greeting".to_string()),
        Node::Sequence(vec![Node::Str("hello $(WHO)".to_string()), Node::Int(7)]),
    )]);

    let rewritten = process_yaml(&tree, &params);
    match rewritten {
        Node::Mapping(entries) => {
            assert_eq!(entries.len(), 1);
            match &entries[0].1 {
                Node::Sequence(items) => {
                    assert!(matches!(&items[0], Node::Str(s) if s == "hello world"));
                    assert!(matches!(&items[1], Node::Int(7)));
                },
                _ => panic!("expected a sequence"),
            }
        },
        _ => panic!("expected a mapping"),
    }
}
