use ktmpl::{ParameterValue, ParameterValues, Secret, Secrets, Template};

fn new_err(template: &str) -> String {
    Template::new(template.to_string(), ParameterValues::new(), None).err().unwrap()
}

fn secret_webapp() -> Secrets {
    let mut secrets = Secrets::new();
    secrets.insert(Secret {
        name: "webapp".to_string(),
        namespace: "default".to_string(),
    });
    secrets
}

fn process_err_with_secrets(template: &str) -> String {
    Template::new(template.to_string(), ParameterValues::new(), Some(secret_webapp()))
        .unwrap()
        .process()
        .err()
        .unwrap()
}

#[test]
fn two_documents_are_rejected() {
    let template = "---\nobjects: []\nparameters: []\n---\nobjects: []\nparameters: []\n";
    assert_eq!(new_err(template), "Only one YAML document can be present in the template.");
}

#[test]
fn missing_objects_key_is_rejected() {
    let template = "---\nparameters: []\n";
    assert_eq!(new_err(template), "Key \"objects\" must be present and must be an array.");
}

#[test]
fn non_array_objects_key_is_rejected() {
    let template = "---\nobjects: 3\nparameters: []\n";
    assert_eq!(new_err(template), "Key \"objects\" must be present and must be an array.");
}

#[test]
fn missing_parameters_key_is_rejected() {
    let template = "---\nobjects: []\n";
    assert_eq!(new_err(template), "Key \"parameters\" must be present and must be an array.");
}

#[test]
fn parameter_without_name_is_rejected() {
    let template = "---\nobjects: []\nparameters:\n  - description: \"nameless\"\n";
    assert_eq!(new_err(template), "Parameters must have a \"name\" field.");
}

#[test]
fn invalid_parameter_type_is_rejected() {
    let template = "---\nobjects: []\nparameters:\n  - name: \"X\"\n    parameterType: \"float\"\n";
    assert_eq!(
        new_err(template),
        "Invalid parameterType \"float\": parameterType must be base64, bool, int, or string.",
    );
}

#[test]
fn required_parameter_without_value_is_rejected() {
    let template = r#"
---
objects: []
parameters:
  - name: "PASSWORD"
    required: true
    parameterType: "string"
"#;
    assert_eq!(new_err(template), "Parameter PASSWORD required and must be a string");
}

#[test]
fn required_parameter_message_uses_display_name_and_type_fallback() {
    let template = r#"
---
objects: []
parameters:
  - name: "PW"
    displayName: "The password"
    required: true
"#;
    assert_eq!(
        new_err(template),
        "Parameter The password required and must be base64, bool, int, or string"
    );
}

#[test]
fn required_parameter_succeeds_once_supplied() {
    let template = r#"
---
objects: []
parameters:
  - name: "PASSWORD"
    required: true
    parameterType: "string"
"#;
    let mut values = ParameterValues::new();
    values.insert("PASSWORD".to_string(), ParameterValue::Plain("x".to_string()));
    assert!(Template::new(template.to_string(), values, None).is_ok());
}

#[test]
fn required_parameter_succeeds_with_inline_value() {
    let template = r#"
---
objects: []
parameters:
  - name: "PASSWORD"
    required: true
    value: "inline"
"#;
    assert!(Template::new(template.to_string(), ParameterValues::new(), None).is_ok());
}

#[test]
fn resource_without_kind_is_rejected() {
    let template = "---\nobjects:\n  - name: \"x\"\nparameters: []\n";
    assert_eq!(
        process_err_with_secrets(template),
        "Encountered a resource without a \"kind\" field."
    );
}

#[test]
fn resource_with_non_string_kind_is_rejected() {
    let template = "---\nobjects:\n  - kind: 5\nparameters: []\n";
    assert_eq!(
        process_err_with_secrets(template),
        "Encountered a resource with a non-string value for the \"kind\" field."
    );
}

#[test]
fn secret_without_metadata_is_rejected() {
    let template = "---\nobjects:\n  - kind: \"Secret\"\nparameters: []\n";
    assert_eq!(
        process_err_with_secrets(template),
        "Encountered a resource without a \"metadata\" field."
    );
}

#[test]
fn secret_with_non_hash_metadata_is_rejected() {
    let template = "---\nobjects:\n  - kind: \"Secret\"\n    metadata: 5\nparameters: []\n";
    assert_eq!(
        process_err_with_secrets(template),
        "Encountered a resource with a non-hash \"metadata\" field."
    );
}

#[test]
fn secret_without_metadata_name_is_rejected() {
    let template =
        "---\nobjects:\n  - kind: \"Secret\"\n    metadata:\n      labels: \"x\"\nparameters: []\n";
    assert_eq!(
        process_err_with_secrets(template),
        "Encountered a resource without a \"metadata.name\" field."
    );
}

#[test]
fn secret_with_non_string_namespace_is_rejected() {
    let template = "---\nobjects:\n  - kind: \"Secret\"\n    metadata:\n      name: \"webapp\"\n      namespace: 5\nparameters: []\n";
    assert_eq!(
        process_err_with_secrets(template),
        "Encountered a resource with a non-string \"metadata.namespace\" field."
    );
}

#[test]
fn secret_with_non_hash_data_is_rejected() {
    let template = "---\nobjects:\n  - kind: \"Secret\"\n    metadata:\n      name: \"webapp\"\n    data: 5\nparameters: []\n";
    assert_eq!(
        process_err_with_secrets(template),
        "Encountered secret with non-hash \"data\" field."
    );
}

#[test]
fn secret_with_non_string_data_value_is_rejected() {
    let template = "---\nobjects:\n  - kind: \"Secret\"\n    metadata:\n      name: \"webapp\"\n    data:\n      k: 5\nparameters: []\n";
    assert_eq!(process_err_with_secrets(template), "Encountered non-string secret data value.");
}

#[test]
fn unmatched_secret_reports_completeness_error() {
    let template = "---\nobjects:\n  - kind: \"Widget\"\nparameters: []\n";
    assert_eq!(process_err_with_secrets(template), "Not all secrets specified were found.");
}

#[test]
fn unparsable_template_is_rejected() {
    let template = "---\nobjects: [\n";
    assert!(Template::new(template.to_string(), ParameterValues::new(), None).is_err());
}

#[test]
fn empty_objects_list_yields_empty_output() {
    let template = "---\nobjects: []\nparameters: []\n";
    let output = Template::new(template.to_string(), ParameterValues::new(), None)
        .unwrap()
        .process()
        .unwrap();
    assert_eq!(output, "");
}

#[test]
fn empty_objects_list_cannot_satisfy_a_secret() {
    let template = "---\nobjects: []\nparameters: []\n";
    assert_eq!(process_err_with_secrets(template), "Not all secrets specified were found.");
}
