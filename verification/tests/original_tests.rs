use ktmpl::{ParameterValue, ParameterValues, Secret, Secrets, Template};

#[test]
fn encode_secrets() {
    let template_contents = r#"
---
kind: "Template"
apiVersion: "v1"
metadata:
  name: "example"
objects:
  - kind: "Secret"
    apiVersion: "v1"
    metadata:
      name: "webapp"
    data:
      config.yml: |
        username: "carl"
        password: "$(PASSWORD)"
    type: "Opaque"
parameters:
  - name: "PASSWORD"
    description: "The password for the web app"
    required: true
    parameterType: "string"
"#;

    let mut parameter_values = ParameterValues::new();

    parameter_values.insert(
        "PASSWORD".to_string(),
        ParameterValue::Plain("narble".to_string()),
    );

    let mut secrets = Secrets::new();

    secrets.insert(Secret {
        name: "webapp".to_string(),
        namespace: "default".to_string(),
    });

    let template = Template::new(template_contents.to_string(), parameter_values, Some(secrets))
        .unwrap();

    let processed_template = template.process().unwrap();

    assert_eq!(
        processed_template
            .lines()
            .map(|l| l.trim_end())
            .collect::<Vec<&str>>()
            .join("\n"),
        r#"---
apiVersion: v1
data:
  config.yml: dXNlcm5hbWU6ICJjYXJsIgpwYXNzd29yZDogIm5hcmJsZSIK
kind: Secret
metadata:
  name: webapp
type: Opaque"#
    );
}

#[test]
fn missing_secret() {
    let template_contents = r#"
---
kind: "Template"
apiVersion: "v1"
metadata:
  name: "example"
objects:
  - kind: "Namespace"
    apiVersion: "v1"
    metadata:
      name: "$(NAMESPACE)"
parameters:
  - name: "NAMESPACE"
    description: "The namespace to create"
    required: true
    parameterType: "string"
"#;

    let mut parameter_values = ParameterValues::new();

    parameter_values.insert(
        "NAMESPACE".to_string(),
        ParameterValue::Plain("foo".to_string()),
    );

    let mut secrets = Secrets::new();

    secrets.insert(Secret {
        name: "ghost".to_string(),
        namespace: "default".to_string(),
    });

    let template = Template::new(template_contents.to_string(), parameter_values, Some(secrets))
        .unwrap();

    assert!(template.process().is_err());
}
