use ktmpl::{ParameterValue, ParameterValues, Template};

#[test]
fn service_template_interpolates_both_fields() {
    let template_contents = r#"
---
kind: "Template"
apiVersion: "v1"
metadata:
  name: "example"
objects:
  - kind: "Service"
    apiVersion: "v1"
    metadata:
      name: "$(DATABASE_SERVICE_NAME)"
    spec:
      ports:
        - name: "db"
          protocol: "TCP"
          targetPort: 3000
      selector:
        name: "$(DATABASE_SERVICE_NAME)"
parameters:
  - name: "DATABASE_SERVICE_NAME"
    description: "Database service name"
    required: true
    parameterType: "string"
"#;

    let mut parameter_values = ParameterValues::new();

    parameter_values.insert(
        "DATABASE_SERVICE_NAME".to_string(),
        ParameterValue::Plain("mongo".to_string()),
    );

    let template = Template::new(template_contents.to_string(), parameter_values, None).unwrap();
    let processed_template = template.process().unwrap();

    assert_eq!(
        processed_template
            .lines()
            .map(|l| l.trim_end())
            .collect::<Vec<&str>>()
            .join("\n"),
        r#"---
apiVersion: v1
kind: Service
metadata:
  name: mongo
spec:
  ports:
    -
      name: db
      protocol: TCP
      targetPort: 3000
  selector:
    name: mongo"#
    );
}
