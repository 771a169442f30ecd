use ktmpl::{ParameterValue, ParameterValues, Template};

fn run(template: &str, values: ParameterValues) -> String {
    Template::new(template.to_string(), values, None)
        .unwrap()
        .process()
        .unwrap()
}

#[test]
fn unchanged_template_serializes_objects_verbatim() {
    let template = r#"
---
objects:
  - kind: "Widget"
    name: "w"
parameters: []
"#;
    let output = run(template, ParameterValues::new());
    assert_eq!(output, "---\nkind: Widget\nname: w");
}

#[test]
fn literal_form_yields_typed_scalar_and_string_form_stays_text() {
    let template = r#"
---
objects:
  - num: "$((PORT))"
    str: "pre$(PORT)"
parameters:
  - name: "PORT"
    required: true
"#;
    let mut values = ParameterValues::new();
    values.insert("PORT".to_string(), ParameterValue::Plain("3000".to_string()));
    let output = run(template, values);
    assert_eq!(output, "---\nnum: 3000\nstr: pre3000");
}

#[test]
fn quoted_string_node_differs_from_literal_number() {
    let template = r#"
---
objects:
  - asnum: "$((PORT))"
    astext: "$(PORT)"
parameters:
  - name: "PORT"
    value: 27017
"#;
    let output = run(template, ParameterValues::new());
    assert_eq!(output, "---\nasnum: 27017\nastext: \"27017\"");
}

#[test]
fn undeclared_placeholder_left_verbatim() {
    let template = r#"
---
objects:
  - a: "$(UNKNOWN)"
    b: "$((UNKNOWN))"
parameters: []
"#;
    let output = run(template, ParameterValues::new());
    assert_eq!(output, "---\na: $(UNKNOWN)\nb: $((UNKNOWN))");
}

#[test]
fn valueless_parameter_substitutes_null_spelling() {
    let template = r#"
---
objects:
  - asnull: "$((OPT))"
    astext: "$(OPT)"
parameters:
  - name: "OPT"
"#;
    let output = run(template, ParameterValues::new());
    assert_eq!(output, "---\nasnull: ~\nastext: \"~\"");
}

#[test]
fn inline_boolean_and_negative_integer_defaults() {
    let template = r#"
---
objects:
  - flag: "$(FLAG)"
    depth: "$((DEPTH))"
parameters:
  - name: "FLAG"
    value: true
  - name: "DEPTH"
    value: -42
"#;
    let output = run(template, ParameterValues::new());
    assert_eq!(output, "---\ndepth: -42\nflag: \"true\"");
}

#[test]
fn supplied_value_overrides_inline_default() {
    let template = r#"
---
objects:
  - host: "$(HOST)"
parameters:
  - name: "HOST"
    value: "fallback"
"#;
    let mut values = ParameterValues::new();
    values.insert("HOST".to_string(), ParameterValue::Plain("real".to_string()));
    let output = run(template, values);
    assert_eq!(output, "---\nhost: real");
}

#[test]
fn interpolation_recurses_into_sequences_and_mappings() {
    let template = r#"
---
objects:
  - spec:
      items:
        - "$(A)"
        - inner: "$(B)"
parameters:
  - name: "A"
    value: "one"
  - name: "B"
    value: "two"
"#;
    let output = run(template, ParameterValues::new());
    assert_eq!(output, "---\nspec: \n  items: \n    - one\n    - \n      inner: two");
}

#[test]
fn objects_keep_their_order_and_are_newline_separated() {
    let template = r#"
---
objects:
  - kind: "B"
  - kind: "A"
parameters: []
"#;
    let output = run(template, ParameterValues::new());
    assert_eq!(output, "---\nkind: B\n---\nkind: A");
}

#[test]
fn later_inserted_value_wins() {
    let mut values = ParameterValues::new();
    values.insert("K".to_string(), ParameterValue::Plain("first".to_string()));
    values.insert("K".to_string(), ParameterValue::Plain("second".to_string()));
    match values.get("K") {
        Some(ParameterValue::Plain(s)) => assert_eq!(s, "second"),
        _ => panic!("expected a plain value"),
    }
}

#[test]
fn string_pass_also_rewrites_literal_pass_output() {
    let template = r#"
---
objects:
  - both: "$((A)) and $(B)"
parameters:
  - name: "A"
    value: "one"
  - name: "B"
    value: "two"
"#;
    let output = run(template, ParameterValues::new());
    assert_eq!(output, "---\nboth: one and two");
}
