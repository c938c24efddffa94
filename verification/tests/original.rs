use profile_evaluator::evaluate::{Action, Evaluation};
use profile_evaluator::json::{Json, JsonMap};
use profile_evaluator::merge::deep_merge;
use profile_evaluator::profile::{begin_profile, finish_profile, CompiledProfile};
use profile_evaluator::render::{render_value, FormulaOutcome, FormulaRequest, Progress, RenderEnv};
use serde::Deserialize;

fn to_json(v: &serde_json::Value) -> Json {
    match v {
        serde_json::Value::Null => Json::Null,
        serde_json::Value::Bool(b) => Json::Bool(*b),
        serde_json::Value::Number(n) => Json::Number(n.to_string()),
        serde_json::Value::String(s) => Json::Str(s.clone()),
        serde_json::Value::Array(a) => Json::Array(a.iter().map(to_json).collect()),
        serde_json::Value::Object(m) => {
            let mut out = JsonMap::new();
            for (k, x) in m {
                out.insert(k.clone(), to_json(x));
            }
            Json::Object(out)
        }
    }
}

fn parse(text: &str) -> Json {
    to_json(&serde_json::from_str::<serde_json::Value>(text).expect("valid json"))
}

fn env_with_context(context: &str) -> RenderEnv {
    RenderEnv {
        context: parse(context),
        globals: parse("{}"),
        expressions: JsonMap::new(),
        language: "en".to_string(),
    }
}

fn load_yaml_profile(text: &str) -> CompiledProfile {
    let docs: Vec<Json> = serde_yaml::Deserializer::from_str(text)
        .map(|d| serde_json::Value::deserialize(d).expect("valid yaml"))
        .map(|v| to_json(&v))
        .collect();
    let pending = begin_profile(docs, None).expect("valid profile");
    finish_profile(pending, Vec::new()).expect("valid sections")
}

/// Stands in for the formula engine in these tests: unknown functions fail
/// with a `FunctionError` naming the function, `length(@)` counts the members
/// of the data, and a bare field name looks the field up (reporting a missing one).
fn engine(req: &FormulaRequest) -> FormulaOutcome {
    let expr = req.expression.trim();
    if expr == "length(@)" {
        let n = match &req.context {
            Json::Array(a) => a.len(),
            Json::Object(m) => m.len(),
            Json::Str(s) => s.chars().count(),
            _ => 0,
        };
        return FormulaOutcome::Value { value: Json::Number(n.to_string()), debug: Vec::new() };
    }
    if let Some(open) = expr.find('(') {
        let name = &expr[..open];
        return FormulaOutcome::Failed {
            kind: "FunctionError".to_string(),
            message: format!("Unknown function: {name}()"),
        };
    }
    match &req.context {
        Json::Object(m) => match m.get(expr) {
            Some(v) => FormulaOutcome::Value { value: v.clone(), debug: Vec::new() },
            None => FormulaOutcome::Value {
                value: Json::Null,
                debug: vec![format!("Field {expr} not found")],
            },
        },
        _ => FormulaOutcome::Value { value: Json::Null, debug: vec![format!("Field {expr} not found")] },
    }
}

fn evaluate_texts(profile: &str, indicators: &str) -> Json {
    let mut machine = Evaluation::new(load_yaml_profile(profile), parse(indicators));
    loop {
        match machine.step() {
            Action::Continue => {}
            Action::Evaluate(req) => {
                let outcome = engine(&req);
                machine.provide(outcome);
            }
            Action::Finished(report) => return report,
        }
    }
}

fn member<'a>(v: &'a Json, key: &str) -> Option<&'a Json> {
    match v {
        Json::Object(m) => m.get(key),
        _ => None,
    }
}

fn first_statement(report: &Json) -> &Json {
    let statements = member(report, "statements").expect("statements");
    let Json::Array(sections) = statements else { panic!("statements must be an array") };
    let Json::Array(entries) = &sections[0] else { panic!("a section must be an array") };
    &entries[0]
}

fn text_of(v: Option<&Json>) -> Option<&str> {
    match v {
        Some(Json::Str(s)) => Some(s.as_str()),
        _ => None,
    }
}

#[test]
fn resolves_full_expr_template_to_non_string() {
    let env = env_with_context(r#"{"value": 2, "profile": {}}"#);
    let template = Json::Str("{{ expr \"1+1\" }}".to_string());

    let mut pos = 0usize;
    let request = match render_value(&env, &template, &Vec::new(), &mut pos) {
        Progress::Need(req) => req,
        Progress::Done(v) => panic!("a formula result is needed first, got {v:?}"),
    };
    assert_eq!(request.expression, "1+1");

    let answers = vec![FormulaOutcome::Value { value: Json::Number("2".to_string()), debug: Vec::new() }];
    let mut pos = 0usize;
    let rendered = match render_value(&env, &template, &answers, &mut pos) {
        Progress::Done(v) => v,
        Progress::Need(req) => panic!("unexpected request {req:?}"),
    };
    assert_eq!(rendered, parse("2"));
}

#[test]
fn missing_template_token_has_marker() {
    let env = env_with_context(r#"{"profile": {}}"#);
    let mut pos = 0usize;
    let rendered = match render_value(&env, &Json::Str("Foo {{bar}}".to_string()), &Vec::new(), &mut pos) {
        Progress::Done(v) => v,
        Progress::Need(req) => panic!("unexpected request {req:?}"),
    };
    assert_eq!(rendered, Json::Str("Foo \u{1F534} Missing: bar()".to_string()));
}

#[test]
fn deep_merge_overrides_scalars_and_merges_maps() {
    let mut dst = parse(r#"{"a": {"x": 1, "y": 2}, "b": 5}"#);
    let src = parse(r#"{"a": {"y": 3, "z": 4}, "b": {"nested": true}}"#);

    deep_merge(&mut dst, src);
    assert_eq!(dst, parse(r#"{"a": {"x": 1, "y": 3, "z": 4}, "b": {"nested": true}}"#));
}

#[test]
fn expression_error_adds_error_entry() {
    let profile = r#"
---
profile_metadata:
  name: Error Test
  language: en
---
- id: bad_expr
  expression: nonexistent_func(@)
  report_text: should not appear
"#;
    let report = evaluate_texts(profile, "{}");
    let stmt = first_statement(&report);

    assert!(member(stmt, "error").is_some(), "expected 'error' key in statement, got: {stmt:?}");
    let error = member(stmt, "error").unwrap();
    assert!(text_of(member(error, "kind")).is_some(), "expected 'kind' in error object, got: {error:?}");
    assert!(
        text_of(member(error, "message")).is_some(),
        "expected 'message' in error object, got: {error:?}"
    );
    assert!(member(stmt, "value").is_none(), "expected no 'value' key when expression errored, got: {stmt:?}");
    assert!(
        member(stmt, "report_text").is_none(),
        "expected no 'report_text' when expression errored, got: {stmt:?}"
    );
}

#[test]
fn expression_error_kind_is_function_error() {
    let profile = r#"
---
profile_metadata:
  name: Kind Test
  language: en
---
- id: kind_stmt
  expression: undefined_func()
  report_text: ignored
"#;
    let report = evaluate_texts(profile, "{}");
    let stmt = first_statement(&report);
    let kind = text_of(member(member(stmt, "error").unwrap(), "kind")).expect("kind must be a string");
    assert_eq!(kind, "FunctionError", "expected FunctionError for unknown function, got: {kind}");
}

#[test]
fn expression_error_message_contains_function_name() {
    let profile = r#"
---
profile_metadata:
  name: Message Test
  language: en
---
- id: msg_stmt
  expression: my_missing_func(@)
  report_text: ignored
"#;
    let report = evaluate_texts(profile, "{}");
    let stmt = first_statement(&report);
    let message =
        text_of(member(member(stmt, "error").unwrap(), "message")).expect("message must be a string");
    assert!(message.contains("my_missing_func"), "expected function name in error message, got: {message}");
}

#[test]
fn successful_expression_with_missing_field_has_debug_entry() {
    let profile = r#"
---
profile_metadata:
  name: Debug Test
  language: en
---
- id: debug_stmt
  expression: missing_field
  report_text:
    "null":
      en: field not found
"#;
    let report = evaluate_texts(profile, "{}");
    let stmt = first_statement(&report);

    assert!(member(stmt, "error").is_none(), "expected no 'error' for a successful evaluation, got: {stmt:?}");
    assert_eq!(member(stmt, "value"), Some(&Json::Null), "expected null value for missing field");

    let debug = member(stmt, "debug").expect("expected 'debug' key when library emits diagnostics");
    let Json::Array(debug_arr) = debug else { panic!("'debug' must be an array") };
    assert!(!debug_arr.is_empty(), "expected at least one debug message, got empty array");
    let mentions_field = debug_arr.iter().any(|m| matches!(m, Json::Str(s) if s.contains("missing_field")));
    assert!(mentions_field, "expected a debug message mentioning 'missing_field', got: {debug_arr:?}");
}

#[test]
fn valid_expression_has_no_error_entry() {
    let profile = r#"
---
profile_metadata:
  name: No Error Test
  language: en
---
- id: ok_stmt
  expression: length(@)
  report_text:
    "0":
      en: empty
    "1":
      en: one item
"#;
    let report = evaluate_texts(profile, "[42]");
    let stmt = first_statement(&report);

    assert!(member(stmt, "error").is_none(), "expected no 'error' key for valid expression, got: {stmt:?}");
    assert!(member(stmt, "value").is_some(), "expected 'value' for valid expression, got: {stmt:?}");
}
