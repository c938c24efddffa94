use profile_evaluator::evaluate::{choose_language, choose_text, Action, Evaluation, Stage};
use profile_evaluator::formats::{parse_indicators, serialize_report, OutputFormat};
use profile_evaluator::json::{Json, JsonMap};
use profile_evaluator::raw::{json_from_raw, raw_from_json, RawJson};
use profile_evaluator::loader::{LoadAction, Loader};
use profile_evaluator::merge::deep_merge;
use profile_evaluator::profile::{
    begin_profile, begin_profile_text, extract_include_list, finish_profile, parse_section, CompiledProfile, EvaluatorError,
    IncludeStack, ProfileItem,
};
use profile_evaluator::render::{
    fallback_render, lookup, render_string, render_value, request_of, FormulaOutcome, Progress, RenderEnv,
};
use profile_evaluator::serialize::json_to_inline_string;
use profile_evaluator::text::{split_char, starts_with, trimmed};
use serde::Deserialize;

fn to_json(v: &serde_json::Value) -> Json {
    match v {
        serde_json::Value::Null => Json::Null,
        serde_json::Value::Bool(b) => Json::Bool(*b),
        serde_json::Value::Number(n) => Json::Number(n.to_string()),
        serde_json::Value::String(s) => Json::Str(s.clone()),
        serde_json::Value::Array(a) => Json::Array(a.iter().map(to_json).collect()),
        serde_json::Value::Object(m) => {
            let mut out = JsonMap::new();
            for (k, x) in m {
                out.insert(k.clone(), to_json(x));
            }
            Json::Object(out)
        }
    }
}

fn parse(text: &str) -> Json {
    to_json(&serde_json::from_str::<serde_json::Value>(text).expect("valid json"))
}

fn yaml_docs(text: &str) -> Vec<Json> {
    serde_yaml::Deserializer::from_str(text)
        .map(|d| serde_json::Value::deserialize(d).expect("valid yaml"))
        .map(|v| to_json(&v))
        .collect()
}

fn load(text: &str) -> CompiledProfile {
    let pending = begin_profile(yaml_docs(text), None).expect("valid profile");
    finish_profile(pending, Vec::new()).expect("valid sections")
}

fn member<'a>(v: &'a Json, key: &str) -> Option<&'a Json> {
    match v {
        Json::Object(m) => m.get(key),
        _ => None,
    }
}

fn str_json(s: &str) -> Json {
    Json::Str(s.to_string())
}

fn env(context: &str) -> RenderEnv {
    RenderEnv { context: parse(context), globals: parse("{}"), expressions: JsonMap::new(), language: "en".to_string() }
}

fn value(v: Json) -> FormulaOutcome {
    FormulaOutcome::Value { value: v, debug: Vec::new() }
}

fn run(mut machine: Evaluation, answer: impl Fn(&str) -> FormulaOutcome) -> Json {
    loop {
        match machine.step() {
            Action::Continue => {}
            Action::Evaluate(req) => {
                let outcome = answer(req.expression.as_str());
                machine.provide(outcome);
            }
            Action::Finished(report) => return report,
        }
    }
}

fn json_error(e: EvaluatorError) -> String {
    match e {
        EvaluatorError::Json(m) => m,
        other => panic!("expected a json error, got {other:?}"),
    }
}

fn invalid_profile(e: EvaluatorError) -> String {
    match e {
        EvaluatorError::InvalidProfile(m) => m,
        other => panic!("expected an invalid profile error, got {other:?}"),
    }
}

// ----- merging ------------------------------------------------------------

#[test]
fn merge_replaces_non_objects_on_either_side() {
    let mut dst = parse("[1, 2]");
    deep_merge(&mut dst, parse(r#"{"a": 1}"#));
    assert_eq!(dst, parse(r#"{"a": 1}"#));

    let mut dst = parse(r#"{"a": 1}"#);
    deep_merge(&mut dst, parse("7"));
    assert_eq!(dst, parse("7"));
}

#[test]
fn merge_into_empty_object_gives_the_source() {
    let src = parse(r#"{"b": {"c": [1, {"d": null}]}, "a": "x"}"#);
    let mut dst = parse("{}");
    deep_merge(&mut dst, src.clone());
    assert_eq!(dst, src);
}

#[test]
fn merge_is_pointwise_on_keys() {
    let mut dst = parse(r#"{"only_dst": 1, "both": {"x": 1}, "scalar": "old"}"#);
    deep_merge(&mut dst, parse(r#"{"only_src": 2, "both": {"y": 2}, "scalar": {"new": true}}"#));
    assert_eq!(
        dst,
        parse(r#"{"only_dst": 1, "only_src": 2, "both": {"x": 1, "y": 2}, "scalar": {"new": true}}"#)
    );
}

// ----- JSON text -----------------------------------------------------------

#[test]
fn compact_json_text_escapes_strings() {
    let v = parse(r#"{"b": [true, null, 1.5], "a": "q\"\\\n\t\u0001é"}"#);
    assert_eq!(json_to_inline_string(&v), "{\"a\":\"q\\\"\\\\\\n\\t\\u0001é\",\"b\":[true,null,1.5]}");
}

#[test]
fn inline_string_of_each_kind() {
    assert_eq!(json_to_inline_string(&str_json("plain")), "plain");
    assert_eq!(json_to_inline_string(&Json::Null), "null");
    assert_eq!(json_to_inline_string(&Json::Bool(false)), "false");
    assert_eq!(json_to_inline_string(&Json::Number("42".to_string())), "42");
    assert_eq!(json_to_inline_string(&parse(r#"{"k": ["v"]}"#)), r#"{"k":["v"]}"#);
}

// ----- text helpers ---------------------------------------------------------

#[test]
fn trim_split_and_prefix() {
    assert_eq!(trimmed("  \t a b \u{3000}"), "a b");
    assert_eq!(trimmed("   "), "");
    assert_eq!(split_char("a..b.", '.'), vec!["a", "", "b", ""]);
    assert_eq!(split_char("", '.'), vec![""]);
    assert!(starts_with("expr \"x\"", "expr "));
    assert!(!starts_with("exp", "expr "));
}

// ----- choosing texts -------------------------------------------------------

#[test]
fn language_selection_falls_back_to_en_then_first() {
    let texts = parse(r#"{"fr": "bonjour", "en": "hello", "de": "hallo"}"#);
    assert_eq!(choose_language(&texts, "fr"), str_json("bonjour"));
    assert_eq!(choose_language(&texts, "it"), str_json("hello"));
    assert_eq!(choose_language(&parse(r#"{"fr": "x", "de": "y"}"#), "it"), str_json("y"));
    assert_eq!(choose_language(&parse("{}"), "it"), Json::Null);
    assert_eq!(choose_language(&str_json("as is"), "it"), str_json("as is"));
}

#[test]
fn text_selection_by_result_value() {
    let texts = parse(r#"{"true": {"en": "yes"}, "false": {"en": "no"}, "3": "three", "null": "nothing", "en": "default"}"#);
    assert_eq!(choose_text(&texts, Some(&Json::Bool(true)), "en"), str_json("yes"));
    assert_eq!(choose_text(&texts, Some(&Json::Number("3".to_string())), "en"), str_json("three"));
    assert_eq!(choose_text(&texts, Some(&Json::Null), "en"), str_json("nothing"));
    assert_eq!(choose_text(&texts, Some(&str_json("other")), "en"), str_json("default"));
    assert_eq!(choose_text(&texts, None, "en"), str_json("default"));
}

#[test]
fn lookup_follows_object_paths() {
    let root = parse(r#"{"a": {"b": {"c": 5}}, "list": [1]}"#);
    assert_eq!(lookup(&root, "a.b.c"), Some(&Json::Number("5".to_string())));
    assert_eq!(lookup(&root, "a.x"), None);
    assert_eq!(lookup(&root, "list.0"), None);
}

// ----- templates ------------------------------------------------------------

#[test]
fn fallback_cuts_text_at_each_token() {
    let ctx = parse(r#"{"x": 1, "y": "two"}"#);
    assert_eq!(fallback_render(&ctx, "a {{ x }} b {{y}}!"), "a 1 b two!");
    assert_eq!(fallback_render(&ctx, "no tokens here"), "no tokens here");
}

#[test]
fn handlebars_renders_without_escaping_and_refuses_missing_fields() {
    let env = env(r#"{"name": "A&B", "profile": {}}"#);
    let answers: Vec<FormulaOutcome> = Vec::new();
    let mut pos = 0usize;
    match render_string(&env, "Hi {{name}} <b>", &answers, &mut pos) {
        Progress::Done(v) => assert_eq!(v, str_json("Hi A&B <b>")),
        Progress::Need(r) => panic!("unexpected request {r:?}"),
    }
    // In strict mode a missing field fails the render, and the fallback marks it.
    let mut pos = 0usize;
    match render_string(&env, "Hi {{missing}}", &answers, &mut pos) {
        Progress::Done(v) => assert_eq!(v, str_json("Hi \u{1F534} Missing: missing()")),
        Progress::Need(r) => panic!("unexpected request {r:?}"),
    }
}

#[test]
fn fallback_substitutes_paths_and_keeps_formulas() {
    let ctx = parse(r#"{"a": {"b": 3}, "o": {"k": true}}"#);
    let out = fallback_render(&ctx, "x={{a.b}} o={{ o }} e={{ expr \"1\" }} m={{nope}}");
    assert_eq!(out, "x=3 o={\"k\":true} e={{ expr \"1\" }} m=\u{1F534} Missing: nope()");
}

#[test]
fn inline_formulas_are_spliced_before_handlebars() {
    let env = env(r#"{"name": "World", "profile": {}}"#);
    let answers = vec![value(Json::Number("5".to_string()))];
    let mut pos = 0usize;
    match render_string(&env, "Hello {{name}}: {{ expr \"a+b\" }} items", &answers, &mut pos) {
        Progress::Done(v) => assert_eq!(v, str_json("Hello World: 5 items")),
        Progress::Need(r) => panic!("unexpected request {r:?}"),
    }
    assert_eq!(pos, 1);
}

#[test]
fn rendering_keeps_the_shape_of_values() {
    let env = env(r#"{"name": "World", "profile": {}}"#);
    let v = parse(r#"{"a": "Hi {{name}}", "n": 3, "l": [1, "{{name}}", null], "z": {"b": true}}"#);
    let answers: Vec<FormulaOutcome> = Vec::new();
    let mut pos = 0usize;
    match render_value(&env, &v, &answers, &mut pos) {
        Progress::Done(r) => assert_eq!(
            r,
            parse(r#"{"a": "Hi World", "n": 3, "l": [1, "World", null], "z": {"b": true}}"#)
        ),
        Progress::Need(r) => panic!("unexpected request {r:?}"),
    }
    assert_eq!(pos, 0);
}

#[test]
fn formula_errors_and_panics_inside_templates() {
    let env = env(r#"{"profile": {}}"#);
    let template = str_json("{{ expr \"bad\" }}");
    let answers = vec![FormulaOutcome::Failed { kind: "SyntaxError".to_string(), message: "bad".to_string() }];
    let mut pos = 0usize;
    match render_value(&env, &template, &answers, &mut pos) {
        Progress::Done(v) => assert_eq!(v, Json::Null),
        Progress::Need(r) => panic!("unexpected request {r:?}"),
    }
    let answers = vec![FormulaOutcome::Panicked];
    let mut pos = 0usize;
    match render_value(&env, &template, &answers, &mut pos) {
        Progress::Done(v) => assert_eq!(v, Json::Bool(false)),
        Progress::Need(r) => panic!("unexpected request {r:?}"),
    }
}

#[test]
fn named_expression_calls_run_against_profile() {
    let mut e = env(r#"{"profile": {"p": 1}, "top": 2}"#);
    e.expressions.insert("_Plain".to_string(), str_json("p + 1"));
    e.expressions.insert("_Dollar".to_string(), str_json("$.top"));
    assert_eq!(request_of(&e, "_Plain()").context, parse(r#"{"p": 1}"#));
    assert_eq!(request_of(&e, " _Dollar() ").context, parse(r#"{"profile": {"p": 1}, "top": 2}"#));
    assert_eq!(request_of(&e, "other(@)").context, parse(r#"{"profile": {"p": 1}, "top": 2}"#));
}

// ----- profiles -------------------------------------------------------------

#[test]
fn include_list_is_taken_out() {
    let mut info = parse(r#"{"include": ["a.yml", "b.yml"], "name": "x"}"#);
    assert_eq!(extract_include_list(&mut info).unwrap(), vec!["a.yml", "b.yml"]);
    assert_eq!(info, parse(r#"{"name": "x"}"#));

    let mut info = parse(r#"{"include": "a.yml"}"#);
    assert_eq!(invalid_profile(extract_include_list(&mut info).unwrap_err()), "include must be a YAML array");
    let mut info = parse(r#"{"include": ["a.yml", 3]}"#);
    assert_eq!(
        invalid_profile(extract_include_list(&mut info).unwrap_err()),
        "include entries must be string file paths"
    );
    let mut info = parse("[]");
    assert!(extract_include_list(&mut info).unwrap().is_empty());
}

#[test]
fn profile_documents_are_checked() {
    assert_eq!(invalid_profile(begin_profile(Vec::new(), None).err().unwrap()), "profile has no YAML documents");
    assert_eq!(
        invalid_profile(begin_profile(Vec::new(), Some("p.yml")).err().unwrap()),
        "profile p.yml has no YAML documents"
    );
    assert_eq!(
        invalid_profile(begin_profile(vec![parse("[1]")], None).err().unwrap()),
        "first profile document must be a mapping"
    );
}

#[test]
fn section_items_are_checked() {
    assert_eq!(invalid_profile(parse_section(&parse("{}")).unwrap_err()), "section document must be a YAML array");
    assert_eq!(invalid_profile(parse_section(&parse("[3]")).unwrap_err()), "section item must be a mapping");
    assert_eq!(json_error(parse_section(&parse(r#"[{"report_text": "t"}]"#)).unwrap_err()), "missing field `id`");
    assert_eq!(json_error(parse_section(&parse(r#"[{"id": "s"}]"#)).unwrap_err()), "missing field `report_text`");
    assert_eq!(
        json_error(parse_section(&parse(r#"[{"id": true, "expression": 5, "report_text": ""}]"#)).unwrap_err()),
        "invalid type: integer `5`, expected a string"
    );
    assert_eq!(
        json_error(parse_section(&parse(r#"[{"id": false, "report_text": ""}]"#)).unwrap_err()),
        "invalid type: boolean `false`, expected a string"
    );
    assert_eq!(
        json_error(parse_section(&parse(r#"[{"block": "x\n"}]"#)).unwrap_err()),
        "invalid type: string \"x\\n\", expected struct BlockEntry"
    );
    assert_eq!(
        json_error(parse_section(&parse(r#"[{"block": {"name": 1.5, "value": 1}}]"#)).unwrap_err()),
        "invalid type: floating point `1.5`, expected a string"
    );
    assert_eq!(
        json_error(parse_section(&parse(r#"[{"block": {"name": 1e21, "value": 1}}]"#)).unwrap_err()),
        "invalid type: floating point `1e+21`, expected a string"
    );
    assert_eq!(
        json_error(parse_section(&parse(r#"[{"block": "a\u00adb"}]"#)).unwrap_err()),
        "invalid type: string \"a\\u{ad}b\", expected struct BlockEntry"
    );
    assert_eq!(
        json_error(parse_section(&parse(r#"[{"block": {"name": "n"}}]"#)).unwrap_err()),
        "missing field `value`"
    );
    assert_eq!(
        json_error(parse_section(&parse(r#"[{"block": ["n", 1, 2]}]"#)).unwrap_err()),
        "invalid length 3, expected fewer elements in array"
    );
    assert_eq!(
        json_error(parse_section(&parse(r#"[{"block": ["n"]}]"#)).unwrap_err()),
        "invalid length 1, expected struct BlockEntry with 2 elements"
    );
}

#[test]
fn section_items_are_read() {
    let items = parse_section(&parse(
        r#"[{"block": ["n", {"v": 1}]}, {"id": "s", "title": null, "expression": null, "report_text": "r", "extra": 1}]"#,
    ))
    .unwrap();
    assert_eq!(items.len(), 2);
    match &items[0] {
        ProfileItem::Block(b) => {
            assert_eq!(b.name, "n");
            assert_eq!(b.value, parse(r#"{"v": 1}"#));
        }
        other => panic!("expected a block, got {other:?}"),
    }
    match &items[1] {
        ProfileItem::Statement(s) => {
            assert_eq!(s.id, "s");
            assert!(s.title.is_none() && s.expression.is_none() && s.description.is_none());
            assert_eq!(s.report_text, str_json("r"));
        }
        other => panic!("expected a statement, got {other:?}"),
    }
}

#[test]
fn own_info_overrides_included_info_and_sections_follow() {
    let included = load("---\nname: included\nshared: {a: 1, b: 1}\n---\n- id: inc\n  report_text: from include\n");
    let pending = begin_profile(
        yaml_docs("---\ninclude: [inc.yml]\nname: main\nshared: {b: 2}\n---\n- id: own\n  report_text: own\n"),
        None,
    )
    .unwrap();
    assert_eq!(pending.includes, vec!["inc.yml"]);
    let profile = finish_profile(pending, vec![included]).unwrap();
    assert_eq!(profile.info, parse(r#"{"name": "main", "shared": {"a": 1, "b": 2}}"#));
    assert_eq!(profile.sections.len(), 2);
    match &profile.sections[1][0] {
        ProfileItem::Statement(s) => assert_eq!(s.id, "inc"),
        other => panic!("expected the included statement, got {other:?}"),
    }
}

#[test]
fn include_cycles_are_refused() {
    let mut stack = IncludeStack::new();
    assert!(stack.enter("/p/a.yml".to_string(), "a.yml").is_ok());
    assert!(stack.enter("/p/b.yml".to_string(), "b.yml").is_ok());
    match stack.enter("/p/a.yml".to_string(), "../a.yml") {
        Err(EvaluatorError::InvalidProfile(m)) => assert_eq!(m, "include cycle detected at ../a.yml"),
        other => panic!("expected a cycle error, got {other:?}"),
    }
    stack.leave("/p/a.yml");
    assert!(stack.enter("/p/a.yml".to_string(), "a.yml").is_ok());
}

#[test]
fn leaving_a_file_undoes_entering_it() {
    let mut stack = IncludeStack::new();
    assert!(stack.enter("/p/a.yml".to_string(), "a.yml").is_ok());
    assert!(stack.enter("/p/c.yml".to_string(), "c.yml").is_ok());
    stack.leave("/p/c.yml");
    // `a` is still being loaded, `c` is not.
    assert!(stack.enter("/p/a.yml".to_string(), "a.yml").is_err());
    assert!(stack.enter("/p/c.yml".to_string(), "c.yml").is_ok());
}

#[test]
fn error_messages() {
    assert_eq!(EvaluatorError::Io("gone".to_string()).message(), "io error: gone");
    assert_eq!(EvaluatorError::Yaml("bad".to_string()).message(), "yaml parse error: bad");
    assert_eq!(EvaluatorError::Json("bad".to_string()).message(), "json parse error: bad");
    assert_eq!(EvaluatorError::InvalidProfile("x".to_string()).message(), "invalid profile: x");
    assert_eq!(
        EvaluatorError::invalid_expression("_F", "parse error").message(),
        "invalid profile: invalid expression \"_F\": parse error"
    );
}

// ----- the evaluation machine ------------------------------------------------

#[test]
fn blocks_and_statements_build_the_report() {
    let profile = load(
        r#"---
profile_metadata:
  language: fr
variables:
  limit: 3
expressions:
  _Count: "length(items)"
  _Ignored: 5
greeting: "Hello {{ who }}"
---
- block:
    name: summary
    value:
      title: "Count {{ expr \"_Count()\" }}"
- id: check
  title:
    en: Check
    fr: Vérifier
  expression: "_Count()"
  report_text:
    "2":
      fr: "deux ({{profile.summary.title}})"
    "3": trois
---
- id: plain
  report_text: "{{ greeting }}"
"#,
    );
    let machine = Evaluation::new(profile, parse(r#"{"who": "you"}"#));
    assert_eq!(machine.expression_list(), vec![("_Count".to_string(), "length(items)".to_string())]);
    let report = run(machine, |expr| {
        assert_eq!(expr, "_Count()");
        value(Json::Number("2".to_string()))
    });
    assert_eq!(
        report,
        parse(
            r#"{"summary": {"title": "Count 2"},
                "statements": [
                  [{"id": "check", "title": "Vérifier", "value": 2, "report_text": "deux (Count 2)"}],
                  [{"id": "plain", "report_text": "Hello you"}]
                ]}"#
        )
    );
}

#[test]
fn machine_waits_for_answers_and_then_moves_on() {
    let profile = load("---\nname: x\n---\n- id: s\n  expression: a\n  report_text: t\n");
    let mut machine = Evaluation::new(profile, parse("{}"));
    assert_eq!(machine.stage(), Stage::Info);
    assert!(matches!(machine.step(), Action::Continue));
    let first = machine.stage();
    assert_eq!(first, Stage::Items { section: 0, item: 0, text: false });
    match machine.step() {
        Action::Evaluate(req) => assert_eq!(req.expression, "a"),
        other => panic!("expected a request, got {other:?}"),
    }
    assert_eq!(machine.stage(), first);
    machine.provide(FormulaOutcome::Value { value: Json::Bool(true), debug: vec!["note".to_string()] });
    assert!(matches!(machine.step(), Action::Continue));
    assert_eq!(machine.stage(), Stage::Items { section: 0, item: 0, text: true });
    assert!(matches!(machine.step(), Action::Continue));
    assert!(matches!(machine.step(), Action::Continue));
    let report = match machine.step() {
        Action::Finished(r) => r,
        other => panic!("expected the report, got {other:?}"),
    };
    assert_eq!(
        report,
        parse(r#"{"statements": [[{"id": "s", "value": true, "debug": ["note"]}]]}"#)
    );
    assert!(matches!(machine.step(), Action::Finished(r) if r == report));
}

#[test]
fn failed_statement_has_error_and_binds_null_in_context() {
    let profile = load(
        "---\nname: x\n---\n- id: bad\n  expression: boom()\n  report_text: {\"null\": n}\n- id: after\n  report_text: \"[{{ profile.bad }}]\"\n- id: last\n  report_text: \"{{ profile.nothing }}\"\n",
    );
    let report = run(Evaluation::new(profile, parse("{}")), |_| FormulaOutcome::Failed {
        kind: "FunctionError".to_string(),
        message: "boom".to_string(),
    });
    assert_eq!(
        report,
        parse(
            r#"{"statements": [[
                {"id": "bad", "error": {"kind": "FunctionError", "message": "boom"}},
                {"id": "after", "report_text": "[]"},
                {"id": "last", "report_text": "🔴 Missing: profile.nothing()"}
            ]]}"#
        )
    );
}

#[test]
fn context_is_an_object_even_for_array_indicators() {
    let profile = load("---\nname: x\n---\n- id: s\n  report_text: \"{{ name }}\"\n");
    let report = run(Evaluation::new(profile, parse("[1, 2]")), |_| FormulaOutcome::Panicked);
    assert_eq!(report, parse(r#"{"statements": [[{"id": "s", "report_text": "x"}]]}"#));
}

// ----- text formats -----------------------------------------------------------

#[test]
fn yaml_text_is_read_into_documents() {
    let pending = begin_profile_text("---\nname: x\n---\n- 1\n- two\n---\n[]\n", None).unwrap();
    assert_eq!(pending.info, parse(r#"{"name": "x"}"#));
    assert_eq!(pending.section_docs, vec![parse(r#"[1, "two"]"#), parse("[]")]);
}

#[test]
fn profile_text_is_read_or_refused() {
    let pending = begin_profile_text("---\nname: x\ninclude: [a.yml]\n---\n- id: s\n  report_text: t\n", Some("p.yml"))
        .unwrap();
    assert_eq!(pending.info, parse(r#"{"name": "x"}"#));
    assert_eq!(pending.includes, vec!["a.yml".to_string()]);
    assert_eq!(pending.section_docs.len(), 1);
    match begin_profile_text("a: [1\n", None) {
        Err(EvaluatorError::Yaml(m)) => assert!(!m.is_empty()),
        Err(other) => panic!("expected a YAML error, got {other:?}"),
        Ok(_) => panic!("expected a YAML error"),
    }
    match begin_profile_text("", Some("p.yml")) {
        Err(EvaluatorError::InvalidProfile(m)) => assert_eq!(m, "first profile document must be a mapping"),
        Err(other) => panic!("expected an invalid profile, got {other:?}"),
        Ok(_) => panic!("expected an invalid profile"),
    }
}

#[test]
fn indicator_text_is_read_or_refused() {
    assert_eq!(parse_indicators(r#"{"a": [1, 2.5, "x"]}"#).unwrap(), parse(r#"{"a": [1, 2.5, "x"]}"#));
    assert_eq!(parse_indicators("true").unwrap(), Json::Bool(true));
    match parse_indicators("{oops") {
        Err(EvaluatorError::Json(m)) => assert!(m.contains("line 1")),
        other => panic!("expected a JSON error, got {other:?}"),
    }
}

#[test]
fn reports_are_written_as_json_or_yaml() {
    let report = parse(r#"{"b": 1, "a": {"c": "x"}}"#);
    assert_eq!(
        serialize_report(&report, OutputFormat::Json).unwrap(),
        "{\n  \"a\": {\n    \"c\": \"x\"\n  },\n  \"b\": 1\n}"
    );
    assert_eq!(serialize_report(&report, OutputFormat::Yaml).unwrap(), "a:\n  c: x\nb: 1\n");
}

#[test]
fn templates_with_partials_use_the_fallback() {
    let env = env(r#"{"name": "World", "profile": {}}"#);
    let answers: Vec<FormulaOutcome> = Vec::new();
    let mut pos = 0usize;
    match render_string(&env, "{{#*inline \"p\"}}{{> p}}{{/inline}}{{> p}} {{name}}", &answers, &mut pos) {
        Progress::Done(v) => assert_eq!(
            v,
            str_json("\u{1F534} Missing: #*inline \"p\"()\u{1F534} Missing: > p()\u{1F534} Missing: /inline()\u{1F534} Missing: > p() World")
        ),
        Progress::Need(r) => panic!("unexpected request {r:?}"),
    }
    let mut pos = 0usize;
    match render_string(&env, "a > b {{ name }}", &answers, &mut pos) {
        Progress::Done(v) => assert_eq!(v, str_json("a > b World")),
        Progress::Need(r) => panic!("unexpected request {r:?}"),
    }
}

#[test]
fn merging_the_same_source_twice_changes_nothing() {
    let mut once = parse(r#"{"a": {"x": 1, "y": [1]}, "b": 5}"#);
    let src = parse(r#"{"a": {"y": 3, "z": {"k": true}}, "b": {"nested": true}}"#);
    deep_merge(&mut once, src.clone());
    let mut twice = once.clone();
    deep_merge(&mut twice, src);
    assert_eq!(twice, once);
    assert_eq!(once, parse(r#"{"a": {"x": 1, "y": 3, "z": {"k": true}}, "b": {"nested": true}}"#));
}

#[test]
fn dotted_paths_look_up_step_by_step() {
    let root = parse(r#"{"a": {"b": {"c": 5}}}"#);
    let first = lookup(&root, "a").unwrap();
    assert_eq!(lookup(&root, "a.b.c"), lookup(first, "b.c"));
    assert_eq!(lookup(&root, "a.b.c"), Some(&Json::Number("5".to_string())));
    assert_eq!(lookup(&root, "x.b"), None);
}

#[test]
fn rendering_a_value_without_strings_gives_it_back() {
    let env = env(r#"{"profile": {}}"#);
    let v = parse(r#"{"n": [1, {"t": true, "z": null}], "m": 2.5}"#);
    let answers: Vec<FormulaOutcome> = Vec::new();
    let mut pos = 0usize;
    match render_value(&env, &v, &answers, &mut pos) {
        Progress::Done(r) => assert_eq!(r, v),
        Progress::Need(r) => panic!("unexpected request {r:?}"),
    }
    assert_eq!(pos, 0);
}

#[test]
fn raw_values_are_sorted_into_objects() {
    let raw = RawJson::Object(vec![
        ("b".to_string(), RawJson::Number("1".to_string())),
        ("a".to_string(), RawJson::Array(vec![RawJson::Null, RawJson::Str("x".to_string())])),
        ("b".to_string(), RawJson::Bool(true)),
    ]);
    let j = json_from_raw(&raw);
    assert_eq!(j, parse(r#"{"a": [null, "x"], "b": true}"#));
    match raw_from_json(&j) {
        RawJson::Object(members) => {
            let keys: Vec<&str> = members.iter().map(|(k, _)| k.as_str()).collect();
            assert_eq!(keys, vec!["a", "b"]);
        }
        _ => panic!("expected an object"),
    }
}

fn file_text(path: &str) -> &'static str {
    match path {
        "base.yml" => "---\nname: base\nvariables: {a: 1}\n---\n- id: b\n  report_text: from base\n",
        "self.yml" => "---\ninclude: [self.yml]\n---\n",
        _ => panic!("unexpected file {path}"),
    }
}

fn run_loader(mut loader: Loader) -> Result<CompiledProfile, EvaluatorError> {
    loop {
        assert!(loader.working());
        match loader.step() {
            LoadAction::Read { path, base } => {
                assert_eq!(base.as_deref(), Some("dir"));
                loader.open(format!("dir/{path}"), &path, file_text(&path), Some("dir".to_string()))?;
            }
            LoadAction::Continue => {}
            LoadAction::Done(c) => return Ok(c),
            LoadAction::Failed(e) => return Err(e),
        }
    }
}

#[test]
fn loading_from_text_and_from_file_agree() {
    let text = "---\nname: top\ninclude: [base.yml]\nvariables: {b: 2}\n---\n- id: t\n  report_text: from top\n";
    let from_text = run_loader(Loader::from_text(text, Some("dir".to_string())).unwrap()).unwrap();
    let mut loader = Loader::new();
    loader.open("dir/top.yml".to_string(), "top.yml", text, Some("dir".to_string())).unwrap();
    let from_file = run_loader(loader).unwrap();
    assert_eq!(from_text.info, parse(r#"{"name": "top", "variables": {"a": 1, "b": 2}}"#));
    assert_eq!(from_file.info, from_text.info);
    assert_eq!(from_file.sections.len(), 2);
    assert_eq!(from_text.sections.len(), 2);
}

#[test]
fn loading_refuses_a_file_that_includes_itself() {
    let mut loader = Loader::new();
    loader.open("dir/self.yml".to_string(), "self.yml", file_text("self.yml"), Some("dir".to_string())).unwrap();
    match run_loader(loader) {
        Err(EvaluatorError::InvalidProfile(m)) => assert_eq!(m, "include cycle detected at self.yml"),
        Err(other) => panic!("expected a cycle, got {other:?}"),
        Ok(_) => panic!("expected a cycle"),
    }
}
