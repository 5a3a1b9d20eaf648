use buildkite_ls::completion::provide_completion;
use buildkite_ls::diagnostics::validate_document;
use buildkite_ls::hover::provide_hover;
use buildkite_ls::json::JsonValue;
use buildkite_ls::parser::Document;
use buildkite_ls::position::{Position, Range};
use buildkite_ls::schema::BuildkiteSchema;
use buildkite_ls::store::DocumentStore;

const PIPELINE: &str = "steps:\n  - label: \"Deploy\"\n    command: \"deploy.sh\"\n    agents:\n      queue: \"deploy\"\nenv:\n  FOO: \"bar\"\n";

fn s(t: &str) -> JsonValue {
    JsonValue::Str(t.to_string())
}

fn obj(members: Vec<(&str, JsonValue)>) -> JsonValue {
    JsonValue::Object(members.into_iter().map(|(k, v)| (k.to_string(), v)).collect())
}

fn pipeline_schema() -> BuildkiteSchema {
    BuildkiteSchema::new(obj(vec![
        ("title", s("Buildkite Pipeline Schema")),
        ("type", s("object")),
        (
            "properties",
            obj(vec![
                ("steps", obj(vec![("type", s("array")), ("description", s("The steps to run in this pipeline"))])),
                ("env", obj(vec![("type", s("object")), ("description", s("Environment variables to be set for all steps"))])),
            ]),
        ),
    ]))
}

fn parsed(text: &str) -> Document {
    let mut d = Document::new(text.to_string());
    assert!(d.parse().is_ok());
    d
}

fn range(a: u32, b: u32, c: u32, d: u32) -> Range {
    Range { start: Position { line: a, character: b }, end: Position { line: c, character: d } }
}

#[test]
fn test_schema_loading() {
    let schema = pipeline_schema();
    assert_eq!(schema.get_documentation("steps"), Some("The steps to run in this pipeline".to_string()));
    assert_eq!(schema.get_documentation("env"), Some("Environment variables to be set for all steps".to_string()));
    assert_eq!(schema.get_properties_at_path("/"), vec!["steps", "env"]);
}

#[test]
fn documentation_of_nested_properties_items_and_arrays() {
    let schema = BuildkiteSchema::new(obj(vec![
        ("description", s("the pipeline")),
        (
            "properties",
            obj(vec![(
                "steps",
                obj(vec![
                    ("description", s("steps")),
                    ("items", obj(vec![("description", s("one step")), ("properties", obj(vec![("label", obj(vec![("description", s("label"))]))]))])),
                ]),
            )]),
        ),
        ("anyOf", JsonValue::Null),
    ]));
    assert_eq!(schema.get_documentation(""), Some("the pipeline".to_string()));
    assert_eq!(schema.get_documentation("steps"), Some("steps".to_string()));
    assert_eq!(schema.get_documentation("steps/items"), Some("one step".to_string()));
    assert_eq!(schema.get_documentation("steps/items/label"), Some("label".to_string()));
    assert_eq!(schema.get_documentation("label"), None);
}

#[test]
fn tuple_items_documented_under_items() {
    let schema = BuildkiteSchema::new(obj(vec![(
        "properties",
        obj(vec![("list", obj(vec![("items", JsonValue::Array(vec![JsonValue::Null, obj(vec![("description", s("second"))])]))]))]),
    )]));
    assert_eq!(schema.get_documentation("list/items/1"), None);
    assert_eq!(schema.get_documentation("list/items"), Some("second".to_string()));
}

#[test]
fn later_description_wins_for_same_path() {
    let schema = BuildkiteSchema::new(obj(vec![
        ("properties", obj(vec![("items", obj(vec![("description", s("first"))]))])),
        ("items", obj(vec![("description", s("second"))])),
    ]));
    assert_eq!(schema.get_documentation("items"), Some("second".to_string()));
}

#[test]
fn definitions_are_kept() {
    let schema = BuildkiteSchema::new(obj(vec![("definitions", obj(vec![("commandStep", obj(vec![("type", s("object"))]))]))]));
    assert!(matches!(schema.get_definition("commandStep"), Some(JsonValue::Object(_))));
    assert!(schema.get_definition("waitStep").is_none());
}

#[test]
fn properties_at_paths() {
    let schema = pipeline_schema();
    assert_eq!(schema.get_properties_at_path(""), vec!["steps", "env"]);
    assert_eq!(schema.get_properties_at_path("steps"), vec!["command", "trigger", "wait", "block", "group"]);
    assert_eq!(schema.get_properties_at_path("a/steps"), vec!["command", "trigger", "wait", "block", "group"]);
    assert!(schema.get_properties_at_path("mysteps").is_empty());
    assert!(schema.get_properties_at_path("steps/0").is_empty());
}

#[test]
fn scenario_valid_pipeline_has_no_errors() {
    let schema = pipeline_schema();
    assert!(schema.validate(PIPELINE).is_empty());
    assert!(validate_document(&parsed(PIPELINE), &schema).is_empty());
}

#[test]
fn scenario_empty_steps() {
    let schema = pipeline_schema();
    let text = "steps: []\nenv:\n  FOO: \"bar\"\n";
    assert_eq!(schema.validate(text), vec!["Pipeline must contain at least one step".to_string()]);
    let diags = validate_document(&parsed(text), &schema);
    assert_eq!(diags.len(), 1);
    assert_eq!(diags[0].range, range(0, 0, 0, 9));
}

#[test]
fn scenario_step_without_type() {
    let schema = pipeline_schema();
    let text = "steps:\n  - label: \"Deploy\"\n";
    let diags = validate_document(&parsed(text), &schema);
    assert_eq!(diags.len(), 1);
    assert_eq!(
        diags[0].message,
        "Step 1 must contain one of: 'command', 'trigger', 'wait', 'block', or 'group'"
    );
    assert_eq!(diags[0].range, range(1, 2, 1, 19));
}

#[test]
fn missing_steps_is_one_error_at_root() {
    let schema = pipeline_schema();
    let text = "env:\n  FOO: bar\n";
    let diags = validate_document(&parsed(text), &schema);
    assert_eq!(diags.len(), 1);
    assert_eq!(diags[0].message, "Pipeline must contain a 'steps' array");
    assert_eq!(diags[0].range, range(0, 0, 1, 10));
}

#[test]
fn root_must_be_a_mapping() {
    let schema = pipeline_schema();
    assert_eq!(schema.validate("- a\n- b\n"), vec!["Document root must be a YAML object".to_string()]);
}

#[test]
fn step_must_be_an_object() {
    let schema = pipeline_schema();
    let text = "steps:\n  - wait\n  - command: x\n  - label: y\n";
    assert_eq!(
        schema.validate(text),
        vec![
            "Step 1 must be an object".to_string(),
            "Step 3 must contain one of: 'command', 'trigger', 'wait', 'block', or 'group'".to_string()
        ]
    );
}

#[test]
fn parse_error_is_one_diagnostic() {
    let schema = pipeline_schema();
    let d = Document::new("steps: [\n".to_string());
    let diags = validate_document(&d, &schema);
    assert_eq!(diags.len(), 1);
    assert!(diags[0].message.starts_with("Failed to parse pipeline YAML: "));
    assert!(diags[0].message.len() > "Failed to parse pipeline YAML: ".len());
    assert_eq!(schema.validate("steps: [\n").len(), 1);
}

#[test]
fn hover_shows_documentation_of_node() {
    let schema = pipeline_schema();
    let d = parsed("steps:\n- command: x\nenv:\n  A: b\n");
    let h = provide_hover(&d, Position { line: 2, character: 1 }, &schema).unwrap();
    assert_eq!(h.contents, "Environment variables to be set for all steps");
    assert_eq!(h.range, range(2, 0, 3, 6));
    assert!(provide_hover(&d, Position { line: 1, character: 12 }, &schema).is_none());
}

#[test]
fn completion_under_steps_offers_step_types() {
    let schema = pipeline_schema();
    let d = parsed("steps:\n  - command: x\n");
    let labels: Vec<String> = provide_completion(&d, Position { line: 0, character: 2 }, &schema)
        .into_iter()
        .map(|c| c.label)
        .collect();
    assert_eq!(labels, vec!["command", "trigger", "wait", "block", "group"]);
}

#[test]
fn completion_outside_nodes_offers_root_keys() {
    let schema = pipeline_schema();
    let d = parsed("name: x\n");
    let items = provide_completion(&d, Position { line: 5, character: 0 }, &schema);
    let labels: Vec<String> = items.iter().map(|c| c.label.clone()).collect();
    assert_eq!(labels, vec!["steps", "env"]);
    assert_eq!(items[0].documentation, Some("The steps to run in this pipeline".to_string()));
}

#[test]
fn store_keeps_last_good_tree() {
    let mut store = DocumentStore::new();
    let uri = "file:///pipeline.yml".to_string();
    assert!(store.open(uri.clone(), PIPELINE.to_string()).is_ok());
    assert!(matches!(store.change(&uri, "steps: [\n".to_string()), Some(Err(_))));
    let d = store.get(&uri).unwrap();
    assert_eq!(d.text, "steps: [\n");
    assert_eq!(d.node_at_position(4, 15), Some("steps/0/agents/queue".to_string()));
    assert!(store.change(&"file:///other.yml".to_string(), "a: 1\n".to_string()).is_none());
    assert!(store.close(&uri));
    assert!(store.get(&uri).is_none());
    assert!(!store.close(&uri));
}

#[test]
fn defs_table_when_no_definitions() {
    let schema = BuildkiteSchema::new(obj(vec![("$defs", obj(vec![("waitStep", s("wait"))]))]));
    assert!(matches!(schema.get_definition("waitStep"), Some(JsonValue::Str(t)) if t == "wait"));
}

#[test]
fn install_keeps_tree_when_new_parse_failed() {
    let mut store = DocumentStore::new();
    let uri = "file:///p.yml".to_string();
    assert!(!store.install(uri.clone(), parsed(PIPELINE)));
    let mut broken = Document::new("steps: [\n".to_string());
    assert!(broken.parse().is_err());
    assert!(store.install(uri.clone(), broken));
    let d = store.get(&uri).unwrap();
    assert_eq!(d.text, "steps: [\n");
    assert_eq!(d.node_at_position(4, 15), Some("steps/0/agents/queue".to_string()));
    assert!(store.install(uri.clone(), parsed("a: 1\n")));
    assert_eq!(store.get(&uri).unwrap().node_at_position(0, 3), Some("a".to_string()));
}

#[test]
fn empty_steps_with_spaces() {
    let schema = pipeline_schema();
    assert_eq!(schema.validate("steps: [ ]\n"), vec!["Pipeline must contain at least one step".to_string()]);
}

#[test]
fn parse_failure_message_prefix() {
    let schema = pipeline_schema();
    let r = schema.validate("a: [1\n");
    assert_eq!(r.len(), 1);
    assert!(r[0].starts_with("Failed to parse pipeline YAML: "));
}

#[test]
fn flow_pipeline_is_validated() {
    let schema = pipeline_schema();
    assert!(schema.validate("{steps: [{command: x}]}\n").is_empty());
    assert_eq!(
        schema.validate("steps: [{label: x}]\n"),
        vec!["Step 1 must contain one of: 'command', 'trigger', 'wait', 'block', or 'group'".to_string()]
    );
}
