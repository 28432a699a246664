use powderman::command::Commands;
use powderman::json::{Json, Member, Number};
use powderman::keymap::default_keymap;
use powderman::menus::EditorKind;
use powderman::reference::{
    cell, commands_section, editors_section, keymap_section, markdown, reference, tools_section, Entry, Param, Section,
    ToolInfo,
};
use powderman::schema::{params_of, refs_end_within, schema_ends_within, schema_kind};
use powderman::tree::json_string;

fn text(s: &str) -> Json {
    Json::Str(s.to_string())
}

fn members(ms: Vec<(&str, Json)>) -> Vec<Member> {
    ms.into_iter().map(|(k, v)| Member { key: k.to_string(), value: v }).collect()
}

fn obj(ms: Vec<(&str, Json)>) -> Json {
    Json::Object(members(ms))
}

/// The schema an agent receives for `split`, as schemars writes it: the
/// direction is a `$ref` into the schema's own definitions, an enum of
/// constants each with its doc comment.
fn split_schema() -> Vec<Member> {
    members(vec![
        (
            "$defs",
            obj(vec![(
                "Dir",
                obj(vec![(
                    "oneOf",
                    Json::Array(vec![
                        obj(vec![("const", text("row")), ("description", text("side by side"))]),
                        obj(vec![("const", text("col")), ("description", text("stacked"))]),
                    ]),
                )]),
            )]),
        ),
        (
            "properties",
            obj(vec![
                ("dir", obj(vec![("$ref", text("#/$defs/Dir"))])),
                (
                    "frac",
                    obj(vec![
                        ("description", text("where the seam goes")),
                        ("type", Json::Array(vec![text("number"), text("null")])),
                    ]),
                ),
                ("id", obj(vec![("description", text("the area to split")), ("type", text("integer"))])),
            ]),
        ),
        ("required", Json::Array(vec![text("id"), text("dir")])),
        ("type", text("object")),
    ])
}

fn split_tool() -> ToolInfo {
    ToolInfo { name: "split".into(), description: Some("Split an area in two.".into()), schema: split_schema() }
}

#[test]
fn a_pipe_in_a_cell_is_escaped() {
    assert_eq!(cell("row | col"), "row \\| col");
    assert_eq!(cell("plain"), "plain");
}

#[test]
fn typed_parameters_are_a_table_and_hints_a_list() {
    let sections = vec![Section {
        title: "Tools".into(),
        about: "What an agent can do.".into(),
        entries: vec![
            Entry {
                name: "split".into(),
                detail: "Split an area".into(),
                params: vec![Param { name: "dir".into(), kind: "row | col".into(), required: true, about: "which way".into() }],
            },
            Entry {
                name: "Runs".into(),
                detail: String::new(),
                params: vec![Param { name: "Click".into(), kind: String::new(), required: false, about: "Open run".into() }],
            },
            Entry { name: "bare".into(), detail: String::new(), params: vec![] },
        ],
    }];
    let md = markdown(&sections);
    assert!(md.starts_with("# powderman reference\n\n"));
    assert!(md.contains(
        "\n## Tools\n\nWhat an agent can do.\n\n### `split`\n\nSplit an area\n\n\
         | parameter | type | required | what it is |\n|---|---|---|---|\n\
         | `dir` | row \\| col | yes | which way |\n\n"
    ));
    assert!(md.contains("### `Runs`\n\n- **Click** \u{2014} Open run\n\n"));
    assert!(md.ends_with("### `bare`\n\n"));
}

#[test]
fn the_sections_list_in_order() {
    let c = commands_section(&Commands::builtin());
    assert_eq!(c.title, "Commands");
    let names: Vec<&str> = c.entries.iter().map(|e| e.name.as_str()).collect();
    let mut sorted = names.clone();
    sorted.sort();
    assert_eq!(names, sorted);
    assert_eq!(names.len(), 18);
    let k = keymap_section(&default_keymap());
    let keys: Vec<(&str, &str)> = k.entries.iter().map(|e| (e.detail.as_str(), e.name.as_str())).collect();
    let mut sorted = keys.clone();
    sorted.sort();
    assert_eq!(keys, sorted);
    assert_eq!(keys[0], ("adjust_last", "F9"));
}

#[test]
fn tool_parameters_arrive_with_their_descriptions() {
    let tools = tools_section(&vec![split_tool()]);
    assert_eq!(tools.title, "MCP tools");
    let split = tools.entries.iter().find(|e| e.name == "split").expect("the split tool");
    let id = split.params.iter().find(|p| p.name == "id").expect("split takes an area id");
    assert!(id.required, "the area id is not optional");
    assert!(!id.about.is_empty(), "the schema lost the doc comment");
    assert!(split.params.iter().any(|p| !p.required), "frac is optional and should say so");
    let dir = split.params.iter().find(|p| p.name == "dir").expect("split takes a direction");
    assert_eq!(dir.kind, "row | col", "the enum was not followed");
    let table = markdown(&vec![tools]);
    assert!(table.contains(r"| `dir` | row \| col | yes |"), "the enum's pipes are splitting the table row");
}

#[test]
fn required_parameters_come_first() {
    let params = params_of(&split_schema());
    let order: Vec<(&str, bool, &str)> = params.iter().map(|p| (p.name.as_str(), p.required, p.kind.as_str())).collect();
    assert_eq!(order, vec![("dir", true, "row | col"), ("id", true, "integer"), ("frac", false, "number")]);
}

#[test]
fn a_schema_without_properties_has_no_parameters() {
    assert!(params_of(&members(vec![("type", text("object"))])).is_empty());
}

#[test]
fn a_kind_reads_enums_types_and_refs() {
    let root = members(vec![("definitions", obj(vec![("Mode", obj(vec![("enum", Json::Array(vec![text("a"), Json::Num(Number::PosInt(2)), Json::Null]))]))]))]);
    assert_eq!(schema_kind(&root, &obj(vec![("$ref", text("#/definitions/Mode"))])), "a | 2 | null");
    assert_eq!(schema_kind(&root, &obj(vec![("$ref", text("#/definitions/Gone"))])), "any");
    assert_eq!(schema_kind(&root, &obj(vec![("type", text("string"))])), "string");
    assert_eq!(schema_kind(&root, &obj(vec![])), "any");
    let mixed = obj(vec![("anyOf", Json::Array(vec![obj(vec![("const", text("x"))]), obj(vec![("type", text("null"))])])), ("type", text("boolean"))]);
    assert_eq!(schema_kind(&root, &mixed), "boolean");
    let structured = obj(vec![("enum", Json::Array(vec![obj(vec![("k", text("v\"q"))]), Json::Array(vec![Json::Bool(true)])]))]);
    assert_eq!(schema_kind(&root, &structured), "{\"k\":\"v\\\"q\"} | [true]");
}

#[test]
fn a_value_is_written_as_compact_json() {
    let v = obj(vec![("a", Json::Array(vec![Json::Num(Number::NegInt(-3)), Json::Num(Number::Float(1_500_000))])), ("b\n", Json::Null)]);
    assert_eq!(json_string(&v), "{\"a\":[-3,1.5],\"b\\n\":null}");
}

#[test]
fn editors_are_listed_in_registry_order() {
    let kinds = vec![
        EditorKind { id: "runs", label: "Runs", icon: "list-details", hints: vec![("Click", "Open run"), ("Type", "Filter")], targets: false },
        EditorKind { id: "code", label: "Code", icon: "code", hints: vec![("Chip", "Pick file")], targets: true },
    ];
    let s = editors_section(&kinds);
    assert_eq!(s.title, "Editors");
    assert_eq!(s.entries[0].name, "Runs");
    assert_eq!(s.entries[0].detail, "`runs`");
    assert_eq!(s.entries[1].detail, "`code` \u{2014} takes a target");
    assert_eq!(s.entries[0].params.len(), 2);
    assert_eq!(s.entries[0].params[1].name, "Type");
    assert_eq!(s.entries[0].params[1].about, "Filter");
    assert!(s.entries[0].params.iter().all(|p| p.kind.is_empty() && !p.required));
}

#[test]
fn every_registry_is_represented() {
    let kinds = vec![EditorKind { id: "chart", label: "Chart", icon: "chart-line", hints: vec![], targets: true }];
    let sections = reference(&Commands::builtin(), &vec![split_tool()], &default_keymap(), &kinds);
    let titles: Vec<&str> = sections.iter().map(|s| s.title.as_str()).collect();
    assert_eq!(titles, vec!["Commands", "MCP tools", "Keys", "Editors"]);
    for s in &sections {
        assert!(!s.entries.is_empty(), "the {} section is empty", s.title);
    }
    let doc = markdown(&sections);
    assert!(doc.contains("### `split`"));
    assert!(doc.contains("### `Chart`"));
}

#[test]
fn a_reference_cycle_never_ends() {
    let root = members(vec![
        ("$defs", obj(vec![("A", obj(vec![("$ref", text("#/$defs/B"))])), ("B", obj(vec![("$ref", text("#/$defs/A"))]))])),
        ("properties", obj(vec![("x", obj(vec![("$ref", text("#/$defs/A"))]))])),
    ]);
    let def = obj(vec![("$ref", text("#/$defs/A"))]);
    assert!(!refs_end_within(&root, &def, 50));
    assert!(!schema_ends_within(&root, 50));
    assert!(refs_end_within(&split_schema(), &obj(vec![("$ref", text("#/$defs/Dir"))]), 1));
    assert!(!refs_end_within(&split_schema(), &obj(vec![("$ref", text("#/$defs/Dir"))]), 0));
    assert!(schema_ends_within(&split_schema(), 2));
}
