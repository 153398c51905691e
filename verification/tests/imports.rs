use omem_server::error::OmemError;
use omem_server::imports::{
    default_import_limit, import_not_found, markdown_paragraphs_of, memory_items_of,
    messages_in_array, messages_in_documents, parse_documents, parse_memory_json, parse_session,
    plan_import, plan_jsonl_documents, text_lines, upload_text, Category, ImportContext,
    ImportTally, MemoryType,
};
use omem_server::json::JsonValue;

fn parse_json(text: &str) -> Option<JsonValue> {
    parse_documents(&vec![text.to_string()]).pop().unwrap()
}

fn ctx() -> ImportContext {
    ImportContext {
        space_id: "personal:t1".to_string(),
        agent_id: Some("agent-7".to_string()),
        session_id: Some("s-42".to_string()),
    }
}

fn validation_message(e: OmemError) -> String {
    match e {
        OmemError::Validation(m) => m,
        other => panic!("expected a validation error, got {:?}", other),
    }
}

#[test]
fn memory_array_items_are_planned_or_skipped() {
    let content = r#"[{"content":"a fact","tags":["x",1,"y"]},{"content":""},{"nope":1}]"#;
    let plan = plan_import("memory", content, &ctx()).unwrap();
    assert_eq!(plan.total_items, 3);
    assert_eq!(plan.skipped, 2);
    assert_eq!(plan.drafts.len(), 1);
    let d = &plan.drafts[0];
    assert_eq!(d.content, "a fact");
    assert_eq!(d.category, Category::Entities);
    assert_eq!(d.memory_type, MemoryType::Insight);
    assert_eq!(d.tags, Some(vec!["x".to_string(), "y".to_string()]));
    assert_eq!(d.source, "import");
    assert_eq!(d.space_id, "personal:t1");
    assert_eq!(d.owner_agent_id, Some("agent-7".to_string()));
    assert_eq!(d.session_id, None);
}

#[test]
fn memory_object_with_memories_member() {
    let content = r#"{"memories":[{"content":"c1"},{"content":"c2","tags":"no"}]}"#;
    let plan = plan_import("memory", content, &ctx()).unwrap();
    assert_eq!(plan.total_items, 2);
    assert_eq!(plan.skipped, 0);
    assert_eq!(plan.drafts[0].tags, Some(vec!["imported".to_string()]));
    assert_eq!(plan.drafts[1].content, "c2");
    assert_eq!(plan.drafts[1].tags, Some(vec!["imported".to_string()]));
}

#[test]
fn memory_single_object_is_one_item() {
    let items = parse_memory_json(r#"{"content":"solo","memories":5}"#).unwrap();
    assert_eq!(items.len(), 1);
    assert!(matches!(&items[0], JsonValue::Object(_)));
    let plan = plan_import("memory", r#"{"content":"solo"}"#, &ctx()).unwrap();
    assert_eq!(plan.total_items, 1);
    assert_eq!(plan.drafts[0].content, "solo");
}

#[test]
fn memory_scalar_document_is_one_skipped_item() {
    let plan = plan_import("memory", "42", &ctx()).unwrap();
    assert_eq!(plan.total_items, 1);
    assert_eq!(plan.skipped, 1);
}

#[test]
fn memory_file_that_is_not_json_is_refused() {
    let e = plan_import("memory", "{not json", &ctx()).unwrap_err();
    assert_eq!(validation_message(e), "expected JSON array or object with 'memories' field");
    let e = memory_items_of(None).unwrap_err();
    assert_eq!(validation_message(e), "expected JSON array or object with 'memories' field");
}

#[test]
fn session_array_messages() {
    let content = r#"[{"role":"user","content":"I prefer Rust for backend work"},{"role":"assistant","content":"Noted!"},{"role":"assistant","content":"I will remember that you prefer Rust."},{"content":"no role here at all, long enough"}]"#;
    let msgs = parse_session(content);
    assert_eq!(msgs.len(), 3);
    let plan = plan_import("session", content, &ctx()).unwrap();
    assert_eq!(plan.total_items, 3);
    assert_eq!(plan.skipped, 1);
    assert_eq!(plan.drafts.len(), 2);
    assert_eq!(plan.drafts[0].category, Category::Events);
    assert_eq!(plan.drafts[1].category, Category::Cases);
    assert_eq!(plan.drafts[0].memory_type, MemoryType::Session);
    assert_eq!(plan.drafts[0].source, "import-session");
    assert_eq!(plan.drafts[0].session_id, Some("s-42".to_string()));
    assert_eq!(plan.drafts[0].tags, None);
}

#[test]
fn session_lines_messages() {
    let content = "{\"role\":\"user\",\"content\":\"first line message here!!\"}\r\nnot json\n\n{\"role\":\"bot\",\"content\":\"second line message, long\"}\n";
    let msgs = parse_session(content);
    assert_eq!(msgs.len(), 2);
    assert_eq!(msgs[0], ("user".to_string(), "first line message here!!".to_string()));
    assert_eq!(msgs[1].0, "bot");
}

#[test]
fn session_content_length_counts_bytes() {
    // 11 characters, 22 bytes: long enough.
    let content = r#"[{"role":"user","content":"ééééééééééé"},{"role":"user","content":"eeeeeeeeeeeeeeeeeee"}]"#;
    let plan = plan_import("session", content, &ctx()).unwrap();
    assert_eq!(plan.total_items, 2);
    assert_eq!(plan.skipped, 1);
    assert_eq!(plan.drafts[0].content, "ééééééééééé");
}

#[test]
fn markdown_paragraphs_are_trimmed_and_long() {
    let content = "short\n\n  This paragraph is long enough to import.  \n\n\n\nanother long paragraph is here!!";
    let paras = markdown_paragraphs_of(content);
    assert_eq!(
        paras,
        vec![
            "This paragraph is long enough to import.".to_string(),
            "another long paragraph is here!!".to_string()
        ]
    );
    let plan = plan_import("markdown", content, &ctx()).unwrap();
    assert_eq!(plan.total_items, 2);
    assert_eq!(plan.skipped, 0);
    assert_eq!(
        plan.drafts[0].tags,
        Some(vec!["imported".to_string(), "markdown".to_string()])
    );
    assert_eq!(plan.drafts[0].source, "import-markdown");
}

#[test]
fn markdown_paragraph_of_exactly_twenty_bytes_is_dropped() {
    let paras = markdown_paragraphs_of("12345678901234567890\n\n123456789012345678901");
    assert_eq!(paras, vec!["123456789012345678901".to_string()]);
}

#[test]
fn jsonl_lines() {
    let content = "{\"content\":\"one\"}\n   \nnot json\n{\"content\":\"\"}\n{\"other\":1}\n{\"content\":\"two\"}";
    let plan = plan_import("jsonl", content, &ctx()).unwrap();
    assert_eq!(plan.total_items, 5);
    assert_eq!(plan.skipped, 3);
    assert_eq!(plan.drafts.len(), 2);
    assert_eq!(plan.drafts[1].content, "two");
    assert_eq!(plan.drafts[1].source, "import-jsonl");
    assert_eq!(plan.drafts[1].tags, None);
}

#[test]
fn unsupported_file_type() {
    let e = plan_import("pdf", "x", &ctx()).unwrap_err();
    assert_eq!(
        validation_message(e),
        "unsupported file_type: pdf. Use: memory, session, markdown, jsonl"
    );
}

#[test]
fn every_item_is_accounted_for() {
    let content = r#"[{"content":"a"},{"content":""},{"content":"b"},{"content":"c"}]"#;
    let plan = plan_import("memory", content, &ctx()).unwrap();
    assert_eq!(plan.total_items, plan.skipped + plan.drafts.len());
    let mut tally = ImportTally::start(&plan);
    assert_eq!(tally.pending(), 3);
    tally.record_created();
    tally.record_failed("store down".to_string());
    tally.record_created();
    assert_eq!(tally.pending(), 0);
    assert_eq!(tally.status(), "partial");
    let task = tally.finish(
        "memory".to_string(),
        "mem.json".to_string(),
        Some("agent-7".to_string()),
        None,
        "personal:t1".to_string(),
    );
    assert_eq!(task.total_items, task.imported + task.skipped + task.errors.len());
    assert_eq!(task.imported, 2);
    assert_eq!(task.skipped, 1);
    assert_eq!(task.errors, vec!["store down".to_string()]);
    assert_eq!(task.status, "partial");
    assert_eq!(task.id.len(), 36);
    assert!(task.created_at.len() >= 25 && task.created_at.ends_with("+00:00"));
    let completed = task.completed_at.clone().unwrap();
    assert!(completed.len() >= 25 && completed.ends_with("+00:00"));
    assert_eq!(task.filename, "mem.json");
}

#[test]
fn status_completed_and_failed() {
    let plan = plan_import("memory", r#"[{"content":"a"}]"#, &ctx()).unwrap();
    let mut ok = ImportTally::start(&plan);
    ok.record_created();
    assert_eq!(ok.status(), "completed");
    let mut bad = ImportTally::start(&plan);
    bad.record_failed("e".to_string());
    assert_eq!(bad.status(), "failed");
    let empty = ImportTally::start(&plan_import("markdown", "", &ctx()).unwrap());
    assert_eq!(empty.status(), "completed");
}

#[test]
fn task_ids_differ() {
    let plan = plan_import("markdown", "", &ctx()).unwrap();
    let a = ImportTally::start(&plan).finish(String::new(), String::new(), None, None, String::new());
    let b = ImportTally::start(&plan).finish(String::new(), String::new(), None, None, String::new());
    assert_ne!(a.id, b.id);
}

#[test]
fn upload_text_checks() {
    assert_eq!(validation_message(upload_text(None).unwrap_err()), "no 'file' field");
    assert_eq!(
        validation_message(upload_text(Some(vec![0xff, 0xfe])).unwrap_err()),
        "not valid UTF-8"
    );
    assert_eq!(upload_text(Some("héllo".as_bytes().to_vec())).unwrap(), "héllo");
}

#[test]
fn import_task_lookup_and_default_limit() {
    assert_eq!(import_not_found("abc"), OmemError::NotFound("import task abc".to_string()));
    assert_eq!(default_import_limit(), 50);
}

#[test]
fn json_model_of_a_document() {
    let v = parse_json(r#" {"a": [1, "b", null, true], "c": {"d": -2.5}} "#).unwrap();
    match v {
        JsonValue::Object(entries) => {
            assert_eq!(entries.len(), 2);
            assert_eq!(entries[0].0, "a");
            match &entries[0].1 {
                JsonValue::Array(items) => {
                    assert_eq!(items.len(), 4);
                    assert!(matches!(&items[0], JsonValue::Number(n) if n == "1"));
                    assert!(matches!(&items[1], JsonValue::Str(s) if s == "b"));
                    assert!(matches!(&items[2], JsonValue::Null));
                    assert!(matches!(&items[3], JsonValue::Bool(true)));
                }
                other => panic!("unexpected {:?}", other),
            }
        }
        other => panic!("unexpected {:?}", other),
    }
    assert!(parse_json("[1,").is_none());
    let v = parse_json(r#"{"k":"v"}"#).unwrap();
    assert_eq!(v.field("k").and_then(|x| x.text()).map(|s| s.as_str()), Some("v"));
    assert!(v.field("z").is_none());
}

fn obj(members: Vec<(&str, JsonValue)>) -> JsonValue {
    JsonValue::Object(members.into_iter().map(|(k, v)| (k.to_string(), v)).collect())
}

fn text(s: &str) -> JsonValue {
    JsonValue::Str(s.to_string())
}

#[test]
fn messages_from_given_documents() {
    let docs = vec![
        Some(obj(vec![("role", text("user")), ("content", text("hello there"))])),
        None,
        Some(obj(vec![("role", JsonValue::Null), ("content", text("x"))])),
        Some(JsonValue::Array(vec![])),
    ];
    let msgs = messages_in_documents(&docs);
    assert_eq!(msgs, vec![("user".to_string(), "hello there".to_string())]);
    let values = vec![obj(vec![("content", text("c")), ("role", text("r"))]), text("loose")];
    assert_eq!(messages_in_array(&values), vec![("r".to_string(), "c".to_string())]);
}

#[test]
fn jsonl_plan_from_given_documents() {
    let docs = vec![
        Some(obj(vec![("content", text("kept"))])),
        Some(obj(vec![("content", JsonValue::Number("3".to_string()))])),
        None,
        Some(text("content")),
    ];
    let plan = plan_jsonl_documents(&docs, &ctx());
    assert_eq!(plan.total_items, 4);
    assert_eq!(plan.skipped, 3);
    assert_eq!(plan.drafts[0].content, "kept");
    assert_eq!(plan.drafts[0].owner_agent_id, Some("agent-7".to_string()));
}

#[test]
fn lines_follow_str_lines() {
    assert_eq!(text_lines("a\r\nb\n\nc\r"), vec!["a", "b", "", "c\r"]);
    assert_eq!(text_lines("x\n"), vec!["x"]);
    assert!(text_lines("").is_empty());
    let docs = parse_documents(&vec!["{}".to_string(), "nope".to_string()]);
    assert!(matches!(&docs[0], Some(JsonValue::Object(m)) if m.is_empty()));
    assert!(docs[1].is_none());
}
