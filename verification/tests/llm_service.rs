use omem_server::error::OmemError;
use omem_server::llm::{
    strip_markdown_fences, JsonCompletion, JsonCompletionAction, JsonCompletionEvent,
    JsonCompletionPhase,
};

#[test]
fn strip_json_fence() {
    let input = "```json\n{\"key\": \"value\"}\n```";
    assert_eq!(strip_markdown_fences(input), "{\"key\": \"value\"}");
}

#[test]
fn strip_plain_fence() {
    let input = "```\n{\"a\": 1}\n```";
    assert_eq!(strip_markdown_fences(input), "{\"a\": 1}");
}

#[test]
fn no_fence_passthrough() {
    let input = "{\"key\": \"value\"}";
    assert_eq!(strip_markdown_fences(input), "{\"key\": \"value\"}");
}

#[test]
fn strip_with_whitespace() {
    let input = "  \n```json\n  {\"x\": true}  \n```\n  ";
    assert_eq!(strip_markdown_fences(input), "{\"x\": true}");
}

#[test]
fn strip_fence_no_newline_after_lang() {
    let input = "```json{\"y\": 42}```";
    assert_eq!(strip_markdown_fences(input), "{\"y\": 42}");
}

#[test]
fn already_clean_json() {
    let input = "  {\"hello\": \"world\"}  ";
    assert_eq!(strip_markdown_fences(input), "{\"hello\": \"world\"}");
}

#[test]
fn strip_multiline_json() {
    let input = "```json\n{\n  \"items\": [\n    1,\n    2\n  ]\n}\n```";
    let result = strip_markdown_fences(input);
    assert!(result.starts_with('{'));
    assert!(result.ends_with('}'));
    assert!(result.contains("\"items\""));
}

#[test]
fn strip_thinking_tags() {
    let input = "<think>\nLet me analyze the facts carefully.\n</think>\n{\"key\": \"value\"}";
    assert_eq!(strip_markdown_fences(input), "{\"key\": \"value\"}");
}

#[test]
fn strip_thinking_tags_multiline() {
    let input = "<think>\nThe user is a developer.\nI need to extract facts.\n</think>\n{\"memories\": [{\"l0_abstract\": \"User is a developer\"}]}</think>";
    assert_eq!(
        strip_markdown_fences(input),
        "{\"memories\": [{\"l0_abstract\": \"User is a developer\"}]}"
    );
}

#[test]
fn strip_thinking_tags_no_closer() {
    let input = "<think>\nThis thinking never ends\n{\"key\": \"value\"}";
    assert_eq!(strip_markdown_fences(input), "{\"key\": \"value\"}");
}

#[test]
fn strip_thinking_tags_with_json_fence() {
    let input = "<think>\nAnalyzing...\n</think>\n```json\n{\"key\": \"value\"}\n```</think>";
    assert_eq!(strip_markdown_fences(input), "{\"key\": \"value\"}");
}

#[test]
fn thinking_tags_removed_without_fences() {
    assert_eq!(omem_server::llm::strip_thinking_tags("a<think>b</think>c"), "ac");
    assert_eq!(omem_server::llm::strip_thinking_tags("x</think>y"), "xy");
    assert_eq!(omem_server::llm::strip_thinking_tags("</think>a<think>b</think>c"), "ac");
    assert_eq!(omem_server::llm::strip_thinking_tags("<</think>think>x"), "");
    assert_eq!(omem_server::llm::strip_thinking_tags("pre<think>never closed"), "pre");
    assert_eq!(omem_server::llm::strip_thinking_tags("pre<think>reasoning [1, 2]"), "pre[1, 2]");
    assert_eq!(omem_server::llm::strip_thinking_tags("plain text"), "plain text");
    let once = omem_server::llm::strip_thinking_tags("<think>a</think><think>b</think>{}</think>");
    assert_eq!(once, "{}");
    assert_eq!(omem_server::llm::strip_thinking_tags(&once), once);
}

#[test]
fn fenced_answer_after_unclosed_thinking() {
    let input = "<think>\nhmm\n```json\n{\"a\": 1}\n```";
    assert_eq!(strip_markdown_fences(input), "{\"a\": 1}");
}

#[test]
fn unterminated_fence_is_kept() {
    assert_eq!(strip_markdown_fences("```json\n{\"a\": 1}"), "```json\n{\"a\": 1}");
    assert_eq!(strip_markdown_fences("```"), "```");
    assert_eq!(strip_markdown_fences("``````"), "");
}

#[test]
fn json_completion_retries_once() {
    let (mut c, first) = JsonCompletion::start("sys", "extract facts");
    assert!(matches!(first, JsonCompletionAction::Ask(ref s, ref u) if s == "sys" && u == "extract facts"));
    match c.step(JsonCompletionEvent::Answered("```json\n{\"a\": 1}\n```".to_string())) {
        JsonCompletionAction::Parse(t) => assert_eq!(t, "{\"a\": 1}"),
        other => panic!("unexpected {:?}", other),
    }
    match c.step(JsonCompletionEvent::Unparsable("eof".to_string())) {
        JsonCompletionAction::Ask(s, u) => assert_eq!(
            (s.as_str(), u.as_str()),
            ("sys",
            "extract facts\n\nYour previous response was not valid JSON. Return ONLY valid JSON.")
        ),
        other => panic!("unexpected {:?}", other),
    }
    assert_eq!(c.asked(), 2);
    assert!(matches!(
        c.step(JsonCompletionEvent::Answered("nope".to_string())),
        JsonCompletionAction::Parse(_)
    ));
    match c.step(JsonCompletionEvent::Unparsable("expected value".to_string())) {
        JsonCompletionAction::Fail(e) => assert_eq!(
            e,
            OmemError::Llm("JSON parse failed after retry: expected value".to_string())
        ),
        other => panic!("unexpected {:?}", other),
    }
    assert_eq!(c.phase(), JsonCompletionPhase::Finished);
}

#[test]
fn json_completion_success_and_model_failure() {
    let (mut c, _) = JsonCompletion::start("s", "u");
    c.step(JsonCompletionEvent::Answered("{}".to_string()));
    assert!(matches!(c.step(JsonCompletionEvent::Parsed), JsonCompletionAction::Finish));
    assert_eq!(c.asked(), 1);
    let (mut c, _) = JsonCompletion::start("s", "u");
    let e = OmemError::Llm("down".to_string());
    match c.step(JsonCompletionEvent::Failed(e.clone())) {
        JsonCompletionAction::Fail(got) => assert_eq!(got, e),
        other => panic!("unexpected {:?}", other),
    }
    assert!(!c.accepts(&JsonCompletionEvent::Parsed));
}

#[test]
fn fence_round_trip_without_line_feed_before_closer() {
    assert_eq!(strip_markdown_fences(" \n```json\n {\"a\": 1} ```\t"), "{\"a\": 1}");
    assert_eq!(strip_markdown_fences("```\nplain```"), "plain");
}

#[test]
fn thinking_removal_never_lengthens() {
    for input in ["", "<think>", "a</think>b", "x<think>y{z", "<think>a</think></think>"] {
        let out = omem_server::llm::strip_thinking_tags(input);
        assert!(out.chars().count() <= input.chars().count());
    }
}
