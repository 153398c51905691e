use omem_server::error::OmemError;
use omem_server::recalls::{
    answer_says_yes, default_limit, lowered_says_yes, new_session_recalls, recall_access,
    recall_user_prompt, should_recall_system_prompt, validate_recall_request,
    ListSessionRecallsQuery, ListSessionRecallsResponse, RecallAction, RecallEvent, RecallFlow,
    RecallPhase, SessionRecall, ShouldRecallRequest,
};

fn request(query: &str, last: Option<&str>) -> ShouldRecallRequest {
    ShouldRecallRequest {
        query_text: query.to_string(),
        last_query_text: last.map(|s| s.to_string()),
        session_id: "s1".to_string(),
    }
}

fn recall(tenant: &str) -> SessionRecall {
    SessionRecall {
        id: "r1".to_string(),
        session_id: "s1".to_string(),
        memory_id: "m1".to_string(),
        recall_type: "auto".to_string(),
        query_text: "q".to_string(),
        similarity_score_bits: 0.5f32.to_bits(),
        llm_confidence_bits: 0.25f32.to_bits(),
        tenant_id: tenant.to_string(),
        created_at: "2024-01-01T00:00:00+00:00".to_string(),
    }
}

#[test]
fn empty_query_is_refused() {
    let (flow, action) = RecallFlow::start(&request("", Some("before")));
    assert_eq!(flow.phase(), RecallPhase::Finished);
    match action {
        RecallAction::Fail(e) => {
            assert_eq!(e, OmemError::Validation("query_text cannot be empty".to_string()))
        }
        other => panic!("unexpected {:?}", other),
    }
}

#[test]
fn previous_query_is_compared_first() {
    let (mut flow, action) = RecallFlow::start(&request("what is my stack?", Some("hello")));
    match action {
        RecallAction::EmbedPair(a, b) => {
            assert_eq!(a, "what is my stack?");
            assert_eq!(b, "hello");
        }
        other => panic!("unexpected {:?}", other),
    }
    match flow.step(RecallEvent::PairEmbedded { vectors: 2, too_similar: true }) {
        RecallAction::Respond(v) => {
            assert!(!v.should_recall);
            assert_eq!(v.reason, Some("similarity_too_high".to_string()));
            assert!(v.with_similarity);
        }
        other => panic!("unexpected {:?}", other),
    }
    assert_eq!(flow.phase(), RecallPhase::Finished);
}

#[test]
fn empty_previous_query_goes_to_the_model() {
    let (_, action) = RecallFlow::start(&request("my project?", Some("")));
    match action {
        RecallAction::AskModel(system, user) => {
            assert_eq!(system, should_recall_system_prompt());
            assert_eq!(user, recall_user_prompt("my project?"));
            assert!(user.starts_with("用户问题：my project?\n\n"));
        }
        other => panic!("unexpected {:?}", other),
    }
}

#[test]
fn full_recall_path() {
    let (mut flow, _) = RecallFlow::start(&request("my project?", Some("earlier")));
    assert!(matches!(
        flow.step(RecallEvent::PairEmbedded { vectors: 2, too_similar: false }),
        RecallAction::AskModel(_, _)
    ));
    match flow.step(RecallEvent::ModelAnswered("  YES, it is personal".to_string())) {
        RecallAction::EmbedQuery(q) => assert_eq!(q, "my project?"),
        other => panic!("unexpected {:?}", other),
    }
    match flow.step(RecallEvent::QueryEmbedded { zero: false }) {
        RecallAction::Search { query, full_text, limit } => {
            assert_eq!(query, "my project?");
            assert!(!full_text);
            assert_eq!(limit, 5);
        }
        other => panic!("unexpected {:?}", other),
    }
    match flow.step(RecallEvent::Searched { found: 3 }) {
        RecallAction::Respond(v) => {
            assert!(v.should_recall);
            assert_eq!(v.reason, None);
            assert_eq!(v.memories_found, 3);
            assert!(v.with_similarity);
        }
        other => panic!("unexpected {:?}", other),
    }
}

#[test]
fn model_says_no() {
    let (mut flow, _) = RecallFlow::start(&request("hi", None));
    match flow.step(RecallEvent::ModelAnswered("no".to_string())) {
        RecallAction::Respond(v) => {
            assert!(!v.should_recall);
            assert_eq!(v.reason, Some("llm_decided_no".to_string()));
            assert!(!v.with_similarity);
        }
        other => panic!("unexpected {:?}", other),
    }
}

#[test]
fn model_failure_still_recalls_and_zero_vector_uses_full_text() {
    let (mut flow, _) = RecallFlow::start(&request("hi", Some("x")));
    assert!(matches!(
        flow.step(RecallEvent::PairEmbedded { vectors: 1, too_similar: true }),
        RecallAction::AskModel(_, _)
    ));
    assert!(matches!(flow.step(RecallEvent::ModelFailed), RecallAction::EmbedQuery(_)));
    match flow.step(RecallEvent::QueryEmbedded { zero: true }) {
        RecallAction::Search { full_text, .. } => assert!(full_text),
        other => panic!("unexpected {:?}", other),
    }
    match flow.step(RecallEvent::Searched { found: 0 }) {
        RecallAction::Respond(v) => {
            assert!(!v.should_recall);
            assert_eq!(v.reason, Some("no_relevant_memories".to_string()));
            assert!(!v.with_similarity);
        }
        other => panic!("unexpected {:?}", other),
    }
}

#[test]
fn embedding_and_store_failures() {
    let (mut flow, _) = RecallFlow::start(&request("hi", Some("x")));
    match flow.step(RecallEvent::EmbeddingFailed("timeout".to_string())) {
        RecallAction::Fail(e) => {
            assert_eq!(e, OmemError::Embedding("failed to embed query: timeout".to_string()))
        }
        other => panic!("unexpected {:?}", other),
    }
    let (mut flow, _) = RecallFlow::start(&request("hi", None));
    flow.step(RecallEvent::ModelFailed);
    flow.step(RecallEvent::QueryEmbedded { zero: false });
    let err = OmemError::NotFound("space".to_string());
    match flow.step(RecallEvent::StoreFailed(err.clone())) {
        RecallAction::Fail(e) => assert_eq!(e, err),
        other => panic!("unexpected {:?}", other),
    }
    assert!(!flow.accepts(&RecallEvent::ModelFailed));
}

#[test]
fn answers_are_read_case_insensitively() {
    assert!(answer_says_yes("  YES please"));
    assert!(answer_says_yes("Yes."));
    assert!(answer_says_yes("yesterday"));
    assert!(!answer_says_yes("No"));
    assert!(!answer_says_yes("I think yes"));
    assert!(lowered_says_yes("yes"));
    assert!(!lowered_says_yes("YES"));
}

#[test]
fn recall_request_validation() {
    let ids = vec!["m1".to_string()];
    assert!(validate_recall_request("s1", &ids, "auto").is_ok());
    assert!(validate_recall_request("s1", &ids, "manual").is_ok());
    assert_eq!(
        validate_recall_request("", &ids, "auto").unwrap_err(),
        OmemError::Validation("session_id cannot be empty".to_string())
    );
    assert_eq!(
        validate_recall_request("s1", &vec![], "auto").unwrap_err(),
        OmemError::Validation("memory_ids cannot be empty".to_string())
    );
    assert_eq!(
        validate_recall_request("s1", &ids, "AUTO").unwrap_err(),
        OmemError::Validation("recall_type must be 'auto' or 'manual'".to_string())
    );
}

#[test]
fn one_recall_per_memory_in_order() {
    let ids = vec!["m1".to_string(), "m2".to_string(), "m3".to_string()];
    let rs = new_session_recalls("s1", ids, "manual", "q", 7, 9, "t1");
    assert_eq!(rs.len(), 3);
    assert_eq!(rs[0].memory_id, "m1");
    assert_eq!(rs[2].memory_id, "m3");
    assert!(rs.iter().all(|r| r.session_id == "s1" && r.recall_type == "manual"));
    assert!(rs.iter().all(|r| r.tenant_id == "t1" && r.similarity_score_bits == 7));
    assert!(rs.iter().all(|r| r.id.len() == 36));
    for r in &rs {
        let c: Vec<char> = r.id.chars().collect();
        assert_eq!((c[8], c[13], c[14], c[18], c[23]), ('-', '-', '4', '-', '-'));
        assert!("89ab".contains(c[19]));
        assert!(c.iter().all(|ch| *ch == '-' || ch.is_ascii_digit() || ('a'..='f').contains(ch)));
        let t: Vec<char> = r.created_at.chars().collect();
        assert_eq!((t[4], t[7], t[10], t[13], t[16]), ('-', '-', 'T', ':', ':'));
    }
    assert!(rs.iter().all(|r| r.created_at.ends_with("+00:00")));
    assert_ne!(rs[0].id, rs[1].id);
}

#[test]
fn recall_access_rules() {
    assert_eq!(
        recall_access(None, "r9", "t1").unwrap_err(),
        OmemError::NotFound("session_recall r9".to_string())
    );
    assert_eq!(
        recall_access(Some(recall("t2")), "r1", "t1").unwrap_err(),
        OmemError::Unauthorized("access denied".to_string())
    );
    let r = recall_access(Some(recall("t1")), "r1", "t1").unwrap();
    assert_eq!(r.tenant_id, "t1");
    assert_eq!(f32::from_bits(r.similarity_score_bits), 0.5);
}

#[test]
fn recall_listing() {
    assert_eq!(default_limit(), 20);
    let q = ListSessionRecallsQuery { limit: 10, offset: 30, session_id: None };
    let page = ListSessionRecallsResponse::new(vec![recall("t1")], &q);
    assert_eq!(page.limit, 10);
    assert_eq!(page.offset, 30);
    assert_eq!(page.recalls.len(), 1);
}
