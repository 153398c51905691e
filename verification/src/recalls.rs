//! Session recalls: whether a query should recall memories, and the
//! records of recalls made in a session.

use vstd::prelude::*;
use crate::error::{join, join3, OmemError};
use crate::text::{chars_of, matches_at, same_text, starts_with, string_of, trim, trimmed};

verus! {

/// A query asking whether memories should be recalled for it.
#[derive(Debug, Clone)]
pub struct ShouldRecallRequest {
    pub query_text: String,
    pub last_query_text: Option<String>,
    pub session_id: String,
}

/// A recall of one memory in a session. The two scores are the bit
/// patterns of `f32` values (`f32::to_bits`), carried unchanged.
#[derive(Debug, Clone)]
pub struct SessionRecall {
    pub id: String,
    pub session_id: String,
    pub memory_id: String,
    pub recall_type: String,
    pub query_text: String,
    pub similarity_score_bits: u32,
    pub llm_confidence_bits: u32,
    pub tenant_id: String,
    pub created_at: String,
}

/// Query of the recall list.
#[derive(Debug, Clone)]
pub struct ListSessionRecallsQuery {
    pub limit: usize,
    pub offset: usize,
    pub session_id: Option<String>,
}

/// A page of recalls with the paging it was asked with.
#[derive(Debug)]
pub struct ListSessionRecallsResponse {
    pub recalls: Vec<SessionRecall>,
    pub limit: usize,
    pub offset: usize,
}

/// The number of recalls listed when the query gives no limit.
pub fn default_limit() -> (n: usize)
    ensures
        n == 20,
{
    20
}

impl ListSessionRecallsResponse {
    /// The page `recalls`, answered to `query`.
    pub fn new(recalls: Vec<SessionRecall>, query: &ListSessionRecallsQuery) -> (r: Self)
        ensures
            r.recalls == recalls,
            r.limit == query.limit,
            r.offset == query.offset,
    {
        ListSessionRecallsResponse { recalls, limit: query.limit, offset: query.offset }
    }
}

/// The validation error, if any, for a request to record recalls: the
/// session must be named, at least one memory given, and the recall type
/// be `auto` or `manual`.
pub open spec fn recall_request_problem(
    session_id: Seq<char>,
    n_memories: nat,
    recall_type: Seq<char>,
) -> Option<Seq<char>> {
    if session_id.len() == 0 {
        Some("session_id cannot be empty"@)
    } else if n_memories == 0 {
        Some("memory_ids cannot be empty"@)
    } else if recall_type != "auto"@ && recall_type != "manual"@ {
        Some("recall_type must be 'auto' or 'manual'"@)
    } else {
        None
    }
}

/// A request is accepted exactly when it names a session, gives at least
/// one memory, however many, and has the recall type `auto` or `manual`.
pub proof fn lemma_recall_request_law(session_id: Seq<char>, n_memories: nat, recall_type: Seq<char>)
    ensures
        recall_request_problem(session_id, n_memories, recall_type) is None <==> (session_id.len()
            > 0 && n_memories > 0 && (recall_type == "auto"@ || recall_type == "manual"@)),
{
}

/// Checks a request to record recalls of `memory_ids` in a session.
pub fn validate_recall_request(session_id: &str, memory_ids: &Vec<String>, recall_type: &str) -> (r:
    Result<(), OmemError>)
    ensures
        match recall_request_problem(session_id@, memory_ids.len() as nat, recall_type@) {
            None => r is Ok,
            Some(m) => r matches Err(e) && e is Validation && e.message() == m,
        },
        r is Ok <==> (session_id@.len() > 0 && memory_ids.len() > 0 && (recall_type@ == "auto"@
            || recall_type@ == "manual"@)),
{
    proof {
        lemma_recall_request_law(session_id@, memory_ids.len() as nat, recall_type@);
    }
    if session_id.is_empty() {
        return Err(OmemError::Validation(String::from_str("session_id cannot be empty")));
    }
    if memory_ids.len() == 0 {
        return Err(OmemError::Validation(String::from_str("memory_ids cannot be empty")));
    }
    if !same_text(recall_type, "auto") && !same_text(recall_type, "manual") {
        return Err(
            OmemError::Validation(String::from_str("recall_type must be 'auto' or 'manual'")),
        );
    }
    Ok(())
}

/// The recalls to record for a checked request: one per memory, in the
/// order given, each with a new identifier and the current time, all with
/// the request's session, type, query and scores, for `tenant_id`.
pub fn new_session_recalls(
    session_id: &str,
    memory_ids: Vec<String>,
    recall_type: &str,
    query_text: &str,
    similarity_score_bits: u32,
    llm_confidence_bits: u32,
    tenant_id: &str,
) -> (r: Vec<SessionRecall>)
    ensures
        r.len() == memory_ids.len(),
        forall|i: int|
            0 <= i < r.len() ==> {
                &&& #[trigger] r[i].memory_id == memory_ids[i]
                &&& r[i].session_id@ == session_id@
                &&& r[i].recall_type@ == recall_type@
                &&& r[i].query_text@ == query_text@
                &&& r[i].similarity_score_bits == similarity_score_bits
                &&& r[i].llm_confidence_bits == llm_confidence_bits
                &&& r[i].tenant_id@ == tenant_id@
                &&& crate::ids::is_v4_uuid_text(r[i].id@)
                &&& crate::ids::is_utc_rfc3339(r[i].created_at@)
            },
{
    let mut r: Vec<SessionRecall> = Vec::new();
    let mut i: usize = 0;
    while i < memory_ids.len()
        invariant
            i <= memory_ids.len(),
            r.len() == i,
            forall|k: int|
                0 <= k < r.len() ==> {
                    &&& #[trigger] r[k].memory_id == memory_ids[k]
                    &&& r[k].session_id@ == session_id@
                    &&& r[k].recall_type@ == recall_type@
                    &&& r[k].query_text@ == query_text@
                    &&& r[k].similarity_score_bits == similarity_score_bits
                    &&& r[k].llm_confidence_bits == llm_confidence_bits
                    &&& r[k].tenant_id@ == tenant_id@
                    &&& crate::ids::is_v4_uuid_text(r[k].id@)
                    &&& crate::ids::is_utc_rfc3339(r[k].created_at@)
                },
        decreases memory_ids.len() - i,
    {
        let recall = SessionRecall {
            id: crate::ids::new_id(),
            session_id: String::from_str(session_id),
            memory_id: memory_ids[i].clone(),
            recall_type: String::from_str(recall_type),
            query_text: String::from_str(query_text),
            similarity_score_bits,
            llm_confidence_bits,
            tenant_id: String::from_str(tenant_id),
            created_at: crate::ids::now_rfc3339(),
        };
        r.push(recall);
        i = i + 1;
    }
    r
}

/// The answer to a request for the recall `id` by `tenant_id`, given what
/// the store found under that identifier.
pub fn recall_access(found: Option<SessionRecall>, id: &str, tenant_id: &str) -> (r: Result<
    SessionRecall,
    OmemError,
>)
    ensures
        match found {
            None => r matches Err(e) && e is NotFound && e.message() == "session_recall "@ + id@,
            Some(rec) => if rec.tenant_id@ == tenant_id@ {
                r == Ok::<SessionRecall, OmemError>(rec)
            } else {
                r matches Err(e) && e is Unauthorized && e.message() == "access denied"@
            },
        },
        r matches Ok(rec) ==> rec.tenant_id@ == tenant_id@,
{
    match found {
        None => Err(OmemError::NotFound(join("session_recall ", id))),
        Some(rec) => {
            if same_text(rec.tenant_id.as_str(), tenant_id) {
                Ok(rec)
            } else {
                Err(OmemError::Unauthorized(String::from_str("access denied")))
            }
        },
    }
}

/// The lower-case form of `s` that `str::to_lowercase` gives.
pub uninterp spec fn lowercase(s: Seq<char>) -> Seq<char>;

/// `str::to_lowercase`.
///
/// Trusted: the result is the lower-case mapping of `s`, a function of `s`
/// alone (full Unicode case mapping; not stated here).
#[verifier::external_body]
fn to_lower(s: &str) -> (r: String)
    ensures
        r@ == lowercase(s@),
{
    s.to_lowercase()
}

/// The word a recall-model answer must begin with to ask for recall.
pub open spec fn yes_word() -> Seq<char> {
    seq!['y', 'e', 's']
}

/// Whether a lower-cased answer asks for recall: it begins with `yes`.
pub fn lowered_says_yes(lowered: &str) -> (b: bool)
    ensures
        b == starts_with(lowered@, yes_word()),
        b <==> (lowered@.len() >= 3 && lowered@[0] == 'y' && lowered@[1] == 'e' && lowered@[2]
            == 's'),
{
    let v = chars_of(lowered);
    let yes: Vec<char> = vec!['y', 'e', 's'];
    assert(yes@ =~= yes_word());
    let b = matches_at(&v, &yes, 0);
    assert(b == starts_with(v@, yes@)) by {
        if starts_with(v@, yes@) {
            assert(v@.subrange(0, 3) =~= v@.take(3));
        }
        if b {
            assert(v@.subrange(0, 3) =~= v@.take(3));
        }
    }
    proof {
        let l = lowered@;
        if l.len() >= 3 && l[0] == 'y' && l[1] == 'e' && l[2] == 's' {
            assert(l.take(3) =~= yes_word());
        }
        if b {
            assert(l.take(3)[0] == l[0] && l.take(3)[1] == l[1] && l.take(3)[2] == l[2]);
        }
    }
    b
}

/// Whether the recall model's answer asks for recall: trimmed and lower-
/// cased, it begins with `yes`.
pub open spec fn says_yes(answer: Seq<char>) -> bool {
    starts_with(lowercase(trim(answer)), yes_word())
}

/// An answer asks for recall exactly when, trimmed and lower-cased, its
/// first three characters are `y`, `e`, `s`; what follows them does not
/// matter, and an answer of just `yes` asks for recall.
pub proof fn lemma_says_yes_law(answer: Seq<char>)
    ensures
        says_yes(answer) <==> ({
            let l = lowercase(trim(answer));
            l.len() >= 3 && l[0] == 'y' && l[1] == 'e' && l[2] == 's'
        }),
{
    let l = lowercase(trim(answer));
    if l.len() >= 3 && l[0] == 'y' && l[1] == 'e' && l[2] == 's' {
        assert(l.take(3) =~= yes_word());
    }
    if says_yes(answer) {
        assert(l.take(3)[0] == l[0] && l.take(3)[1] == l[1] && l.take(3)[2] == l[2]);
    }
}

/// Whether the recall model's answer asks for recall.
pub fn answer_says_yes(answer: &str) -> (b: bool)
    ensures
        b == says_yes(answer@),
        b <==> ({
            let l = lowercase(trim(answer@));
            l.len() >= 3 && l[0] == 'y' && l[1] == 'e' && l[2] == 's'
        }),
{
    proof {
        lemma_says_yes_law(answer@);
    }
    let t = string_of(trimmed(&chars_of(answer)).as_slice());
    let lowered = to_lower(t.as_str());
    lowered_says_yes(lowered.as_str())
}

/// The instructions of the recall model.
pub open spec fn recall_system_prompt() -> Seq<char> {
    "你是一个记忆召回助手。用户有一个个人知识库，保存了过往笔记、项目经验、技术方案、偏好设置等记忆。你的任务是判断用户当前的问题是否需要从知识库中检索相关记忆来辅助回答。如果是关于用户个人知识、项目细节、过往经验的问题，回答 yes。如果是通用常识、简单问候等无需检索的问题，回答 no。只回答 yes 或 no。"@
}

/// The instructions of the recall model.
pub fn should_recall_system_prompt() -> (r: &'static str)
    ensures
        r@ == recall_system_prompt(),
{
    "你是一个记忆召回助手。用户有一个个人知识库，保存了过往笔记、项目经验、技术方案、偏好设置等记忆。你的任务是判断用户当前的问题是否需要从知识库中检索相关记忆来辅助回答。如果是关于用户个人知识、项目细节、过往经验的问题，回答 yes。如果是通用常识、简单问候等无需检索的问题，回答 no。只回答 yes 或 no。"
}

/// The question put to the recall model about `query`.
pub open spec fn recall_question(query: Seq<char>) -> Seq<char> {
    "用户问题："@ + query
        + "\n\n这个问题是否需要从用户个人知识库中检索相关记忆来回答？回答 yes 或 no。"@
}

/// The question put to the recall model about `query`.
pub fn recall_user_prompt(query: &str) -> (r: String)
    ensures
        r@ == recall_question(query@),
{
    join3(
        "用户问题：",
        query,
        "\n\n这个问题是否需要从用户个人知识库中检索相关记忆来回答？回答 yes 或 no。",
    )
}

/// The message of an embedding failure reported as `detail`.
pub open spec fn embed_failure_message(detail: Seq<char>) -> Seq<char> {
    "failed to embed query: "@ + detail
}

/// How many memories a recall search returns at most.
pub open spec fn recall_search_limit() -> nat {
    5
}

/// Where a recall decision stands.
#[derive(Clone, Copy, PartialEq, Eq, Debug)]
pub enum RecallPhase {
    /// The query and the previous query are being embedded.
    AwaitPair,
    /// The recall model's answer is awaited.
    AwaitVerdict,
    /// The query is being embedded.
    AwaitQueryVector,
    /// The memory search is running.
    AwaitSearch,
    /// The decision is made.
    Finished,
}

/// How far a phase is from the end of a decision.
pub open spec fn phase_rank(p: RecallPhase) -> nat {
    match p {
        RecallPhase::AwaitPair => 4,
        RecallPhase::AwaitVerdict => 3,
        RecallPhase::AwaitQueryVector => 2,
        RecallPhase::AwaitSearch => 1,
        RecallPhase::Finished => 0,
    }
}

/// The answer to a recall query.
#[derive(Debug)]
pub struct RecallVerdict {
    pub should_recall: bool,
    /// Why no recall is made; `None` when one is.
    pub reason: Option<String>,
    /// How many memories the search found; they are the answer's memories.
    pub memories_found: usize,
    /// Whether the similarity of the query to the previous one is part of
    /// the answer.
    pub with_similarity: bool,
}

/// What the driver of a recall decision is to do next.
#[derive(Debug)]
pub enum RecallAction {
    /// Embed the query and the previous query together.
    EmbedPair(String, String),
    /// Ask the recall model, with these instructions, this question.
    AskModel(String, String),
    /// Embed the query alone.
    EmbedQuery(String),
    /// Search the personal space for the query: by full text when
    /// `full_text`, else by vector; `limit` memories at most.
    Search { query: String, full_text: bool, limit: usize },
    /// Answer with this verdict (with the memories found when it recalls).
    Respond(RecallVerdict),
    /// Answer with this error.
    Fail(OmemError),
}

/// What the driver of a recall decision observed.
#[derive(Debug)]
pub enum RecallEvent {
    /// The pair was embedded into `vectors` vectors; when there are two,
    /// `too_similar` tells whether their cosine similarity exceeds 0.7.
    PairEmbedded { vectors: usize, too_similar: bool },
    /// The embedding service failed, saying this.
    EmbeddingFailed(String),
    /// The recall model answered with this text.
    ModelAnswered(String),
    /// The recall model could not be asked.
    ModelFailed,
    /// The query was embedded; `zero` when no vector, or only zeros, came
    /// back.
    QueryEmbedded { zero: bool },
    /// The store could not be opened.
    StoreFailed(OmemError),
    /// The search found `found` memories.
    Searched { found: usize },
}

/// A decision whether a query should recall memories.
pub struct RecallFlow {
    query: String,
    has_similarity: bool,
    phase: RecallPhase,
}

/// A verdict with the given content.
pub open spec fn verdict_is(
    v: RecallVerdict,
    should_recall: bool,
    reason: Option<Seq<char>>,
    with_similarity: bool,
) -> bool {
    &&& v.should_recall == should_recall
    &&& match (v.reason, reason) {
        (Some(a), Some(b)) => a@ == b,
        (None, None) => true,
        _ => false,
    }
    &&& v.with_similarity == with_similarity
}

/// The shape of every answer: it recalls exactly when it gives no reason
/// and has found memories; a refusal gives one of the three reasons and no
/// memories.
pub open spec fn verdict_wf(v: RecallVerdict) -> bool {
    &&& v.should_recall <==> v.reason is None
    &&& v.should_recall <==> v.memories_found > 0
    &&& v.reason matches Some(r) ==> (r@ == "similarity_too_high"@ || r@ == "llm_decided_no"@
        || r@ == "no_relevant_memories"@)
}

impl RecallFlow {
    /// The query being decided on.
    pub closed spec fn query_of(&self) -> Seq<char> {
        self.query@
    }

    /// Whether the similarity to the previous query was measured.
    pub closed spec fn similarity_known(&self) -> bool {
        self.has_similarity
    }

    /// Where the decision stands.
    pub closed spec fn phase_of(&self) -> RecallPhase {
        self.phase
    }

    /// Whether `ev` can follow in the current phase.
    pub open spec fn accepts_spec(&self, ev: &RecallEvent) -> bool {
        match self.phase_of() {
            RecallPhase::AwaitPair => ev is PairEmbedded || ev is EmbeddingFailed,
            RecallPhase::AwaitVerdict => ev is ModelAnswered || ev is ModelFailed,
            RecallPhase::AwaitQueryVector => ev is QueryEmbedded || ev is EmbeddingFailed,
            RecallPhase::AwaitSearch => ev is Searched || ev is StoreFailed,
            RecallPhase::Finished => false,
        }
    }

    /// Starts deciding on `req`. An empty query is refused. With a
    /// non-empty previous query, both are embedded first; otherwise the
    /// recall model is asked right away.
    pub fn start(req: &ShouldRecallRequest) -> (r: (RecallFlow, RecallAction))
        ensures
            r.0.query_of() == req.query_text@,
            !r.0.similarity_known(),
            !(r.1 is Respond),
            req.query_text@.len() == 0 ==> {
                &&& r.1 matches RecallAction::Fail(e) && e is Validation && e.message()
                    == "query_text cannot be empty"@
                &&& r.0.phase_of() == RecallPhase::Finished
            },
            req.query_text@.len() != 0 ==> match req.last_query_text {
                Some(last) if last@.len() != 0 => {
                    &&& r.1 matches RecallAction::EmbedPair(a, b) && a@ == req.query_text@ && b@
                        == last@
                    &&& r.0.phase_of() == RecallPhase::AwaitPair
                },
                _ => {
                    &&& r.1 matches RecallAction::AskModel(s, u) && s@ == recall_system_prompt()
                        && u@ == recall_question(req.query_text@)
                    &&& r.0.phase_of() == RecallPhase::AwaitVerdict
                },
            },
    {
        let query = req.query_text.clone();
        if query.as_str().is_empty() {
            let flow = RecallFlow { query, has_similarity: false, phase: RecallPhase::Finished };
            return (
                flow,
                RecallAction::Fail(
                    OmemError::Validation(String::from_str("query_text cannot be empty")),
                ),
            );
        }
        match &req.last_query_text {
            Some(last) if !last.as_str().is_empty() => {
                let action = RecallAction::EmbedPair(query.clone(), last.clone());
                (RecallFlow { query, has_similarity: false, phase: RecallPhase::AwaitPair }, action)
            },
            _ => {
                let action = RecallAction::AskModel(
                    String::from_str(should_recall_system_prompt()),
                    recall_user_prompt(query.as_str()),
                );
                (
                    RecallFlow { query, has_similarity: false, phase: RecallPhase::AwaitVerdict },
                    action,
                )
            },
        }
    }

    /// Where the decision stands.
    pub fn phase(&self) -> (p: RecallPhase)
        ensures
            p == self.phase_of(),
    {
        self.phase
    }

    /// Whether `ev` can follow in the current phase.
    pub fn accepts(&self, ev: &RecallEvent) -> (b: bool)
        ensures
            b == self.accepts_spec(ev),
    {
        match self.phase {
            RecallPhase::AwaitPair => match ev {
                RecallEvent::PairEmbedded { .. } | RecallEvent::EmbeddingFailed(_) => true,
                _ => false,
            },
            RecallPhase::AwaitVerdict => match ev {
                RecallEvent::ModelAnswered(_) | RecallEvent::ModelFailed => true,
                _ => false,
            },
            RecallPhase::AwaitQueryVector => match ev {
                RecallEvent::QueryEmbedded { .. } | RecallEvent::EmbeddingFailed(_) => true,
                _ => false,
            },
            RecallPhase::AwaitSearch => match ev {
                RecallEvent::Searched { .. } | RecallEvent::StoreFailed(_) => true,
                _ => false,
            },
            RecallPhase::Finished => false,
        }
    }

    /// Advances the decision by one observed event.
    ///
    /// A failed embedding ends it with an `Embedding` error. Two vectors
    /// found too similar end it without recall; otherwise the recall model
    /// is asked. An answer that does not begin with `yes` ends it without
    /// recall; a `yes`, or a failure to ask the model, goes on to embed the
    /// query. An all-zero or missing query vector selects full-text search
    /// over vector search. A search that finds nothing ends it without
    /// recall; one that finds memories ends it with recall.
    pub fn step(&mut self, ev: RecallEvent) -> (action: RecallAction)
        requires
            old(self).accepts_spec(&ev),
        ensures
            final(self).query_of() == old(self).query_of(),
            phase_rank(final(self).phase_of()) < phase_rank(old(self).phase_of()),
            (action is Respond || action is Fail) <==> final(self).phase_of()
                == RecallPhase::Finished,
            action matches RecallAction::Respond(v) ==> verdict_wf(v),
            match ev {
                RecallEvent::EmbeddingFailed(m) => action matches RecallAction::Fail(e)
                    && e is Embedding && e.message() == embed_failure_message(m@),
                RecallEvent::PairEmbedded { vectors, too_similar } => if vectors == 2
                    && too_similar {
                    action matches RecallAction::Respond(v) && verdict_is(
                        v,
                        false,
                        Some("similarity_too_high"@),
                        true,
                    )
                } else {
                    &&& action matches RecallAction::AskModel(s, u) && s@
                        == recall_system_prompt() && u@ == recall_question(old(self).query_of())
                    &&& final(self).phase_of() == RecallPhase::AwaitVerdict
                    &&& final(self).similarity_known() == (vectors == 2)
                },
                RecallEvent::ModelAnswered(t) => if says_yes(t@) {
                    &&& action matches RecallAction::EmbedQuery(q) && q@ == old(self).query_of()
                    &&& final(self).phase_of() == RecallPhase::AwaitQueryVector
                    &&& final(self).similarity_known() == old(self).similarity_known()
                } else {
                    action matches RecallAction::Respond(v) && verdict_is(
                        v,
                        false,
                        Some("llm_decided_no"@),
                        old(self).similarity_known(),
                    )
                },
                RecallEvent::ModelFailed => {
                    &&& action matches RecallAction::EmbedQuery(q) && q@ == old(self).query_of()
                    &&& final(self).phase_of() == RecallPhase::AwaitQueryVector
                    &&& final(self).similarity_known() == old(self).similarity_known()
                },
                RecallEvent::QueryEmbedded { zero } => {
                    &&& action matches RecallAction::Search { query, full_text, limit } && query@
                        == old(self).query_of() && full_text == zero && limit
                        == recall_search_limit()
                    &&& final(self).phase_of() == RecallPhase::AwaitSearch
                    &&& final(self).similarity_known() == old(self).similarity_known()
                },
                RecallEvent::StoreFailed(e) => action == RecallAction::Fail(e),
                RecallEvent::Searched { found } => if found == 0 {
                    action matches RecallAction::Respond(v) && verdict_is(
                        v,
                        false,
                        Some("no_relevant_memories"@),
                        old(self).similarity_known(),
                    )
                } else {
                    action matches RecallAction::Respond(v) && verdict_is(
                        v,
                        true,
                        None,
                        old(self).similarity_known(),
                    ) && v.memories_found == found
                },
            },
    {
        match ev {
            RecallEvent::EmbeddingFailed(m) => {
                self.phase = RecallPhase::Finished;
                RecallAction::Fail(OmemError::Embedding(join("failed to embed query: ", m.as_str())))
            },
            RecallEvent::PairEmbedded { vectors, too_similar } => {
                if vectors == 2 && too_similar {
                    self.phase = RecallPhase::Finished;
                    RecallAction::Respond(
                        RecallVerdict {
                            should_recall: false,
                            reason: Some(String::from_str("similarity_too_high")),
                            memories_found: 0,
                            with_similarity: true,
                        },
                    )
                } else {
                    self.has_similarity = vectors == 2;
                    self.phase = RecallPhase::AwaitVerdict;
                    RecallAction::AskModel(
                        String::from_str(should_recall_system_prompt()),
                        recall_user_prompt(self.query.as_str()),
                    )
                }
            },
            RecallEvent::ModelAnswered(t) => {
                if answer_says_yes(t.as_str()) {
                    self.phase = RecallPhase::AwaitQueryVector;
                    RecallAction::EmbedQuery(self.query.clone())
                } else {
                    self.phase = RecallPhase::Finished;
                    RecallAction::Respond(
                        RecallVerdict {
                            should_recall: false,
                            reason: Some(String::from_str("llm_decided_no")),
                            memories_found: 0,
                            with_similarity: self.has_similarity,
                        },
                    )
                }
            },
            RecallEvent::ModelFailed => {
                self.phase = RecallPhase::AwaitQueryVector;
                RecallAction::EmbedQuery(self.query.clone())
            },
            RecallEvent::QueryEmbedded { zero } => {
                self.phase = RecallPhase::AwaitSearch;
                RecallAction::Search { query: self.query.clone(), full_text: zero, limit: 5 }
            },
            RecallEvent::StoreFailed(e) => {
                self.phase = RecallPhase::Finished;
                RecallAction::Fail(e)
            },
            RecallEvent::Searched { found } => {
                self.phase = RecallPhase::Finished;
                if found == 0 {
                    RecallAction::Respond(
                        RecallVerdict {
                            should_recall: false,
                            reason: Some(String::from_str("no_relevant_memories")),
                            memories_found: 0,
                            with_similarity: self.has_similarity,
                        },
                    )
                } else {
                    RecallAction::Respond(
                        RecallVerdict {
                            should_recall: true,
                            reason: None,
                            memories_found: found,
                            with_similarity: self.has_similarity,
                        },
                    )
                }
            },
        }
    }
}

} // verus!
