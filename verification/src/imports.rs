//! Import of memory files: how an uploaded file is read into memories to
//! create, which items are skipped, and the task record that reports the
//! outcome.

use vstd::prelude::*;
use crate::error::{join, join3, OmemError};
use crate::json::{
    field_text, json_field, json_parse, json_text, parse_json, string_elements, strings_of,
    JsonValue,
};
use crate::text::{
    blank_line, contains, lemma_contains_subrange, lemma_paragraph_pieces_split,
    lemma_trim_idempotent, lemma_trim_shape, byte_len, byte_len_exceeds, chars_of, lines, lines_of, paragraph_pieces,
    paragraph_pieces_of, same_text, string_of, trim, trimmed, views,
};

verus! {

/// The kind of knowledge a memory holds.
#[derive(Debug, Clone, Copy, PartialEq, Eq)]
pub enum Category {
    Entities,
    Events,
    Cases,
}

/// How a memory came about.
#[derive(Debug, Clone, Copy, PartialEq, Eq)]
pub enum MemoryType {
    Insight,
    Session,
}

/// A memory to be created from an imported item.
#[derive(Debug)]
pub struct MemoryDraft {
    pub content: String,
    pub category: Category,
    pub memory_type: MemoryType,
    /// The tags to set; `None` keeps those a new memory starts with.
    pub tags: Option<Vec<String>>,
    pub source: String,
    pub space_id: String,
    /// The owning agent to set; `None` keeps the default owner.
    pub owner_agent_id: Option<String>,
    pub session_id: Option<String>,
}

/// The plain content of a `MemoryDraft`.
pub struct MemoryDraftView {
    pub content: Seq<char>,
    pub category: Category,
    pub memory_type: MemoryType,
    pub tags: Option<Seq<Seq<char>>>,
    pub source: Seq<char>,
    pub space_id: Seq<char>,
    pub owner_agent_id: Option<Seq<char>>,
    pub session_id: Option<Seq<char>>,
}

/// The view of an optional text.
pub open spec fn opt_view(o: Option<String>) -> Option<Seq<char>> {
    match o {
        Some(s) => Some(s@),
        None => None,
    }
}

/// The views of a sequence of texts.
pub open spec fn text_views(s: Seq<String>) -> Seq<Seq<char>> {
    s.map_values(|t: String| t@)
}

impl View for MemoryDraft {
    type V = MemoryDraftView;

    open spec fn view(&self) -> MemoryDraftView {
        MemoryDraftView {
            content: self.content@,
            category: self.category,
            memory_type: self.memory_type,
            tags: match self.tags {
                Some(t) => Some(text_views(t@)),
                None => None,
            },
            source: self.source@,
            space_id: self.space_id@,
            owner_agent_id: opt_view(self.owner_agent_id),
            session_id: opt_view(self.session_id),
        }
    }
}

/// The views of a sequence of drafts.
pub open spec fn draft_views(s: Seq<MemoryDraft>) -> Seq<MemoryDraftView> {
    s.map_values(|d: MemoryDraft| d@)
}

/// Where imported memories go and whom they belong to.
pub struct ImportContext {
    /// The space the memories are created in.
    pub space_id: String,
    /// The agent that owns them, when given.
    pub agent_id: Option<String>,
    /// The session that session messages are attached to, when given.
    pub session_id: Option<String>,
}

/// The memories to create from a file, and how many of its items were
/// counted and skipped.
#[derive(Debug)]
pub struct ImportPlan {
    pub total_items: usize,
    pub skipped: usize,
    pub drafts: Vec<MemoryDraft>,
}

/// The plain content of an `ImportPlan`.
#[verifier::ext_equal]
pub struct ImportPlanView {
    pub total_items: nat,
    pub skipped: nat,
    pub drafts: Seq<MemoryDraftView>,
}

impl View for ImportPlan {
    type V = ImportPlanView;

    open spec fn view(&self) -> ImportPlanView {
        ImportPlanView {
            total_items: self.total_items as nat,
            skipped: self.skipped as nat,
            drafts: draft_views(self.drafts@),
        }
    }
}

/// A draft with the given fields, in the space and for the agent of `ctx`.
pub open spec fn draft(
    content: Seq<char>,
    category: Category,
    memory_type: MemoryType,
    tags: Option<Seq<Seq<char>>>,
    source: Seq<char>,
    ctx: ImportContext,
    session_id: Option<Seq<char>>,
) -> MemoryDraftView {
    MemoryDraftView {
        content,
        category,
        memory_type,
        tags,
        source,
        space_id: ctx.space_id@,
        owner_agent_id: opt_view(ctx.agent_id),
        session_id,
    }
}

fn clone_opt(o: &Option<String>) -> (r: Option<String>)
    ensures
        r == *o,
{
    match o {
        Some(s) => Some(s.clone()),
        None => None,
    }
}

fn make_draft(
    content: String,
    category: Category,
    memory_type: MemoryType,
    tags: Option<Vec<String>>,
    source: &str,
    ctx: &ImportContext,
    session_id: Option<String>,
) -> (d: MemoryDraft)
    ensures
        d@ == draft(
            content@,
            category,
            memory_type,
            match tags {
                Some(t) => Some(text_views(t@)),
                None => None,
            },
            source@,
            *ctx,
            opt_view(session_id),
        ),
{
    MemoryDraft {
        content,
        category,
        memory_type,
        tags,
        source: String::from_str(source),
        space_id: ctx.space_id.clone(),
        owner_agent_id: clone_opt(&ctx.agent_id),
        session_id,
    }
}

/// The items of a memory file, from its parsed document: the elements of
/// a top-level array; else the elements of a `memories` array member;
/// else the document itself. `None` where the file is not JSON.
pub open spec fn memory_items(parsed: Option<JsonValue>) -> Option<Seq<JsonValue>> {
    match parsed {
        Some(JsonValue::Array(items)) => Some(items@),
        Some(v) => match json_field(v, "memories"@) {
            Some(JsonValue::Array(m)) => Some(m@),
            _ => Some(seq![v]),
        },
        None => None,
    }
}

/// The index of the first member named `key` among `entries`.
fn first_member(entries: &Vec<(String, JsonValue)>, key: &str) -> (r: Option<usize>)
    ensures
        match r {
            Some(i) => i < entries.len() && crate::json::entry_value(entries@, key@) == Some(
                entries@[i as int].1,
            ),
            None => crate::json::entry_value(entries@, key@) is None,
        },
{
    let wanted = String::from_str(key);
    let mut i: usize = 0;
    assert(entries@.skip(0) =~= entries@);
    while i < entries.len()
        invariant
            i <= entries.len(),
            wanted@ == key@,
            crate::json::entry_value(entries@, key@) == crate::json::entry_value(
                entries@.skip(i as int),
                key@,
            ),
        decreases entries.len() - i,
    {
        assert(entries@.skip(i as int).drop_first() =~= entries@.skip(i + 1));
        if entries[i].0 == wanted {
            assert(entries@.skip(i as int)[0] == entries@[i as int]);
            return Some(i);
        }
        i = i + 1;
    }
    None
}

/// The elements of the `memories` array member of `v`, or `v` alone.
fn members_or_self(v: JsonValue) -> (r: Vec<JsonValue>)
    ensures
        r@ == match json_field(v, "memories"@) {
            Some(JsonValue::Array(m)) => m@,
            _ => seq![v],
        },
{
    match v {
        JsonValue::Object(mut entries) => {
            let ghost whole = JsonValue::Object(entries);
            match first_member(&entries, "memories") {
                Some(i) => {
                    let is_array = match &entries[i].1 {
                        JsonValue::Array(_) => true,
                        _ => false,
                    };
                    if is_array {
                        let (_, val) = entries.remove(i);
                        match val {
                            JsonValue::Array(m) => m,
                            _ => {
                                assert(false);
                                Vec::new()
                            },
                        }
                    } else {
                        let r = vec![JsonValue::Object(entries)];
                        assert(r@ =~= seq![whole]);
                        r
                    }
                },
                None => {
                    let r = vec![JsonValue::Object(entries)];
                    assert(r@ =~= seq![whole]);
                    r
                },
            }
        },
        other => {
            let r = vec![other];
            assert(r@ =~= seq![v]);
            r
        },
    }
}

/// The message of the error for a memory file that is not JSON.
pub open spec fn bad_memory_json_message() -> Seq<char> {
    "expected JSON array or object with 'memories' field"@
}

/// The items of a memory file from its parsed document.
pub fn memory_items_of(parsed: Option<JsonValue>) -> (r: Result<Vec<JsonValue>, OmemError>)
    ensures
        match r {
            Ok(items) => memory_items(parsed) == Some(items@),
            Err(e) => memory_items(parsed) is None && e is Validation && e.message()
                == bad_memory_json_message(),
        },
{
    match parsed {
        Some(JsonValue::Array(items)) => Ok(items),
        Some(v) => Ok(members_or_self(v)),
        None => Err(
            OmemError::Validation(
                String::from_str("expected JSON array or object with 'memories' field"),
            ),
        ),
    }
}

/// The items of a memory file: a JSON array of items, an object whose
/// `memories` member is that array, or a single item.
pub fn parse_memory_json(content: &str) -> (r: Result<Vec<JsonValue>, OmemError>)
    ensures
        match r {
            Ok(items) => memory_items(json_parse(content@)) == Some(items@),
            Err(e) => memory_items(json_parse(content@)) is None && e is Validation
                && e.message() == bad_memory_json_message(),
        },
{
    memory_items_of(parse_json(content))
}

/// The plan with nothing counted.
pub open spec fn empty_plan() -> ImportPlanView {
    ImportPlanView { total_items: 0, skipped: 0, drafts: Seq::empty() }
}

/// `p` with one more item counted and skipped.
pub open spec fn plan_skip(p: ImportPlanView) -> ImportPlanView {
    ImportPlanView { total_items: p.total_items + 1, skipped: p.skipped + 1, drafts: p.drafts }
}

/// `p` with one more item counted, to be created as `d`.
pub open spec fn plan_take(p: ImportPlanView, d: MemoryDraftView) -> ImportPlanView {
    ImportPlanView { total_items: p.total_items + 1, skipped: p.skipped, drafts: p.drafts.push(d) }
}

/// The text of the `content` member of a memory item, or the empty text.
pub open spec fn item_content(item: JsonValue) -> Seq<char> {
    match json_text(json_field(item, "content"@)) {
        Some(c) => c,
        None => Seq::empty(),
    }
}

/// The tags of a memory item: the strings of its `tags` array, or the
/// single tag `imported` when it has no such array.
pub open spec fn item_tags(item: JsonValue) -> Seq<Seq<char>> {
    match json_field(item, "tags"@) {
        Some(JsonValue::Array(a)) => string_elements(a@),
        _ => seq!["imported"@],
    }
}

/// The plan for the items of a memory file: an item with empty content is
/// skipped; any other becomes an `Entities` insight with its tags, from
/// source `import`.
pub open spec fn memory_plan(items: Seq<JsonValue>, ctx: ImportContext) -> ImportPlanView
    decreases items.len(),
{
    if items.len() == 0 {
        empty_plan()
    } else {
        let p = memory_plan(items.drop_last(), ctx);
        let item = items.last();
        if item_content(item).len() == 0 {
            plan_skip(p)
        } else {
            plan_take(
                p,
                draft(
                    item_content(item),
                    Category::Entities,
                    MemoryType::Insight,
                    Some(item_tags(item)),
                    "import"@,
                    ctx,
                    None,
                ),
            )
        }
    }
}

fn item_tags_of(item: &JsonValue) -> (r: Vec<String>)
    ensures
        text_views(r@) == item_tags(*item),
{
    match item.field("tags") {
        Some(JsonValue::Array(a)) => strings_of(a),
        _ => {
            let r = vec![String::from_str("imported")];
            assert(text_views(r@) =~= seq!["imported"@]);
            r
        },
    }
}

/// The plan for the items of a memory file.
pub fn plan_memory_items(items: &Vec<JsonValue>, ctx: &ImportContext) -> (p: ImportPlan)
    ensures
        plan_accounts(p@),
        p@ == memory_plan(items@, *ctx),
{
    let mut p = ImportPlan { total_items: 0, skipped: 0, drafts: Vec::new() };
    let mut i: usize = 0;
    assert(items@.take(0) =~= Seq::<JsonValue>::empty());
    assert(p@ =~= empty_plan());
    while i < items.len()
        invariant
            i <= items.len(),
            p.total_items == i,
            p.total_items == p.skipped + p.drafts.len(),
            p.skipped <= i,
            p@ == memory_plan(items@.take(i as int), *ctx),
        decreases items.len() - i,
    {
        assert(items@.take(i + 1).drop_last() =~= items@.take(i as int));
        let item = &items[i];
        match field_text(item, "content") {
            Some(c) if !c.as_str().is_empty() => {
                let d = make_draft(
                    c.clone(),
                    Category::Entities,
                    MemoryType::Insight,
                    Some(item_tags_of(item)),
                    "import",
                    ctx,
                    None,
                );
                let ghost before = p@;
                p.drafts.push(d);
                p.total_items = p.total_items + 1;
                assert(p@ =~= plan_take(before, d@));
            },
            _ => {
                p.skipped = p.skipped + 1;
                p.total_items = p.total_items + 1;
            },
        }
        i = i + 1;
    }
    assert(items@.take(i as int) =~= items@);
    p
}

/// The role and content texts of a message object, when both are strings.
pub open spec fn message_of(v: JsonValue) -> Option<(Seq<char>, Seq<char>)> {
    match (json_text(json_field(v, "role"@)), json_text(json_field(v, "content"@))) {
        (Some(r), Some(c)) => Some((r, c)),
        _ => None,
    }
}

/// The messages among `vs`, in order.
pub open spec fn messages_of_values(vs: Seq<JsonValue>) -> Seq<(Seq<char>, Seq<char>)>
    decreases vs.len(),
{
    if vs.len() == 0 {
        Seq::empty()
    } else {
        let rest = messages_of_values(vs.drop_last());
        match message_of(vs.last()) {
            Some(m) => rest.push(m),
            None => rest,
        }
    }
}

/// The messages among the documents `docs` (`None` for a line that is not
/// JSON), in order.
pub open spec fn messages_of_documents(docs: Seq<Option<JsonValue>>) -> Seq<
    (Seq<char>, Seq<char>),
>
    decreases docs.len(),
{
    if docs.len() == 0 {
        Seq::empty()
    } else {
        let rest = messages_of_documents(docs.drop_last());
        match docs.last() {
            Some(v) => match message_of(v) {
                Some(m) => rest.push(m),
                None => rest,
            },
            None => rest,
        }
    }
}

/// The documents that `serde_json` reads from the texts `ls`, one each.
pub open spec fn parsed_documents(ls: Seq<Seq<char>>) -> Seq<Option<JsonValue>> {
    ls.map_values(|l: Seq<char>| json_parse(l))
}

/// The messages of a session file: those of a top-level JSON array, or
/// else those of its lines, each line read as one JSON document.
pub open spec fn session_messages(content: Seq<char>) -> Seq<(Seq<char>, Seq<char>)> {
    match json_parse(content) {
        Some(JsonValue::Array(a)) => messages_of_values(a@),
        _ => messages_of_documents(parsed_documents(lines(content))),
    }
}

/// The views of a sequence of text pairs.
pub open spec fn pair_views(s: Seq<(String, String)>) -> Seq<(Seq<char>, Seq<char>)> {
    s.map_values(|p: (String, String)| (p.0@, p.1@))
}

fn message_of_value(v: &JsonValue) -> (r: Option<(String, String)>)
    ensures
        match r {
            Some(p) => message_of(*v) == Some((p.0@, p.1@)),
            None => message_of(*v) is None,
        },
{
    match (field_text(v, "role"), field_text(v, "content")) {
        (Some(role), Some(content)) => Some((role.clone(), content.clone())),
        _ => None,
    }
}

/// The lines of `content`.
pub fn text_lines(content: &str) -> (r: Vec<String>)
    ensures
        text_views(r@) == lines(content@),
{
    let ls = lines_of(&chars_of(content));
    let mut r: Vec<String> = Vec::new();
    let mut i: usize = 0;
    while i < ls.len()
        invariant
            i <= ls.len(),
            r.len() == i,
            forall|k: int| 0 <= k < i ==> #[trigger] r@[k]@ == ls@[k]@,
        decreases ls.len() - i,
    {
        r.push(string_of(ls[i].as_slice()));
        i = i + 1;
    }
    assert(text_views(r@) =~= views(ls@));
    r
}

/// The documents that `serde_json` reads from the texts `ls`, one each.
pub fn parse_documents(ls: &Vec<String>) -> (r: Vec<Option<JsonValue>>)
    ensures
        r@ == parsed_documents(text_views(ls@)),
{
    let mut r: Vec<Option<JsonValue>> = Vec::new();
    let mut i: usize = 0;
    while i < ls.len()
        invariant
            i <= ls.len(),
            r@ == parsed_documents(text_views(ls@.take(i as int))),
        decreases ls.len() - i,
    {
        let ghost before = r@;
        r.push(parse_json(ls[i].as_str()));
        i = i + 1;
        assert(r@ =~= parsed_documents(text_views(ls@.take(i as int))));
    }
    assert(ls@.take(i as int) =~= ls@);
    r
}

/// The messages among the elements of a JSON array.
pub fn messages_in_array(values: &Vec<JsonValue>) -> (r: Vec<(String, String)>)
    ensures
        pair_views(r@) == messages_of_values(values@),
{
    let mut r: Vec<(String, String)> = Vec::new();
    let mut i: usize = 0;
    assert(values@.take(0) =~= Seq::<JsonValue>::empty());
    while i < values.len()
        invariant
            i <= values.len(),
            pair_views(r@) == messages_of_values(values@.take(i as int)),
        decreases values.len() - i,
    {
        assert(values@.take(i + 1).drop_last() =~= values@.take(i as int));
        let ghost before = pair_views(r@);
        match message_of_value(&values[i]) {
            Some(m) => {
                r.push(m);
                assert(pair_views(r@) =~= before.push((m.0@, m.1@)));
            },
            None => {},
        }
        i = i + 1;
    }
    assert(values@.take(i as int) =~= values@);
    r
}

/// The messages among documents read line by line (`None` for a line that
/// is not JSON).
pub fn messages_in_documents(docs: &Vec<Option<JsonValue>>) -> (r: Vec<(String, String)>)
    ensures
        pair_views(r@) == messages_of_documents(docs@),
{
    let mut r: Vec<(String, String)> = Vec::new();
    let mut i: usize = 0;
    assert(docs@.take(0) =~= Seq::<Option<JsonValue>>::empty());
    while i < docs.len()
        invariant
            i <= docs.len(),
            pair_views(r@) == messages_of_documents(docs@.take(i as int)),
        decreases docs.len() - i,
    {
        assert(docs@.take(i + 1).drop_last() =~= docs@.take(i as int));
        let ghost before = pair_views(r@);
        match &docs[i] {
            Some(v) => match message_of_value(v) {
                Some(m) => {
                    r.push(m);
                    assert(pair_views(r@) =~= before.push((m.0@, m.1@)));
                },
                None => {},
            },
            None => {},
        }
        i = i + 1;
    }
    assert(docs@.take(i as int) =~= docs@);
    r
}

/// The messages of a session file: `(role, content)` pairs.
pub fn parse_session(content: &str) -> (r: Vec<(String, String)>)
    ensures
        pair_views(r@) == session_messages(content@),
{
    match parse_json(content) {
        Some(JsonValue::Array(values)) => messages_in_array(&values),
        _ => messages_in_documents(&parse_documents(&text_lines(content))),
    }
}

/// The plan for the messages of a session file: a message whose content
/// has fewer than 20 bytes is skipped; any other becomes a session memory,
/// an `Events` one for the `user` role and a `Cases` one otherwise, from
/// source `import-session`, attached to the session of `ctx`.
pub open spec fn session_plan(msgs: Seq<(Seq<char>, Seq<char>)>, ctx: ImportContext) -> ImportPlanView
    decreases msgs.len(),
{
    if msgs.len() == 0 {
        empty_plan()
    } else {
        let p = session_plan(msgs.drop_last(), ctx);
        let (role, c) = msgs.last();
        if byte_len(c) < 20 {
            plan_skip(p)
        } else {
            plan_take(
                p,
                draft(
                    c,
                    if role == "user"@ {
                        Category::Events
                    } else {
                        Category::Cases
                    },
                    MemoryType::Session,
                    None,
                    "import-session"@,
                    ctx,
                    opt_view(ctx.session_id),
                ),
            )
        }
    }
}

/// The plan for the messages of a session file.
pub fn plan_session_messages(msgs: &Vec<(String, String)>, ctx: &ImportContext) -> (p: ImportPlan)
    ensures
        plan_accounts(p@),
        p@ == session_plan(pair_views(msgs@), *ctx),
{
    let mut p = ImportPlan { total_items: 0, skipped: 0, drafts: Vec::new() };
    let mut i: usize = 0;
    assert(pair_views(msgs@).take(0) =~= Seq::<(Seq<char>, Seq<char>)>::empty());
    assert(p@ =~= empty_plan());
    while i < msgs.len()
        invariant
            i <= msgs.len(),
            p.total_items == i,
            p.total_items == p.skipped + p.drafts.len(),
            p.skipped <= i,
            p@ == session_plan(pair_views(msgs@).take(i as int), *ctx),
        decreases msgs.len() - i,
    {
        assert(pair_views(msgs@).take(i + 1).drop_last() =~= pair_views(msgs@).take(i as int));
        let (role, c) = &msgs[i];
        if byte_len_exceeds(&chars_of(c.as_str()), 19) {
            let category = if same_text(role.as_str(), "user") {
                Category::Events
            } else {
                Category::Cases
            };
            let d = make_draft(
                c.clone(),
                category,
                MemoryType::Session,
                None,
                "import-session",
                ctx,
                clone_opt(&ctx.session_id),
            );
            let ghost before = p@;
            p.drafts.push(d);
            p.total_items = p.total_items + 1;
            assert(p@ =~= plan_take(before, d@));
        } else {
            p.skipped = p.skipped + 1;
            p.total_items = p.total_items + 1;
        }
        i = i + 1;
    }
    assert(pair_views(msgs@).take(i as int) =~= pair_views(msgs@));
    p
}

/// The trimmed pieces among `pieces` that have more than 20 bytes.
pub open spec fn long_paragraphs(pieces: Seq<Seq<char>>) -> Seq<Seq<char>>
    decreases pieces.len(),
{
    if pieces.len() == 0 {
        Seq::empty()
    } else {
        let rest = long_paragraphs(pieces.drop_last());
        let t = trim(pieces.last());
        if byte_len(t) > 20 {
            rest.push(t)
        } else {
            rest
        }
    }
}

/// The paragraphs of a markdown file: its pieces between blank lines,
/// trimmed, those of more than 20 bytes.
pub open spec fn markdown_paragraphs(content: Seq<char>) -> Seq<Seq<char>> {
    long_paragraphs(paragraph_pieces(content))
}

/// The paragraphs of a markdown file.
pub fn markdown_paragraphs_of(content: &str) -> (r: Vec<String>)
    ensures
        text_views(r@) == markdown_paragraphs(content@),
{
    let pieces = paragraph_pieces_of(&chars_of(content));
    let mut r: Vec<String> = Vec::new();
    let mut i: usize = 0;
    assert(views(pieces@).take(0) =~= Seq::<Seq<char>>::empty());
    while i < pieces.len()
        invariant
            i <= pieces.len(),
            views(pieces@) == paragraph_pieces(content@),
            text_views(r@) == long_paragraphs(views(pieces@).take(i as int)),
        decreases pieces.len() - i,
    {
        assert(views(pieces@).take(i + 1).drop_last() =~= views(pieces@).take(i as int));
        assert(views(pieces@).take(i + 1).last() == pieces@[i as int]@);
        let t = trimmed(&pieces[i]);
        if byte_len_exceeds(&t, 20) {
            let ghost before = text_views(r@);
            let para = string_of(t.as_slice());
            r.push(para);
            assert(text_views(r@) =~= before.push(t@));
        }
        i = i + 1;
    }
    assert(views(pieces@).take(i as int) =~= views(pieces@));
    r
}

/// The tags of a memory imported from markdown.
pub open spec fn markdown_tags() -> Seq<Seq<char>> {
    seq!["imported"@, "markdown"@]
}

/// The plan for the paragraphs of a markdown file: each becomes an
/// `Entities` insight tagged `imported` and `markdown`, from source
/// `import-markdown`.
pub open spec fn markdown_plan(paras: Seq<Seq<char>>, ctx: ImportContext) -> ImportPlanView
    decreases paras.len(),
{
    if paras.len() == 0 {
        empty_plan()
    } else {
        plan_take(
            markdown_plan(paras.drop_last(), ctx),
            draft(
                paras.last(),
                Category::Entities,
                MemoryType::Insight,
                Some(markdown_tags()),
                "import-markdown"@,
                ctx,
                None,
            ),
        )
    }
}

/// The plan for the paragraphs of a markdown file.
pub fn plan_markdown_paragraphs(paras: &Vec<String>, ctx: &ImportContext) -> (p: ImportPlan)
    ensures
        plan_accounts(p@),
        p@ == markdown_plan(text_views(paras@), *ctx),
        p.skipped == 0,
{
    let mut p = ImportPlan { total_items: 0, skipped: 0, drafts: Vec::new() };
    let mut i: usize = 0;
    assert(text_views(paras@).take(0) =~= Seq::<Seq<char>>::empty());
    assert(p@ =~= empty_plan());
    while i < paras.len()
        invariant
            i <= paras.len(),
            p.total_items == i,
            p.total_items == p.skipped + p.drafts.len(),
            p.skipped == 0,
            p@ == markdown_plan(text_views(paras@).take(i as int), *ctx),
        decreases paras.len() - i,
    {
        assert(text_views(paras@).take(i + 1).drop_last() =~= text_views(paras@).take(i as int));
        let tags = vec![String::from_str("imported"), String::from_str("markdown")];
        assert(text_views(tags@) =~= markdown_tags());
        let d = make_draft(
            paras[i].clone(),
            Category::Entities,
            MemoryType::Insight,
            Some(tags),
            "import-markdown",
            ctx,
            None,
        );
        let ghost before = p@;
        p.drafts.push(d);
        p.total_items = p.total_items + 1;
        assert(p@ =~= plan_take(before, d@));
        i = i + 1;
    }
    assert(text_views(paras@).take(i as int) =~= text_views(paras@));
    p
}

/// The lines among `ls` that are not blank.
pub open spec fn nonblank_lines(ls: Seq<Seq<char>>) -> Seq<Seq<char>>
    decreases ls.len(),
{
    if ls.len() == 0 {
        Seq::empty()
    } else {
        let rest = nonblank_lines(ls.drop_last());
        if trim(ls.last()).len() > 0 {
            rest.push(ls.last())
        } else {
            rest
        }
    }
}

/// The non-blank lines of a JSON-lines file.
pub fn nonblank_lines_of(content: &str) -> (r: Vec<String>)
    ensures
        text_views(r@) == nonblank_lines(lines(content@)),
{
    let ls = text_lines(content);
    let mut r: Vec<String> = Vec::new();
    let mut i: usize = 0;
    assert(text_views(ls@).take(0) =~= Seq::<Seq<char>>::empty());
    while i < ls.len()
        invariant
            i <= ls.len(),
            text_views(ls@) == lines(content@),
            text_views(r@) == nonblank_lines(text_views(ls@).take(i as int)),
        decreases ls.len() - i,
    {
        assert(text_views(ls@).take(i + 1).drop_last() =~= text_views(ls@).take(i as int));
        assert(text_views(ls@).take(i + 1).last() == ls@[i as int]@);
        let t = trimmed(&chars_of(ls[i].as_str()));
        if t.len() > 0 {
            let ghost before = text_views(r@);
            r.push(ls[i].clone());
            assert(text_views(r@) =~= before.push(ls@[i as int]@));
        }
        i = i + 1;
    }
    assert(text_views(ls@).take(i as int) =~= text_views(ls@));
    r
}

/// The plan for the documents read from the non-blank lines of a
/// JSON-lines file (`None` for a line that is not JSON): such a line, or
/// one whose `content` is missing or empty, is skipped; any other becomes
/// an `Entities` insight from source `import-jsonl`.
pub open spec fn jsonl_plan(docs: Seq<Option<JsonValue>>, ctx: ImportContext) -> ImportPlanView
    decreases docs.len(),
{
    if docs.len() == 0 {
        empty_plan()
    } else {
        let p = jsonl_plan(docs.drop_last(), ctx);
        match docs.last() {
            Some(v) => if item_content(v).len() == 0 {
                plan_skip(p)
            } else {
                plan_take(
                    p,
                    draft(
                        item_content(v),
                        Category::Entities,
                        MemoryType::Insight,
                        None,
                        "import-jsonl"@,
                        ctx,
                        None,
                    ),
                )
            },
            None => plan_skip(p),
        }
    }
}

/// The plan for the documents read from the lines of a JSON-lines file.
pub fn plan_jsonl_documents(docs: &Vec<Option<JsonValue>>, ctx: &ImportContext) -> (p: ImportPlan)
    ensures
        plan_accounts(p@),
        p@ == jsonl_plan(docs@, *ctx),
{
    let mut p = ImportPlan { total_items: 0, skipped: 0, drafts: Vec::new() };
    let mut i: usize = 0;
    assert(docs@.take(0) =~= Seq::<Option<JsonValue>>::empty());
    assert(p@ =~= empty_plan());
    while i < docs.len()
        invariant
            i <= docs.len(),
            p.total_items == i,
            p.total_items == p.skipped + p.drafts.len(),
            p.skipped <= i,
            p@ == jsonl_plan(docs@.take(i as int), *ctx),
        decreases docs.len() - i,
    {
        assert(docs@.take(i + 1).drop_last() =~= docs@.take(i as int));
        let ghost before = p@;
        match &docs[i] {
            Some(v) => match field_text(v, "content") {
                Some(c) if !c.as_str().is_empty() => {
                    let d = make_draft(
                        c.clone(),
                        Category::Entities,
                        MemoryType::Insight,
                        None,
                        "import-jsonl",
                        ctx,
                        None,
                    );
                    p.drafts.push(d);
                    p.total_items = p.total_items + 1;
                    assert(p@ =~= plan_take(before, d@));
                },
                _ => {
                    p.skipped = p.skipped + 1;
                    p.total_items = p.total_items + 1;
                },
            },
            None => {
                p.skipped = p.skipped + 1;
                p.total_items = p.total_items + 1;
            },
        }
        i = i + 1;
    }
    assert(docs@.take(i as int) =~= docs@);
    p
}

/// The message of the error for a file type that is not supported.
pub open spec fn unsupported_message(file_type: Seq<char>) -> Seq<char> {
    "unsupported file_type: "@ + file_type + ". Use: memory, session, markdown, jsonl"@
}

/// The plan for importing `content` as a file of type `file_type`, or the
/// message of the validation error it is refused with.
pub open spec fn import_plan(file_type: Seq<char>, content: Seq<char>, ctx: ImportContext) -> Result<
    ImportPlanView,
    Seq<char>,
> {
    if file_type == "memory"@ {
        match memory_items(json_parse(content)) {
            Some(items) => Ok(memory_plan(items, ctx)),
            None => Err(bad_memory_json_message()),
        }
    } else if file_type == "session"@ {
        Ok(session_plan(session_messages(content), ctx))
    } else if file_type == "markdown"@ {
        Ok(markdown_plan(markdown_paragraphs(content), ctx))
    } else if file_type == "jsonl"@ {
        Ok(jsonl_plan(parsed_documents(nonblank_lines(lines(content))), ctx))
    } else {
        Err(unsupported_message(file_type))
    }
}

/// Reads `content` as a file of type `file_type` (`memory`, `session`,
/// `markdown` or `jsonl`) into the memories to create.
pub fn plan_import(file_type: &str, content: &str, ctx: &ImportContext) -> (r: Result<
    ImportPlan,
    OmemError,
>)
    ensures
        match r {
            Ok(p) => import_plan(file_type@, content@, *ctx) == Ok::<_, Seq<char>>(p@)
                && plan_accounts(p@),
            Err(e) => e is Validation && import_plan(file_type@, content@, *ctx) == Err::<
                ImportPlanView,
                _,
            >(e.message()),
        },
{
    if same_text(file_type, "memory") {
        let items = parse_memory_json(content)?;
        Ok(plan_memory_items(&items, ctx))
    } else if same_text(file_type, "session") {
        Ok(plan_session_messages(&parse_session(content), ctx))
    } else if same_text(file_type, "markdown") {
        Ok(plan_markdown_paragraphs(&markdown_paragraphs_of(content), ctx))
    } else if same_text(file_type, "jsonl") {
        Ok(plan_jsonl_documents(&parse_documents(&nonblank_lines_of(content)), ctx))
    } else {
        Err(
            OmemError::Validation(
                join3("unsupported file_type: ", file_type, ". Use: memory, session, markdown, jsonl"),
            ),
        )
    }
}

/// Every item counted is either skipped or planned as a memory.
pub open spec fn plan_accounts(p: ImportPlanView) -> bool {
    p.total_items == p.skipped + p.drafts.len()
}

proof fn lemma_memory_plan_accounts(items: Seq<JsonValue>, ctx: ImportContext)
    ensures
        plan_accounts(memory_plan(items, ctx)),
    decreases items.len(),
{
    if items.len() > 0 {
        lemma_memory_plan_accounts(items.drop_last(), ctx);
    }
}

proof fn lemma_session_plan_accounts(msgs: Seq<(Seq<char>, Seq<char>)>, ctx: ImportContext)
    ensures
        plan_accounts(session_plan(msgs, ctx)),
    decreases msgs.len(),
{
    if msgs.len() > 0 {
        lemma_session_plan_accounts(msgs.drop_last(), ctx);
    }
}

proof fn lemma_markdown_plan_accounts(paras: Seq<Seq<char>>, ctx: ImportContext)
    ensures
        plan_accounts(markdown_plan(paras, ctx)),
        markdown_plan(paras, ctx).skipped == 0,
        markdown_plan(paras, ctx).total_items == paras.len(),
    decreases paras.len(),
{
    if paras.len() > 0 {
        lemma_markdown_plan_accounts(paras.drop_last(), ctx);
    }
}

proof fn lemma_jsonl_plan_accounts(docs: Seq<Option<JsonValue>>, ctx: ImportContext)
    ensures
        plan_accounts(jsonl_plan(docs, ctx)),
    decreases docs.len(),
{
    if docs.len() > 0 {
        lemma_jsonl_plan_accounts(docs.drop_last(), ctx);
    }
}

/// The items of a memory file: a text that is not JSON gives none; a
/// top-level array gives its elements; a document whose `memories` member
/// is an array gives that array's elements, whatever other members it has;
/// any other document is the one item.
pub proof fn lemma_memory_items_law(v: JsonValue)
    ensures
        memory_items(None) is None,
        v matches JsonValue::Array(items) ==> memory_items(Some(v)) == Some(items@),
        json_field(v, "memories"@) matches Some(JsonValue::Array(m)) ==> memory_items(Some(v))
            == Some(m@),
        !(v is Array) && !(json_field(v, "memories"@) matches Some(JsonValue::Array(_)))
            ==> memory_items(Some(v)) == Some(seq![v]),
{
}

/// Every memory planned from a memory file comes from one of its items,
/// in item order: an `Entities` insight from source `import`, outside any
/// session, with that item's non-empty content and its tags; an item is
/// counted once.
pub proof fn lemma_memory_plan_law(items: Seq<JsonValue>, ctx: ImportContext)
    ensures
        memory_plan(items, ctx).total_items == items.len(),
        memory_plan(items, ctx).drafts.len() <= items.len(),
        forall|i: int|
            0 <= i < memory_plan(items, ctx).drafts.len() ==> {
                let d = #[trigger] memory_plan(items, ctx).drafts[i];
                &&& d.content.len() > 0
                &&& d.category == Category::Entities
                &&& d.memory_type == MemoryType::Insight
                &&& d.source == "import"@
                &&& d.space_id == ctx.space_id@
                &&& d.owner_agent_id == opt_view(ctx.agent_id)
                &&& d.session_id is None
                &&& exists|j: int|
                    0 <= j < items.len() && d.content == item_content(#[trigger] items[j])
                        && d.tags == Some(item_tags(items[j]))
            },
    decreases items.len(),
{
    if items.len() > 0 {
        let rest = items.drop_last();
        lemma_memory_plan_law(rest, ctx);
        let p = memory_plan(rest, ctx);
        let q = memory_plan(items, ctx);
        assert forall|i: int| 0 <= i < q.drafts.len() implies {
            let d = #[trigger] q.drafts[i];
            &&& d.content.len() > 0
            &&& d.category == Category::Entities
            &&& d.memory_type == MemoryType::Insight
            &&& d.source == "import"@
            &&& d.space_id == ctx.space_id@
            &&& d.owner_agent_id == opt_view(ctx.agent_id)
            &&& d.session_id is None
            &&& exists|j: int|
                0 <= j < items.len() && d.content == item_content(#[trigger] items[j]) && d.tags
                    == Some(item_tags(items[j]))
        } by {
            if i < p.drafts.len() {
                assert(q.drafts[i] == p.drafts[i]);
                let j = choose|j: int|
                    0 <= j < rest.len() && p.drafts[i].content == item_content(#[trigger] rest[j])
                        && p.drafts[i].tags == Some(item_tags(rest[j]));
                assert(items[j] == rest[j]);
            } else {
                assert(items[items.len() - 1] == items.last());
            }
        }
    }
}

/// Every memory planned from a session file comes from one of its
/// messages, in order: a session memory from source `import-session` with
/// that message's content of at least 20 bytes, an `Events` one exactly
/// when the message's role is `user` and a `Cases` one otherwise, and,
/// whatever the role, attached to the session of `ctx`.
pub proof fn lemma_session_plan_law(msgs: Seq<(Seq<char>, Seq<char>)>, ctx: ImportContext)
    ensures
        session_plan(msgs, ctx).total_items == msgs.len(),
        forall|i: int|
            0 <= i < session_plan(msgs, ctx).drafts.len() ==> {
                let d = #[trigger] session_plan(msgs, ctx).drafts[i];
                &&& d.session_id == opt_view(ctx.session_id)
                &&& d.memory_type == MemoryType::Session
                &&& d.source == "import-session"@
                &&& d.tags is None
                &&& d.space_id == ctx.space_id@
                &&& d.owner_agent_id == opt_view(ctx.agent_id)
                &&& byte_len(d.content) >= 20
                &&& exists|j: int|
                    0 <= j < msgs.len() && d.content == (#[trigger] msgs[j]).1 && (d.category
                        == Category::Events) == (msgs[j].0 == "user"@) && (d.category
                        == Category::Events || d.category == Category::Cases)
            },
    decreases msgs.len(),
{
    if msgs.len() > 0 {
        let rest = msgs.drop_last();
        lemma_session_plan_law(rest, ctx);
        let p = session_plan(rest, ctx);
        let q = session_plan(msgs, ctx);
        assert forall|i: int| 0 <= i < q.drafts.len() implies {
            let d = #[trigger] q.drafts[i];
            &&& d.session_id == opt_view(ctx.session_id)
            &&& d.memory_type == MemoryType::Session
            &&& d.source == "import-session"@
            &&& d.tags is None
            &&& d.space_id == ctx.space_id@
            &&& d.owner_agent_id == opt_view(ctx.agent_id)
            &&& byte_len(d.content) >= 20
            &&& exists|j: int|
                0 <= j < msgs.len() && d.content == (#[trigger] msgs[j]).1 && (d.category
                    == Category::Events) == (msgs[j].0 == "user"@) && (d.category
                    == Category::Events || d.category == Category::Cases)
        } by {
            if i < p.drafts.len() {
                assert(q.drafts[i] == p.drafts[i]);
                let j = choose|j: int|
                    0 <= j < rest.len() && p.drafts[i].content == (#[trigger] rest[j]).1 && (
                    p.drafts[i].category == Category::Events) == (rest[j].0 == "user"@) && (
                    p.drafts[i].category == Category::Events || p.drafts[i].category
                        == Category::Cases);
                assert(msgs[j] == rest[j]);
            } else {
                assert(msgs[msgs.len() - 1] == msgs.last());
            }
        }
    }
}

/// Every paragraph of a markdown file is a trimmed piece between blank
/// lines, of more than 20 bytes and holding no blank line; every piece
/// whose trimmed text has more than 20 bytes is a paragraph; and the
/// paragraphs are those trimmed pieces, in the order of the file.
pub proof fn lemma_markdown_paragraphs_law(content: Seq<char>)
    ensures
        forall|i: int|
            0 <= i < markdown_paragraphs(content).len() ==> {
                let p = #[trigger] markdown_paragraphs(content)[i];
                &&& trim(p) == p
                &&& byte_len(p) > 20
                &&& !contains(p, blank_line())
                &&& exists|j: int|
                    0 <= j < paragraph_pieces(content).len() && p == trim(
                        #[trigger] paragraph_pieces(content)[j],
                    )
            },
        forall|j: int|
            0 <= j < paragraph_pieces(content).len() && byte_len(
                trim(#[trigger] paragraph_pieces(content)[j]),
            ) > 20 ==> markdown_paragraphs(content).contains(trim(paragraph_pieces(content)[j])),
        markdown_paragraphs(content) == paragraph_pieces(content).map_values(
            |p: Seq<char>| trim(p),
        ).filter(|t: Seq<char>| byte_len(t) > 20),
{
    lemma_paragraph_pieces_split(content);
    lemma_long_paragraphs_law(paragraph_pieces(content));
    lemma_long_paragraphs_in_order(paragraph_pieces(content));
}

proof fn lemma_long_paragraphs_in_order(pieces: Seq<Seq<char>>)
    ensures
        long_paragraphs(pieces) == pieces.map_values(|p: Seq<char>| trim(p)).filter(
            |t: Seq<char>| byte_len(t) > 20,
        ),
    decreases pieces.len(),
{
    let f = |p: Seq<char>| trim(p);
    let m = pieces.map_values(f);
    if pieces.len() > 0 {
        lemma_long_paragraphs_in_order(pieces.drop_last());
        assert(m.drop_last() =~= pieces.drop_last().map_values(f));
        assert(m.last() == trim(pieces.last()));
        reveal(Seq::filter);
    } else {
        assert(m =~= Seq::<Seq<char>>::empty());
    }
}

proof fn lemma_long_paragraphs_law(pieces: Seq<Seq<char>>)
    requires
        forall|j: int| 0 <= j < pieces.len() ==> !contains(#[trigger] pieces[j], blank_line()),
    ensures
        forall|i: int|
            0 <= i < long_paragraphs(pieces).len() ==> {
                let p = #[trigger] long_paragraphs(pieces)[i];
                &&& trim(p) == p
                &&& byte_len(p) > 20
                &&& !contains(p, blank_line())
                &&& exists|j: int| 0 <= j < pieces.len() && p == trim(#[trigger] pieces[j])
            },
        forall|j: int|
            0 <= j < pieces.len() && byte_len(trim(#[trigger] pieces[j])) > 20
                ==> long_paragraphs(pieces).contains(trim(pieces[j])),
    decreases pieces.len(),
{
    if pieces.len() > 0 {
        let rest = pieces.drop_last();
        lemma_long_paragraphs_law(rest);
        let t = trim(pieces.last());
        lemma_trim_idempotent(pieces.last());
        let (a, b) = lemma_trim_shape(pieces.last());
        if contains(t, blank_line()) {
            lemma_contains_subrange(pieces.last(), a as int, b as int, blank_line());
            assert(pieces[pieces.len() - 1] == pieces.last());
        }
        let r = long_paragraphs(rest);
        let q = long_paragraphs(pieces);
        assert forall|i: int| 0 <= i < q.len() implies {
            let p = #[trigger] q[i];
            &&& trim(p) == p
            &&& byte_len(p) > 20
            &&& !contains(p, blank_line())
            &&& exists|j: int| 0 <= j < pieces.len() && p == trim(#[trigger] pieces[j])
        } by {
            if i < r.len() {
                assert(q[i] == r[i]);
                let j = choose|j: int| 0 <= j < rest.len() && r[i] == trim(#[trigger] rest[j]);
                assert(pieces[j] == rest[j]);
            } else {
                assert(pieces[pieces.len() - 1] == pieces.last());
            }
        }
        assert forall|j: int|
            0 <= j < pieces.len() && byte_len(trim(#[trigger] pieces[j])) > 20 implies q.contains(
            trim(pieces[j]),
        ) by {
            if j < rest.len() {
                assert(pieces[j] == rest[j]);
                let k = choose|k: int| 0 <= k < r.len() && r[k] == trim(rest[j]);
                assert(q[k] == r[k]);
            } else {
                assert(pieces[j] == pieces.last());
                assert(q.last() == t);
            }
        }
    }
}

/// Every memory planned from a JSON-lines file comes from one of its
/// documents: an `Entities` insight from source `import-jsonl`, with that
/// document's non-empty content and no tags; a line is counted once.
pub proof fn lemma_jsonl_plan_law(docs: Seq<Option<JsonValue>>, ctx: ImportContext)
    ensures
        jsonl_plan(docs, ctx).total_items == docs.len(),
        forall|i: int|
            0 <= i < jsonl_plan(docs, ctx).drafts.len() ==> {
                let d = #[trigger] jsonl_plan(docs, ctx).drafts[i];
                &&& d.content.len() > 0
                &&& d.category == Category::Entities
                &&& d.memory_type == MemoryType::Insight
                &&& d.source == "import-jsonl"@
                &&& d.tags is None
                &&& d.session_id is None
                &&& exists|j: int|
                    0 <= j < docs.len() && (#[trigger] docs[j] matches Some(v) && d.content
                        == item_content(v))
            },
    decreases docs.len(),
{
    if docs.len() > 0 {
        let rest = docs.drop_last();
        lemma_jsonl_plan_law(rest, ctx);
        let p = jsonl_plan(rest, ctx);
        let q = jsonl_plan(docs, ctx);
        assert forall|i: int| 0 <= i < q.drafts.len() implies {
            let d = #[trigger] q.drafts[i];
            &&& d.content.len() > 0
            &&& d.category == Category::Entities
            &&& d.memory_type == MemoryType::Insight
            &&& d.source == "import-jsonl"@
            &&& d.tags is None
            &&& d.session_id is None
            &&& exists|j: int|
                0 <= j < docs.len() && (#[trigger] docs[j] matches Some(v) && d.content
                    == item_content(v))
        } by {
            if i < p.drafts.len() {
                assert(q.drafts[i] == p.drafts[i]);
                let j = choose|j: int|
                    0 <= j < rest.len() && (#[trigger] rest[j] matches Some(v)
                        && p.drafts[i].content == item_content(v));
                assert(docs[j] == rest[j]);
            } else {
                assert(docs[docs.len() - 1] == docs.last());
            }
        }
    }
}

/// Every item of an accepted file is counted once, and is either skipped
/// or planned as exactly one memory.
pub proof fn lemma_import_plan_accounts(file_type: Seq<char>, content: Seq<char>, ctx: ImportContext)
    ensures
        import_plan(file_type, content, ctx) matches Ok(p) ==> plan_accounts(p),
{
    match memory_items(json_parse(content)) {
        Some(items) => lemma_memory_plan_accounts(items, ctx),
        None => {},
    }
    lemma_session_plan_accounts(session_messages(content), ctx);
    lemma_markdown_plan_accounts(markdown_paragraphs(content), ctx);
    lemma_jsonl_plan_accounts(parsed_documents(nonblank_lines(lines(content))), ctx);
}

/// A `String` holding the UTF-8 text in `bytes`: `String::from_utf8`.
///
/// Trusted: `Some` exactly for valid UTF-8, holding the decoded characters.
#[verifier::external_body]
fn utf8_text(bytes: Vec<u8>) -> (r: Option<String>)
    ensures
        r is Some <==> vstd::utf8::valid_utf8(bytes@),
        r matches Some(s) ==> s@ == vstd::utf8::decode_utf8(bytes@),
{
    String::from_utf8(bytes).ok()
}

/// The text of an uploaded file: the upload must have a `file` part whose
/// bytes are valid UTF-8.
pub fn upload_text(file_data: Option<Vec<u8>>) -> (r: Result<String, OmemError>)
    ensures
        match file_data {
            None => r matches Err(e) && e is Validation && e.message() == "no 'file' field"@,
            Some(bytes) => if vstd::utf8::valid_utf8(bytes@) {
                r matches Ok(s) && s@ == vstd::utf8::decode_utf8(bytes@)
            } else {
                r matches Err(e) && e is Validation && e.message() == "not valid UTF-8"@
            },
        },
{
    match file_data {
        None => Err(OmemError::Validation(String::from_str("no 'file' field"))),
        Some(bytes) => match utf8_text(bytes) {
            Some(s) => Ok(s),
            None => Err(OmemError::Validation(String::from_str("not valid UTF-8"))),
        },
    }
}

/// The status of an import: `completed` without errors, `partial` with
/// errors and some memories created, `failed` otherwise.
pub open spec fn import_status(n_errors: nat, imported: nat) -> Seq<char> {
    if n_errors == 0 {
        "completed"@
    } else if imported > 0 {
        "partial"@
    } else {
        "failed"@
    }
}

/// The running count of an import while its planned memories are created.
pub struct ImportTally {
    id: String,
    created_at: String,
    total_items: usize,
    skipped: usize,
    planned: usize,
    imported: usize,
    errors: Vec<String>,
}

impl ImportTally {
    pub closed spec fn task_id(&self) -> Seq<char> {
        self.id@
    }

    pub closed spec fn started_at(&self) -> Seq<char> {
        self.created_at@
    }

    pub closed spec fn total(&self) -> nat {
        self.total_items as nat
    }

    pub closed spec fn skipped_count(&self) -> nat {
        self.skipped as nat
    }

    pub closed spec fn planned_count(&self) -> nat {
        self.planned as nat
    }

    pub closed spec fn imported_count(&self) -> nat {
        self.imported as nat
    }

    pub closed spec fn error_messages(&self) -> Seq<Seq<char>> {
        text_views(self.errors@)
    }

    /// Planned memories whose outcome is not recorded yet.
    pub open spec fn pending_count(&self) -> int {
        self.planned_count() - self.imported_count() - self.error_messages().len()
    }

    /// No more outcomes are recorded than memories were planned.
    #[verifier::type_invariant]
    spec fn outcomes_within_plan(&self) -> bool {
        &&& self.imported + self.errors@.len() <= self.planned
        &&& self.total_items == self.skipped + self.planned
    }

    /// Starts counting the import planned by `plan`, with a new task
    /// identifier and the current time.
    pub fn start(plan: &ImportPlan) -> (t: ImportTally)
        requires
            plan_accounts(plan@),
        ensures
            crate::ids::is_v4_uuid_text(t.task_id()),
            crate::ids::is_utc_rfc3339(t.started_at()),
            t.total() == plan.total_items,
            t.skipped_count() == plan.skipped,
            t.planned_count() == plan.drafts.len(),
            t.imported_count() == 0,
            t.error_messages() == Seq::<Seq<char>>::empty(),
    {
        let t = ImportTally {
            id: crate::ids::new_id(),
            created_at: crate::ids::now_rfc3339(),
            total_items: plan.total_items,
            skipped: plan.skipped,
            planned: plan.drafts.len(),
            imported: 0,
            errors: Vec::new(),
        };
        assert(t.error_messages() =~= Seq::<Seq<char>>::empty());
        t
    }

    /// Planned memories whose outcome is not recorded yet.
    pub fn pending(&self) -> (n: usize)
        ensures
            n == self.pending_count(),
    {
        proof {
            use_type_invariant(self);
        }
        self.planned - self.imported - self.errors.len()
    }

    /// Records that a planned memory was created.
    pub fn record_created(&mut self)
        requires
            old(self).pending_count() > 0,
        ensures
            final(self).pending_count() == old(self).pending_count() - 1,
            final(self).imported_count() == old(self).imported_count() + 1,
            final(self).error_messages() == old(self).error_messages(),
            final(self).total() == old(self).total(),
            final(self).skipped_count() == old(self).skipped_count(),
            final(self).planned_count() == old(self).planned_count(),
            final(self).task_id() == old(self).task_id(),
            final(self).started_at() == old(self).started_at(),
    {
        proof {
            use_type_invariant(&*self);
        }
        self.imported = self.imported + 1;
    }

    /// Records that a planned memory could not be created, for `reason`.
    pub fn record_failed(&mut self, reason: String)
        requires
            old(self).pending_count() > 0,
        ensures
            final(self).pending_count() == old(self).pending_count() - 1,
            final(self).imported_count() == old(self).imported_count(),
            final(self).error_messages() == old(self).error_messages().push(reason@),
            final(self).total() == old(self).total(),
            final(self).skipped_count() == old(self).skipped_count(),
            final(self).planned_count() == old(self).planned_count(),
            final(self).task_id() == old(self).task_id(),
            final(self).started_at() == old(self).started_at(),
    {
        proof {
            use_type_invariant(&*self);
        }
        let ghost before = self.errors@;
        let mut errors: Vec<String> = Vec::new();
        std::mem::swap(&mut errors, &mut self.errors);
        errors.push(reason);
        self.errors = errors;
        assert(text_views(self.errors@) =~= text_views(before).push(reason@));
    }

    /// The status the import has reached.
    pub fn status(&self) -> (r: &'static str)
        ensures
            r@ == import_status(self.error_messages().len(), self.imported_count()),
    {
        if self.errors.len() == 0 {
            "completed"
        } else if self.imported > 0 {
            "partial"
        } else {
            "failed"
        }
    }

    /// The report of the import, completed now.
    pub fn finish(
        self,
        file_type: String,
        filename: String,
        agent_id: Option<String>,
        session_id: Option<String>,
        space_id: String,
    ) -> (task: ImportTask)
        requires
            self.pending_count() == 0,
        ensures
            task.total_items == task.imported + task.skipped + task.errors.len(),
            (task.status@ == "completed"@) == (task.errors.len() == 0),
            (task.status@ == "partial"@) == (task.errors.len() != 0 && task.imported > 0),
            (task.status@ == "failed"@) == (task.errors.len() != 0 && task.imported == 0),
            task.id@ == self.task_id(),
            task.created_at@ == self.started_at(),
            task.status@ == import_status(self.error_messages().len(), self.imported_count()),
            task.file_type == file_type,
            task.filename == filename,
            task.agent_id == agent_id,
            task.session_id == session_id,
            task.space_id == space_id,
            task.total_items == self.total(),
            task.imported == self.imported_count(),
            task.skipped == self.skipped_count(),
            text_views(task.errors@) == self.error_messages(),
            task.completed_at matches Some(c) && crate::ids::is_utc_rfc3339(c@),
    {
        proof {
            use_type_invariant(&self);
            reveal_strlit("completed");
            reveal_strlit("partial");
            reveal_strlit("failed");
            assert("completed"@.len() == 9);
            assert("partial"@.len() == 7);
            assert("failed"@.len() == 6);
            assert(self.error_messages().len() == self.errors@.len());
        }
        let status = String::from_str(self.status());
        ImportTask {
            id: self.id,
            status,
            file_type,
            filename,
            agent_id,
            session_id,
            space_id,
            total_items: self.total_items,
            imported: self.imported,
            skipped: self.skipped,
            errors: self.errors,
            created_at: self.created_at,
            completed_at: Some(crate::ids::now_rfc3339()),
        }
    }
}

/// The report of an import task.
#[derive(Debug)]
pub struct ImportTask {
    pub id: String,
    pub status: String,
    pub file_type: String,
    pub filename: String,
    pub agent_id: Option<String>,
    pub session_id: Option<String>,
    pub space_id: String,
    pub total_items: usize,
    pub imported: usize,
    pub skipped: usize,
    pub errors: Vec<String>,
    pub created_at: String,
    pub completed_at: Option<String>,
}

/// Query of the import list.
#[derive(Debug, Clone, Copy, PartialEq, Eq)]
pub struct ListImportsQuery {
    pub limit: usize,
}

/// The number of imports listed when the query gives no limit.
pub fn default_import_limit() -> (n: usize)
    ensures
        n == 50,
{
    50
}

/// The error answered for an import task that is asked for by `id`: no
/// import task is kept after its request.
pub fn import_not_found(id: &str) -> (e: OmemError)
    ensures
        e is NotFound,
        e.message() == "import task "@ + id@,
{
    OmemError::NotFound(join("import task ", id))
}

} // verus!
