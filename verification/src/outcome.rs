//! What a tool call answers, in the shapes the front ends read.
//!
//! [`CallToolResult`] holds what the protocol's result of a tool call holds.
//! [`ToolOutcome`] is what the command line makes of it: the text is the text of
//! the content blocks and not a second rendering that happens to agree.

use vstd::prelude::*;

use crate::json;
use crate::json::{to_compact, Fields, Json, JsonValue};
use crate::render;
use crate::render::{pretty, render};
use crate::text;
use crate::text::join;
use crate::tool;

verus! {

/// A block of content.
#[derive(Debug, PartialEq)]
pub enum ContentBlock {
    /// Text, with the annotations and metadata that came with it.
    Text { text: String, extra: Fields },
    /// Any other block, as the fields it has on the wire.
    Other(Fields),
}

/// The result of a tool call.
#[derive(Debug, PartialEq)]
pub struct CallToolResult {
    pub result_type: Option<String>,
    pub content: Vec<ContentBlock>,
    pub structured_content: Option<JsonValue>,
    pub is_error: Option<bool>,
    pub meta: Option<Fields>,
}

/// What a [`ContentBlock`] holds.
pub enum BlockView {
    Text { text: Seq<char>, extra: Seq<(Seq<char>, Json)> },
    Other(Seq<(Seq<char>, Json)>),
}

/// What a [`CallToolResult`] holds.
pub struct ResultView {
    pub result_type: Option<Seq<char>>,
    pub content: Seq<BlockView>,
    pub structured_content: Option<Json>,
    pub is_error: Option<bool>,
    pub meta: Option<Seq<(Seq<char>, Json)>>,
}

/// The protocol's code for parameters that are no use.
pub const INVALID_PARAMS: i64 = -32602;

/// The protocol's code for a failure inside the server.
pub const INTERNAL_ERROR: i64 = -32603;

/// An error on the protocol level.
#[derive(Debug, PartialEq)]
pub struct ErrorData {
    pub code: i64,
    pub message: String,
    pub data: Option<JsonValue>,
}

/// What an [`ErrorData`] holds.
pub struct ErrorView {
    pub code: int,
    pub message: Seq<char>,
    pub data: Option<Json>,
}

/// What an optional document means.
pub open spec fn opt_json(doc: Option<JsonValue>) -> Option<Json> {
    match doc {
        Some(value) => Some(value.json()),
        None => None,
    }
}

impl View for ContentBlock {
    type V = BlockView;

    open spec fn view(&self) -> BlockView {
        match self {
            ContentBlock::Text { text, extra } => BlockView::Text {
                text: text@,
                extra: extra.fields(),
            },
            ContentBlock::Other(fields) => BlockView::Other(fields.fields()),
        }
    }
}

/// What a list of blocks holds.
pub open spec fn blocks(list: Seq<ContentBlock>) -> Seq<BlockView> {
    Seq::new(list.len(), |i: int| list[i]@)
}

impl View for CallToolResult {
    type V = ResultView;

    open spec fn view(&self) -> ResultView {
        ResultView {
            result_type: tool::opt_text(self.result_type),
            content: blocks(self.content@),
            structured_content: opt_json(self.structured_content),
            is_error: self.is_error,
            meta: tool::opt_fields(self.meta),
        }
    }
}

impl View for ErrorData {
    type V = ErrorView;

    open spec fn view(&self) -> ErrorView {
        ErrorView {
            code: self.code as int,
            message: self.message@,
            data: opt_json(self.data),
        }
    }
}

/// A plain block of text.
pub open spec fn text_block(text: Seq<char>) -> BlockView {
    BlockView::Text { text, extra: Seq::empty() }
}

impl ContentBlock {
    pub fn text(text: String) -> (res: ContentBlock)
        ensures
            res@ == text_block(text@),
    {
        ContentBlock::Text { text, extra: Fields::new() }
    }

    pub fn as_text(&self) -> (res: Option<&str>)
        ensures
            match res {
                Some(text) => self@ is Text && self@->Text_text == text@,
                None => self@ is Other,
            },
    {
        match self {
            ContentBlock::Text { text, extra } => Some(text.as_str()),
            ContentBlock::Other(_) => None,
        }
    }
}

impl ErrorData {
    pub fn invalid_params(message: String, data: Option<JsonValue>) -> (res: ErrorData)
        ensures
            res@ == (ErrorView {
                code: INVALID_PARAMS as int,
                message: message@,
                data: opt_json(data),
            }),
    {
        ErrorData { code: INVALID_PARAMS, message, data }
    }

    pub fn internal_error(message: String, data: Option<JsonValue>) -> (res: ErrorData)
        ensures
            res@ == (ErrorView {
                code: INTERNAL_ERROR as int,
                message: message@,
                data: opt_json(data),
            }),
    {
        ErrorData { code: INTERNAL_ERROR, message, data }
    }
}

/// A result of a call that succeeded.
pub open spec fn success_view(content: Seq<BlockView>) -> ResultView {
    ResultView {
        result_type: Some("complete"@),
        content,
        structured_content: None,
        is_error: Some(false),
        meta: None,
    }
}

impl CallToolResult {
    /// A successful result with content and no structured payload.
    pub fn success(content: Vec<ContentBlock>) -> (res: CallToolResult)
        ensures
            res@ == success_view(blocks(content@)),
    {
        CallToolResult {
            result_type: Some("complete".to_owned()),
            content,
            structured_content: None,
            is_error: Some(false),
            meta: None,
        }
    }

    /// A successful result with a structured payload, which is its text too.
    pub fn structured(value: JsonValue) -> (res: CallToolResult)
        ensures
            res@ == (ResultView {
                content: seq![text_block(json::compact_text(value.json()))],
                structured_content: Some(value.json()),
                ..success_view(Seq::empty())
            }),
    {
        let shown = to_compact(&value);
        let mut content: Vec<ContentBlock> = Vec::new();
        content.push(ContentBlock::text(shown));
        let res = CallToolResult {
            result_type: Some("complete".to_owned()),
            content,
            structured_content: Some(value),
            is_error: Some(false),
            meta: None,
        };
        assert(res@.content =~= seq![text_block(json::compact_text(value.json()))]);
        res
    }
}

// ---------------------------------------------------------------------------
// The wire
// ---------------------------------------------------------------------------

/// A block as it stands on the wire.
pub open spec fn block_json(block: BlockView) -> Json {
    match block {
        BlockView::Text { text, extra } => Json::Object(
            json::with_field(
                json::with_field(extra, "text"@, Json::Text(text)),
                "type"@,
                Json::Text("text"@),
            ),
        ),
        BlockView::Other(fields) => Json::Object(fields),
    }
}

/// An object with one field set where there is a value for it.
pub open spec fn with_some(
    fields: Seq<(Seq<char>, Json)>,
    key: Seq<char>,
    value: Option<Json>,
) -> Seq<(Seq<char>, Json)> {
    match value {
        Some(value) => json::with_field(fields, key, value),
        None => fields,
    }
}

/// A result as it stands on the wire: what is absent is left out.
pub open spec fn result_fields(result: ResultView) -> Seq<(Seq<char>, Json)> {
    let none = Seq::<(Seq<char>, Json)>::empty();
    let content = json::with_field(
        none,
        "content"@,
        Json::List(result.content.map_values(|block: BlockView| block_json(block))),
    );
    let structured = with_some(content, "structuredContent"@, result.structured_content);
    let error = with_some(
        structured,
        "isError"@,
        match result.is_error {
            Some(b) => Some(Json::Bool(b)),
            None => None,
        },
    );
    let meta = with_some(
        error,
        "_meta"@,
        match result.meta {
            Some(fields) => Some(Json::Object(fields)),
            None => None,
        },
    );
    with_some(
        meta,
        "resultType"@,
        match result.result_type {
            Some(kind) => Some(Json::Text(kind)),
            None => None,
        },
    )
}

fn block_value(block: &ContentBlock) -> (res: JsonValue)
    ensures
        res.json() == block_json(block@),
{
    match block {
        ContentBlock::Text { text, extra } => {
            let mut fields = extra.clone();
            fields.insert("text".to_owned(), JsonValue::Text(text.clone()));
            fields.insert("type".to_owned(), JsonValue::Text("text".to_owned()));
            JsonValue::Object(fields)
        },
        ContentBlock::Other(fields) => JsonValue::Object(fields.clone()),
    }
}

/// A result as it stands on the wire.
///
/// A tool that reports failure did run, so what it answered is kept whole, and a
/// client can tell it from a fault of the transport.
pub fn call_tool_result_to_value(result: &CallToolResult) -> (res: JsonValue)
    ensures
        res.json() == Json::Object(result_fields(result@)),
{
    let ghost all = result@.content.map_values(|block: BlockView| block_json(block));
    let mut list: Vec<JsonValue> = Vec::new();
    let mut i: usize = 0;
    while i < result.content.len()
        invariant
            i <= result.content.len(),
            all == result@.content.map_values(|block: BlockView| block_json(block)),
            json::jsons(list@) == all.take(i as int),
        decreases result.content.len() - i,
    {
        let ghost former = list@;
        assert(result@.content[i as int] == result.content@[i as int]@);
        list.push(block_value(&result.content[i]));
        assert(json::jsons(list@) =~= json::jsons(former).push(all[i as int]));
        assert(all.take(i + 1) =~= all.take(i as int).push(all[i as int]));
        i += 1;
    }
    assert(all.take(all.len() as int) =~= all);
    proof {
        JsonValue::list_json(list);
    }
    let mut fields = Fields::new();
    fields.insert("content".to_owned(), JsonValue::List(list));
    if let Some(value) = &result.structured_content {
        fields.insert("structuredContent".to_owned(), value.clone());
    }
    if let Some(b) = result.is_error {
        fields.insert("isError".to_owned(), JsonValue::Bool(b));
    }
    if let Some(meta) = &result.meta {
        fields.insert("_meta".to_owned(), JsonValue::Object(meta.clone()));
    }
    if let Some(kind) = &result.result_type {
        fields.insert("resultType".to_owned(), JsonValue::Text(kind.clone()));
    }
    JsonValue::Object(fields)
}

// ---------------------------------------------------------------------------
// Responses
// ---------------------------------------------------------------------------

/// The state a protocol task is in.
#[derive(Debug, Clone, Copy, PartialEq, Eq, Structural)]
pub enum ProtocolStatus {
    Working,
    InputRequired,
    Completed,
    Failed,
    Cancelled,
}

/// A task as the protocol describes it.
#[derive(Debug, PartialEq)]
pub struct Task {
    pub task_id: String,
    pub status: ProtocolStatus,
    pub status_message: Option<String>,
    pub created_at: String,
    pub last_updated_at: String,
    pub ttl_ms: Option<u64>,
    pub poll_interval_ms: Option<u64>,
}

/// What a [`Task`] says.
pub struct TaskView {
    pub task_id: Seq<char>,
    pub status: ProtocolStatus,
    pub status_message: Option<Seq<char>>,
    pub created_at: Seq<char>,
    pub last_updated_at: Seq<char>,
    pub ttl_ms: Option<u64>,
    pub poll_interval_ms: Option<u64>,
}

impl View for Task {
    type V = TaskView;

    open spec fn view(&self) -> TaskView {
        TaskView {
            task_id: self.task_id@,
            status: self.status,
            status_message: tool::opt_text(self.status_message),
            created_at: self.created_at@,
            last_updated_at: self.last_updated_at@,
            ttl_ms: self.ttl_ms,
            poll_interval_ms: self.poll_interval_ms,
        }
    }
}

/// What a server answers to a tool call.
#[derive(Debug, PartialEq)]
pub enum CallToolResponse {
    Complete(CallToolResult),
    /// The server wants input first; what it asks for is kept as it came.
    InputRequired(JsonValue),
    /// The server made a task of the call.
    Task(Task),
    /// An answer of a kind that is not known here, as a debugger would print it.
    Unknown(String),
}

/// One tool call's answer, in the shape the command line consumes.
#[derive(Debug)]
pub struct ToolOutcome {
    /// The text content blocks, one to a line.
    pub text: String,
    /// The structured payload, where the tool published one.
    pub structured: Option<JsonValue>,
    /// The tool ran and reported failure.
    pub is_error: bool,
}

/// The texts of the text blocks.
pub open spec fn block_texts(content: Seq<BlockView>) -> Seq<Seq<char>>
    decreases content.len(),
{
    if content.len() == 0 {
        Seq::empty()
    } else {
        let before = block_texts(content.drop_last());
        match content.last() {
            BlockView::Text { text, .. } => before.push(text),
            BlockView::Other(_) => before,
        }
    }
}

/// What the command line says of a response it cannot show.
pub open spec fn unshowable(response: CallToolResponse) -> Option<Seq<char>> {
    match response {
        CallToolResponse::Complete(_) => None,
        CallToolResponse::InputRequired(_) => Some(
            "this tool requires interactive input (elicitation), which the CLI cannot answer; call it from an MCP client"@,
        ),
        CallToolResponse::Task(_) => Some(
            "this tool returned a background task handle, which the CLI cannot poll; call it from an MCP client"@,
        ),
        CallToolResponse::Unknown(shown) => Some(
            "the CLI cannot render this tool response: "@ + shown@,
        ),
    }
}

impl ToolOutcome {
    /// Whether an outcome is what the command line reads in a result.
    pub open spec fn reads(&self, result: ResultView) -> bool {
        &&& self.text@ == text::joined(block_texts(result.content), "\n"@)
        &&& opt_json(self.structured) == result.structured_content
        &&& self.is_error == (result.is_error == Some(true))
    }

    /// Reads an outcome out of whatever the tool returned.
    ///
    /// What has no form on the command line is reported rather than flattened:
    /// an elicitation it cannot answer, or a task handle it cannot poll, would
    /// otherwise print as an empty success.
    pub fn from_response(response: CallToolResponse) -> (res: Result<Self, ErrorData>)
        ensures
            match res {
                Ok(outcome) => match response {
                    CallToolResponse::Complete(result) => outcome.reads(result@),
                    _ => false,
                },
                Err(error) => match unshowable(response) {
                    Some(message) => error@ == (ErrorView {
                        code: INTERNAL_ERROR as int,
                        message,
                        data: None,
                    }),
                    None => false,
                },
            },
    {
        match response {
            CallToolResponse::Complete(result) => Ok(ToolOutcome::from_result(result)),
            CallToolResponse::InputRequired(_) => Err(
                ErrorData::internal_error(
                    "this tool requires interactive input (elicitation), which the CLI cannot answer; call it from an MCP client".to_owned(),
                    None,
                ),
            ),
            CallToolResponse::Task(_) => Err(
                ErrorData::internal_error(
                    "this tool returned a background task handle, which the CLI cannot poll; call it from an MCP client".to_owned(),
                    None,
                ),
            ),
            CallToolResponse::Unknown(shown) => {
                let mut message = "the CLI cannot render this tool response: ".to_owned();
                message.append(shown.as_str());
                Err(ErrorData::internal_error(message, None))
            },
        }
    }

    pub fn from_result(result: CallToolResult) -> (res: Self)
        ensures
            res.reads(result@),
    {
        let ghost all = blocks(result.content@);
        let mut lines: Vec<String> = Vec::new();
        let mut i: usize = 0;
        assert(text::texts(lines@) =~= block_texts(all.take(0)));
        while i < result.content.len()
            invariant
                i <= result.content.len(),
                all == blocks(result.content@),
                text::texts(lines@) == block_texts(all.take(i as int)),
            decreases result.content.len() - i,
        {
            let ghost former = lines@;
            assert(all.take(i + 1).drop_last() =~= all.take(i as int));
            assert(all.take(i + 1).last() == result.content@[i as int]@);
            if let Some(line) = result.content[i].as_text() {
                lines.push(line.to_owned());
                assert(text::texts(lines@) =~= text::texts(former).push(line@));
            }
            i += 1;
        }
        assert(all.take(all.len() as int) =~= all);
        ToolOutcome {
            text: join(lines.as_slice(), "\n"),
            structured: result.structured_content,
            is_error: match result.is_error {
                Some(b) => b,
                None => false,
            },
        }
    }

    /// What `--json` prints: the structured payload, or the text of a tool that
    /// published none.
    pub fn json_text(&self) -> (res: String)
        ensures
            res@ == (match self.structured {
                Some(value) => json::pretty_text(value.json()),
                None => self.text@,
            }),
    {
        match &self.structured {
            Some(value) => pretty(value),
            None => self.text.clone(),
        }
    }
}

/// A tool result that ships both a typed payload and a readable text.
#[derive(Debug)]
pub struct Rendered<T>(pub T);

impl Rendered<JsonValue> {
    /// The structured payload, with the text the command line would print as the
    /// content.
    pub fn into_call_tool_result(self) -> (res: CallToolResponse)
        ensures
            match res {
                CallToolResponse::Complete(result) => result@ == (ResultView {
                    content: seq![text_block(render::rendered(self.0.json()))],
                    structured_content: Some(self.0.json()),
                    ..success_view(Seq::empty())
                }),
                _ => false,
            },
    {
        let shown = render(&self.0);
        let mut result = CallToolResult::structured(self.0);
        let mut content: Vec<ContentBlock> = Vec::new();
        content.push(ContentBlock::text(shown));
        result.content = content;
        assert(result@.content =~= seq![text_block(render::rendered(self.0.json()))]);
        CallToolResponse::Complete(result)
    }
}

/// The two front ends agree: what the command line shows of a rendered payload
/// is the very text that the protocol carries.
pub proof fn front_ends_agree(result: ResultView, shown: Seq<char>)
    requires
        result.content == seq![text_block(shown)],
    ensures
        text::joined(block_texts(result.content), "\n"@) == shown,
{
    let content = result.content;
    assert(content.drop_last() =~= Seq::empty());
    assert(block_texts(content.drop_last()) =~= Seq::empty());
    assert(block_texts(content) =~= seq![shown]);
}

impl Clone for ContentBlock {
    fn clone(&self) -> (res: Self)
        ensures
            res@ == self@,
    {
        match self {
            ContentBlock::Text { text, extra } => ContentBlock::Text {
                text: text.clone(),
                extra: extra.clone(),
            },
            ContentBlock::Other(fields) => ContentBlock::Other(fields.clone()),
        }
    }
}

} // verus!
