//! What holds of every answer to a tool call, whichever front end reads it.

use vstd::prelude::*;

use crate::json;
use crate::json::Json;
use crate::outcome;
use crate::outcome::{BlockView, ResultView, ToolOutcome};
use crate::text;

verus! {

/// The text of a block.
pub open spec fn line_of(block: BlockView) -> Option<Seq<char>> {
    match block {
        BlockView::Text { text, .. } => Some(text),
        BlockView::Other(_) => None,
    }
}

proof fn texts_of_texts(content: Seq<BlockView>, lines: Seq<Seq<char>>)
    requires
        content.len() == lines.len(),
        forall|i: int|
            0 <= i < content.len() ==> line_of(#[trigger] content[i]) == Some(lines[i]),
    ensures
        outcome::block_texts(content) == lines,
    decreases content.len(),
{
    if content.len() == 0 {
        assert(lines =~= Seq::empty());
    } else {
        let less = content.drop_last();
        assert forall|i: int| 0 <= i < less.len() implies line_of(#[trigger] less[i]) == Some(
            lines.drop_last()[i],
        ) by {
            assert(less[i] == content[i]);
        }
        texts_of_texts(less, lines.drop_last());
        assert(line_of(content[content.len() - 1]) == Some(lines.last()));
        assert(lines.drop_last().push(lines.last()) =~= lines);
    }
}

/// The command line shows the text blocks of an answer one to a line, in order; it
/// carries the structured payload as it is, and reports failure exactly where the tool
/// did.
pub proof fn answers_are_shown_by_line(
    shown: ToolOutcome,
    result: ResultView,
    lines: Seq<Seq<char>>,
)
    requires
        shown.reads(result),
        lines.len() > 0,
        lines.len() == result.content.len(),
        forall|i: int|
            0 <= i < lines.len() ==> line_of(#[trigger] result.content[i]) == Some(lines[i])
                && !lines[i].contains('\n'),
    ensures
        text::pieces(shown.text@, '\n') == lines,
        outcome::opt_json(shown.structured) == result.structured_content,
        shown.is_error <==> result.is_error == Some(true),
{
    texts_of_texts(result.content, lines);
    assert forall|i: int| 0 <= i < lines.len() implies !(#[trigger] lines[i]).contains('\n') by {
        assert(line_of(result.content[i]) == Some(lines[i]));
    }
    assert("\n"@ =~= seq!['\n']) by {
        reveal_strlit("\n");
    }
    text::pieces_of_joined(lines, '\n');
}

/// A block that is no text shows nothing, and leaves the others as they were.
pub proof fn other_blocks_show_nothing(
    before: Seq<BlockView>,
    block: BlockView,
    after: Seq<BlockView>,
)
    requires
        block is Other,
    ensures
        outcome::block_texts(before.push(block) + after) == outcome::block_texts(before + after),
    decreases after.len(),
{
    if after.len() == 0 {
        assert(before.push(block) + after =~= before.push(block));
        assert(before.push(block).drop_last() =~= before);
        assert(before + after =~= before);
    } else {
        other_blocks_show_nothing(before, block, after.drop_last());
        assert((before.push(block) + after).drop_last() =~= before.push(block)
            + after.drop_last());
        assert((before + after).drop_last() =~= before + after.drop_last());
    }
}

/// What a name on the wire stands for in a result.
pub open spec fn on_the_wire(result: ResultView, name: Seq<char>) -> Option<Json> {
    if name == "content"@ {
        Some(Json::List(result.content.map_values(|b: BlockView| outcome::block_json(b))))
    } else if name == "structuredContent"@ {
        result.structured_content
    } else if name == "isError"@ {
        match result.is_error {
            Some(b) => Some(Json::Bool(b)),
            None => None,
        }
    } else if name == "_meta"@ {
        match result.meta {
            Some(fields) => Some(Json::Object(fields)),
            None => None,
        }
    } else if name == "resultType"@ {
        match result.result_type {
            Some(kind) => Some(Json::Text(kind)),
            None => None,
        }
    } else {
        None
    }
}

proof fn setting_some(
    fields: Seq<(Seq<char>, Json)>,
    key: Seq<char>,
    value: Option<Json>,
    name: Seq<char>,
)
    ensures
        json::field(outcome::with_some(fields, key, value), name) == (if name == key
            && value is Some {
            value
        } else {
            json::field(fields, name)
        }),
{
    if let Some(value) = value {
        json::set_field(fields, key, value, name);
    }
}

/// A result stands on the wire under the names of the protocol, with what is absent
/// left out and nothing added.
pub proof fn results_keep_their_fields(result: ResultView, name: Seq<char>)
    ensures
        json::field(outcome::result_fields(result), name) == on_the_wire(result, name),
{
    reveal_strlit("content");
    reveal_strlit("structuredContent");
    reveal_strlit("isError");
    reveal_strlit("resultType");
    reveal_strlit("_meta");
    assert("content"@[0] == 'c' && "isError"@[0] == 'i' && "resultType"@[0] == 'r'
        && "structuredContent"@[0] == 's' && "_meta"@[0] == '_');
    let none = Seq::<(Seq<char>, Json)>::empty();
    let list = Json::List(result.content.map_values(|b: BlockView| outcome::block_json(b)));
    let content = json::with_field(none, "content"@, list);
    json::set_field(none, "content"@, list, name);
    json::not_found(none, name);
    let structured = outcome::with_some(content, "structuredContent"@, result.structured_content);
    setting_some(content, "structuredContent"@, result.structured_content, name);
    let said = match result.is_error {
        Some(b) => Some(Json::Bool(b)),
        None => None,
    };
    let error = outcome::with_some(structured, "isError"@, said);
    setting_some(structured, "isError"@, said, name);
    let extra = match result.meta {
        Some(fields) => Some(Json::Object(fields)),
        None => None,
    };
    let meta = outcome::with_some(error, "_meta"@, extra);
    setting_some(error, "_meta"@, extra, name);
    setting_some(
        meta,
        "resultType"@,
        match result.result_type {
            Some(kind) => Some(Json::Text(kind)),
            None => None,
        },
        name,
    );
}

/// A text block stands on the wire as a block of type `text` with its text, beside
/// what came with it; any other block stands there as it came.
pub proof fn blocks_keep_their_fields(block: BlockView, name: Seq<char>)
    ensures
        match block {
            BlockView::Text { text, extra } => outcome::block_json(block).get(name) == (if name
                == "type"@ {
                Some(Json::Text("text"@))
            } else if name == "text"@ {
                Some(Json::Text(text))
            } else {
                json::field(extra, name)
            }),
            BlockView::Other(fields) => outcome::block_json(block) == Json::Object(fields),
        },
{
    if let BlockView::Text { text, extra } = block {
        json::set_field(extra, "text"@, Json::Text(text), name);
        let inner = json::with_field(extra, "text"@, Json::Text(text));
        json::set_field(inner, "type"@, Json::Text("text"@), name);
        reveal_strlit("text");
        reveal_strlit("type");
        assert("text"@[1] == 'e' && "type"@[1] == 'y');
    }
}

/// A successful result is complete and no error.
pub proof fn success_is_no_error(content: Seq<BlockView>)
    ensures
        outcome::success_view(content).is_error == Some(false),
        outcome::success_view(content).content == content,
        outcome::success_view(content).structured_content is None,
        outcome::success_view(content).meta is None,
        outcome::success_view(content).result_type == Some("complete"@),
{
}

} // verus!
