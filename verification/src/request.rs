//! Requests: from the Responses API to the Chat Completions API.

use crate::codec::{display, parse_slice, to_vec};
#[allow(unused_imports)]
use crate::codec::{
    is_line_of, json_bytes, json_text, lemma_member_reads_back, lemma_with_reads_back, parsed_slice, parsed_str,
    reads_back, NESTING_LIMIT,
};
#[allow(unused_imports)]
use crate::error::TranslateFailure;
use crate::error::{TranslateContext, TranslateError};
use crate::json::Json;
#[allow(unused_imports)]
use crate::json::{lemma_trees_index, lemma_trees_len, lemma_trees_push, tree_view, trees, Tree};
#[allow(unused_imports)]
use crate::text::{join_texts, joined, or_default, same_text, texts_view};
use vstd::prelude::*;

verus! {

/// The model that a request without one is sent to.
pub const DEFAULT_CHAT_MODEL: &'static str = "gpt-4o-mini";

/// The name of a function call that has none.
pub const DEFAULT_FUNCTION_NAME: &'static str = "tool_call";

/// A request as the upstream takes it.
pub struct MappedRequestBody {
    pub body: Vec<u8>,
    pub stream: bool,
}

/// A part of a message that a chat can show.
pub enum Part {
    Text(Seq<char>),
    Image(Seq<char>),
}

/// What an item of a message's content is in a chat.
pub open spec fn content_part(item: Tree) -> Option<Part> {
    match item.text_at("type"@) {
        Some(kind) => if kind == "input_text"@ || kind == "output_text"@ {
            match item.text_at("text"@) {
                Some(text) => Some(Part::Text(text)),
                None => None,
            }
        } else if kind == "input_image"@ {
            match item.text_at("image_url"@) {
                Some(url) => Some(Part::Image(url)),
                None => None,
            }
        } else {
            None
        },
        None => None,
    }
}

/// The parts that a chat can show, in their order.
pub open spec fn content_parts(items: Seq<Tree>) -> Seq<Part>
    decreases items.len(),
{
    if items.len() == 0 {
        Seq::empty()
    } else {
        match content_part(items.last()) {
            Some(part) => content_parts(items.drop_last()).push(part),
            None => content_parts(items.drop_last()),
        }
    }
}

/// A part as a chat request writes it.
pub open spec fn part_tree(part: Part) -> Tree {
    match part {
        Part::Text(text) => Tree::object().with("type"@, Tree::Text("text"@)).with(
            "text"@,
            Tree::Text(text),
        ),
        Part::Image(url) => Tree::object().with("type"@, Tree::Text("image_url"@)).with(
            "image_url"@,
            Tree::object().with("url"@, Tree::Text(url)),
        ),
    }
}

/// The content of a chat message: a single text stands alone, anything else is a list of parts.
pub open spec fn chat_content(content: Option<Tree>) -> Tree {
    match content {
        Some(Tree::List(items)) => {
            let parts = content_parts(items);
            if parts.len() == 0 {
                Tree::Text(Seq::empty())
            } else if parts.len() == 1 && parts[0] is Text {
                Tree::Text(parts[0]->Text_0)
            } else {
                Tree::List(parts.map_values(|part: Part| part_tree(part)))
            }
        },
        _ => Tree::Text(Seq::empty()),
    }
}

/// The texts of the items that have one, in their order.
pub open spec fn item_texts(items: Seq<Tree>) -> Seq<Seq<char>>
    decreases items.len(),
{
    if items.len() == 0 {
        Seq::empty()
    } else {
        match items.last().text_at("text"@) {
            Some(text) => item_texts(items.drop_last()).push(text),
            None => item_texts(items.drop_last()),
        }
    }
}

/// The output of a function call as text: a text as it is, the texts of a list on a line each,
/// anything else as JSON.
pub open spec fn output_text(output: Option<Tree>) -> Seq<char> {
    match output {
        Some(Tree::Text(text)) => text,
        Some(Tree::List(items)) => joined(item_texts(items), "\n"@),
        Some(other) => json_text(other),
        None => Seq::empty(),
    }
}

/// The role of a chat message: the developer speaks as the system, and one without a role is the
/// user's.
pub open spec fn chat_role(role: Option<Seq<char>>) -> Seq<char> {
    match role {
        Some(role) => if role == "developer"@ {
            "system"@
        } else {
            role
        },
        None => "user"@,
    }
}

/// The chat message that answers a tool call.
pub open spec fn tool_message(call_id: Seq<char>, content: Seq<char>) -> Tree {
    Tree::object().with("role"@, Tree::Text("tool"@)).with("tool_call_id"@, Tree::Text(call_id)).with(
        "content"@,
        Tree::Text(content),
    )
}

/// The chat message in which the assistant calls a function.
pub open spec fn call_message(call_id: Seq<char>, name: Seq<char>, arguments: Seq<char>) -> Tree {
    Tree::object().with("role"@, Tree::Text("assistant"@)).with(
        "content"@,
        Tree::Text(Seq::empty()),
    ).with(
        "tool_calls"@,
        Tree::List(
            seq![
                Tree::object().with("id"@, Tree::Text(call_id)).with(
                    "type"@,
                    Tree::Text("function"@),
                ).with(
                    "function"@,
                    Tree::object().with("name"@, Tree::Text(name)).with(
                        "arguments"@,
                        Tree::Text(arguments),
                    ),
                ),
            ],
        ),
    )
}

/// The chat message that an input item becomes, if any.
pub open spec fn chat_message(item: Tree) -> Option<Tree> {
    let call_id = or_default(item.text_at("call_id"@), Seq::empty());
    match item.text_at("type"@) {
        Some(kind) => if kind == "message"@ {
            Some(
                Tree::object().with("role"@, Tree::Text(chat_role(item.text_at("role"@)))).with(
                    "content"@,
                    chat_content(item.get("content"@)),
                ),
            )
        } else if kind == "function_call_output"@ || kind == "custom_tool_call_output"@ {
            Some(tool_message(call_id, output_text(item.get("output"@))))
        } else if kind == "mcp_tool_call_output"@ {
            Some(
                tool_message(
                    call_id,
                    match item.get("output"@) {
                        Some(output) => json_text(output),
                        None => json_text(Tree::Null),
                    },
                ),
            )
        } else if kind == "function_call"@ {
            Some(
                call_message(
                    call_id,
                    or_default(item.text_at("name"@), DEFAULT_FUNCTION_NAME@),
                    or_default(item.text_at("arguments"@), "{}"@),
                ),
            )
        } else {
            None
        },
        None => None,
    }
}

/// The output that an input item gives as JSON, if any: texts and lists go as text, except where
/// the tool is one of an MCP server.
pub open spec fn json_output(item: Tree) -> Option<Tree> {
    match item.text_at("type"@) {
        Some(kind) => if kind == "function_call_output"@ || kind == "custom_tool_call_output"@ {
            match item.get("output"@) {
                Some(Tree::Text(_)) => None,
                Some(Tree::List(_)) => None,
                output => output,
            }
        } else if kind == "mcp_tool_call_output"@ {
            Some(or_default(item.get("output"@), Tree::Null))
        } else {
            None
        },
        None => None,
    }
}

/// Where an item's output is sent as JSON, it can be read from its text.
pub open spec fn output_reads_back(item: Tree) -> bool {
    json_output(item) matches Some(output) ==> reads_back(output, NESTING_LIMIT as nat)
        ==> parsed_str(json_text(output)) == Some(output)
}

/// The outputs of a request that are sent as JSON can be read from their texts.
pub open spec fn outputs_read_back(request: Tree) -> bool {
    request.list_at("input"@) matches Some(items) ==> forall|i: int|
        0 <= i < items.len() ==> output_reads_back(#[trigger] items[i])
}

/// The chat messages that the input items become, in their order.
pub open spec fn chat_messages(items: Seq<Tree>) -> Seq<Tree>
    decreases items.len(),
{
    if items.len() == 0 {
        Seq::empty()
    } else {
        match chat_message(items.last()) {
            Some(message) => chat_messages(items.drop_last()).push(message),
            None => chat_messages(items.drop_last()),
        }
    }
}

/// The message that the instructions become: none where they are missing or empty.
pub open spec fn instruction_messages(request: Tree) -> Seq<Tree> {
    match request.text_at("instructions"@) {
        Some(instructions) => if instructions.len() > 0 {
            seq![
                Tree::object().with("role"@, Tree::Text("system"@)).with(
                    "content"@,
                    Tree::Text(instructions),
                ),
            ]
        } else {
            Seq::empty()
        },
        None => Seq::empty(),
    }
}

/// All messages of the chat: the instructions come first.
pub open spec fn request_messages(request: Tree) -> Seq<Tree> {
    instruction_messages(request) + chat_messages(
        or_default(request.list_at("input"@), Seq::empty()),
    )
}

/// Whether a request asks for a stream.
pub open spec fn wants_stream(request: Tree) -> bool {
    or_default(request.bool_at("stream"@), false)
}

/// The format of the answer that a request asks for, with its schema.
pub open spec fn wanted_format(request: Tree) -> Option<(Tree, Tree)> {
    match request.get("text"@) {
        Some(text) => match text.get("format"@) {
            Some(format) => match format.get("schema"@) {
                Some(schema) => Some((format, schema)),
                None => None,
            },
            None => None,
        },
        None => None,
    }
}

/// The response format of a chat request.
pub open spec fn response_format(format: Tree, schema: Tree) -> Tree {
    Tree::object().with("type"@, Tree::Text("json_schema"@)).with(
        "json_schema"@,
        Tree::object().with(
            "name"@,
            Tree::Text(or_default(format.text_at("name"@), "response_format"@)),
        ).with("schema"@, schema).with(
            "strict"@,
            Tree::Bool(or_default(format.bool_at("strict"@), true)),
        ),
    )
}

/// The members that every chat request has.
pub open spec fn plain_chat_request(request: Tree) -> Tree {
    Tree::object().with(
        "model"@,
        Tree::Text(or_default(request.text_at("model"@), DEFAULT_CHAT_MODEL@)),
    ).with("messages"@, Tree::List(request_messages(request))).with(
        "tools"@,
        or_default(request.get("tools"@), Tree::List(Seq::empty())),
    ).with("tool_choice"@, or_default(request.get("tool_choice"@), Tree::Text("auto"@))).with(
        "parallel_tool_calls"@,
        Tree::Bool(or_default(request.bool_at("parallel_tool_calls"@), true)),
    ).with("stream"@, Tree::Bool(wants_stream(request)))
}

/// A chat request with what a stream needs: the usage is asked for.
pub open spec fn streamed_chat_request(request: Tree) -> Tree {
    if wants_stream(request) {
        plain_chat_request(request).with(
            "stream_options"@,
            Tree::object().with("include_usage"@, Tree::Bool(true)),
        )
    } else {
        plain_chat_request(request)
    }
}

/// The chat request that a request of the Responses API becomes.
pub open spec fn chat_request(request: Tree) -> Tree {
    match wanted_format(request) {
        Some((format, schema)) => streamed_chat_request(request).with(
            "response_format"@,
            response_format(format, schema),
        ),
        None => streamed_chat_request(request),
    }
}

/// A part of a message's content.
enum ContentPart {
    Text(String),
    Image(String),
}

impl View for ContentPart {
    type V = Part;

    closed spec fn view(&self) -> Part {
        match self {
            ContentPart::Text(text) => Part::Text(text@),
            ContentPart::Image(url) => Part::Image(url@),
        }
    }
}

impl ContentPart {
    /// Reads an item of a message's content.
    fn from_item(item: &Json) -> (part: Option<ContentPart>)
        ensures
            part is Some <==> content_part(item@) is Some,
            part matches Some(part) ==> content_part(item@) == Some(part@),
    {
        let Some(kind) = item.text_at("type") else {
            return None;
        };
        if same_text(kind, "input_text") || same_text(kind, "output_text") {
            match item.text_at("text") {
                Some(text) => Some(ContentPart::Text(text.to_owned())),
                None => None,
            }
        } else if same_text(kind, "input_image") {
            match item.text_at("image_url") {
                Some(url) => Some(ContentPart::Image(url.to_owned())),
                None => None,
            }
        } else {
            None
        }
    }

    /// The part as a chat request writes it.
    fn to_json(&self) -> (json: Json)
        ensures
            json@ == part_tree(self@),
    {
        match self {
            ContentPart::Text(text) => Json::object().with("type", Json::text("text")).with(
                "text",
                Json::text(text.as_str()),
            ),
            ContentPart::Image(url) => Json::object().with("type", Json::text("image_url")).with(
                "image_url",
                Json::object().with("url", Json::text(url.as_str())),
            ),
        }
    }
}

/// The content of a chat message.
pub fn message_content_to_chat_content(content: Option<&Json>) -> (json: Json)
    ensures
        json@ == chat_content(tree_view(content)),
{
    let items: Option<&Vec<Json>> = match content {
        Some(content) => content.as_array(),
        None => None,
    };
    let Some(items) = items else {
        return Json::Text(String::new());
    };
    let ghost all = trees(items@);
    proof {
        lemma_trees_len(items@);
    }
    let mut parts: Vec<ContentPart> = Vec::new();
    let ghost mut shown: Seq<Part> = Seq::empty();
    for i in 0..items.len()
        invariant
            all == trees(items@),
            all.len() == items@.len(),
            shown == parts@.map_values(|part: ContentPart| part@),
            shown == content_parts(all.take(i as int)),
    {
        broadcast use lemma_trees_index;

        assert(all.take(i + 1).drop_last() =~= all.take(i as int));
        assert(all[i as int] == items@[i as int]@);
        if let Some(part) = ContentPart::from_item(&items[i]) {
            proof {
                shown = shown.push(part@);
            }
            parts.push(part);
            assert(parts@.map_values(|part: ContentPart| part@) =~= shown);
        }
    }
    assert(all.take(all.len() as int) =~= all);
    if parts.len() == 0 {
        return Json::Text(String::new());
    }
    if parts.len() == 1 {
        assert(shown[0] == parts@[0]@);
        if let ContentPart::Text(text) = &parts[0] {
            return Json::Text(text.clone());
        }
    }
    let mut written: Vec<Json> = Vec::new();
    for i in 0..parts.len()
        invariant
            shown == parts@.map_values(|part: ContentPart| part@),
            trees(written@) == shown.take(i as int).map_values(|part: Part| part_tree(part)),
    {
        let json = parts[i].to_json();
        proof {
            assert(shown[i as int] == parts@[i as int]@);
            lemma_trees_push(written@, json);
            assert(shown.take(i + 1).map_values(|part: Part| part_tree(part)) =~= shown.take(
                i as int,
            ).map_values(|part: Part| part_tree(part)).push(json@));
        }
        written.push(json);
    }
    assert(shown.take(shown.len() as int) =~= shown);
    Json::List(written)
}

/// The output of a function call as text.
pub fn function_call_output_to_text(output: Option<&Json>) -> (text: String)
    ensures
        text@ == output_text(tree_view(output)),
        output matches Some(json) ==> !(json@ is Text || json@ is List) ==> is_line_of(
            text@,
            json@,
        ),
{
    let Some(output) = output else {
        return String::new();
    };
    match output {
        Json::Text(text) => text.clone(),
        Json::List(items) => {
            let ghost all = trees(items@);
            proof {
                lemma_trees_len(items@);
            }
            let mut found: Vec<String> = Vec::new();
            assert(texts_view(found@) =~= item_texts(all.take(0)));
            for i in 0..items.len()
                invariant
                    all == trees(items@),
                    all.len() == items@.len(),
                    texts_view(found@) == item_texts(all.take(i as int)),
            {
                broadcast use lemma_trees_index;

                assert(all.take(i + 1).drop_last() =~= all.take(i as int));
                assert(all[i as int] == items@[i as int]@);
                let ghost before = found@;
                if let Some(text) = items[i].text_at("text") {
                    found.push(text.to_owned());
                    assert(texts_view(found@) =~= texts_view(before).push(text@));
                }
            }
            assert(all.take(all.len() as int) =~= all);
            join_texts(&found, "\n")
        },
        _ => display(output),
    }
}

/// The chat message that an input item becomes, if any. An output that is sent as JSON can be read
/// from its text.
pub fn input_item_to_chat_message(item: &Json) -> (message: Option<Json>)
    ensures
        message is Some <==> chat_message(item@) is Some,
        message matches Some(message) ==> chat_message(item@) == Some(message@),
        output_reads_back(item@),
{
    proof {
        reveal_strlit("message");
        assert("message"@.len() == 7);
        reveal_strlit("function_call_output");
        assert("function_call_output"@.len() == 20);
        reveal_strlit("custom_tool_call_output");
        assert("custom_tool_call_output"@.len() == 23);
        reveal_strlit("mcp_tool_call_output");
        assert("mcp_tool_call_output"@.len() == 20);
        reveal_strlit("function_call");
        assert("function_call"@.len() == 13);
    }
    let Some(kind) = item.text_at("type") else {
        return None;
    };
    let call_id = item.text_at("call_id").unwrap_or("");
    proof {
        reveal_strlit("");
        assert(""@ =~= Seq::<char>::empty());
    }
    if same_text(kind, "message") {
        let role = match item.text_at("role") {
            Some(role) => if same_text(role, "developer") {
                "system"
            } else {
                role
            },
            None => "user",
        };
        let content = message_content_to_chat_content(item.get("content"));
        Some(Json::object().with("role", Json::text(role)).with("content", content))
    } else if same_text(kind, "function_call_output") || same_text(
        kind,
        "custom_tool_call_output",
    ) {
        let content = function_call_output_to_text(item.get("output"));
        Some(
            Json::object().with("role", Json::text("tool")).with(
                "tool_call_id",
                Json::text(call_id),
            ).with("content", Json::Text(content)),
        )
    } else if same_text(kind, "mcp_tool_call_output") {
        let content = match item.get("output") {
            Some(output) => display(output),
            None => display(&Json::Null),
        };
        Some(
            Json::object().with("role", Json::text("tool")).with(
                "tool_call_id",
                Json::text(call_id),
            ).with("content", Json::Text(content)),
        )
    } else if same_text(kind, "function_call") {
        let name = item.text_at("name").unwrap_or(DEFAULT_FUNCTION_NAME);
        let arguments = item.text_at("arguments").unwrap_or("{}");
        let function = Json::object().with("name", Json::text(name)).with(
            "arguments",
            Json::text(arguments),
        );
        let call = Json::object().with("id", Json::text(call_id)).with(
            "type",
            Json::text("function"),
        ).with("function", function);
        let mut calls: Vec<Json> = Vec::new();
        proof {
            lemma_trees_push(calls@, call);
            assert(trees(calls@).push(call@) =~= seq![call@]);
        }
        calls.push(call);
        Some(
            Json::object().with("role", Json::text("assistant")).with(
                "content",
                Json::Text(String::new()),
            ).with("tool_calls", Json::List(calls)),
        )
    } else {
        None
    }
}

/// All messages of the chat.
fn messages_of_request(request: &Json) -> (messages: Vec<Json>)
    ensures
        trees(messages@) == request_messages(request@),
        outputs_read_back(request@),
{
    let mut messages: Vec<Json> = Vec::new();
    if let Some(instructions) = request.text_at("instructions") {
        if !instructions.is_empty() {
            let message = Json::object().with("role", Json::text("system")).with(
                "content",
                Json::text(instructions),
            );
            proof {
                lemma_trees_push(messages@, message);
                assert(trees(messages@).push(message@) =~= seq![message@]);
            }
            messages.push(message);
        }
    }
    let ghost first = instruction_messages(request@);
    assert(trees(messages@) =~= first);
    if let Some(items) = request.list_at("input") {
        let ghost all = trees(items@);
        proof {
            lemma_trees_len(items@);
        }
        assert(first + chat_messages(all.take(0)) =~= first);
        for i in 0..items.len()
            invariant
                all == trees(items@),
                all.len() == items@.len(),
                trees(messages@) == first + chat_messages(all.take(i as int)),
                forall|j: int| 0 <= j < i ==> output_reads_back(#[trigger] all[j]),
        {
            broadcast use lemma_trees_index;

            assert(all.take(i + 1).drop_last() =~= all.take(i as int));
            assert(all[i as int] == items@[i as int]@);
            if let Some(message) = input_item_to_chat_message(&items[i]) {
                proof {
                    lemma_trees_push(messages@, message);
                    assert(trees(messages@).push(message@) =~= first + chat_messages(
                        all.take(i + 1),
                    ));
                }
                messages.push(message);
            }
        }
        assert(all.take(all.len() as int) =~= all);
    } else {
        assert(first + chat_messages(Seq::empty()) =~= first);
    }
    messages
}

/// The chat request that a request of the Responses API becomes. The outputs that are sent as JSON
/// can be read from their texts.
pub fn request_to_chat_request(request: &Json) -> (chat: Json)
    ensures
        chat@ == chat_request(request@),
        outputs_read_back(request@),
{
    let model = request.text_at("model").unwrap_or(DEFAULT_CHAT_MODEL);
    let stream = request.bool_at("stream").unwrap_or(false);
    let messages = messages_of_request(request);
    let tools = match request.get("tools") {
        Some(tools) => tools.duplicate(),
        None => Json::List(Vec::new()),
    };
    let tool_choice = match request.get("tool_choice") {
        Some(tool_choice) => tool_choice.duplicate(),
        None => Json::text("auto"),
    };
    let parallel_tool_calls = request.bool_at("parallel_tool_calls").unwrap_or(true);
    let mut chat = Json::object().with("model", Json::text(model)).with(
        "messages",
        Json::List(messages),
    ).with("tools", tools).with("tool_choice", tool_choice).with(
        "parallel_tool_calls",
        Json::Bool(parallel_tool_calls),
    ).with("stream", Json::Bool(stream));
    assert(chat@ == plain_chat_request(request@));
    if stream {
        chat = chat.with(
            "stream_options",
            Json::object().with("include_usage", Json::Bool(true)),
        );
    }
    if let Some(text) = request.get("text") {
        if let Some(format) = text.get("format") {
            if let Some(schema) = format.get("schema") {
                let name = format.text_at("name").unwrap_or("response_format");
                let strict = format.bool_at("strict").unwrap_or(true);
                chat = chat.with(
                    "response_format",
                    Json::object().with("type", Json::text("json_schema")).with(
                        "json_schema",
                        Json::object().with("name", Json::text(name)).with(
                            "schema",
                            schema.duplicate(),
                        ).with("strict", Json::Bool(strict)),
                    ),
                );
            }
        }
    }
    chat
}

/// What becomes of the bytes of a request: the bytes of the chat request and whether it asks for a
/// stream.
pub open spec fn mapped_request(body: Seq<u8>) -> Result<(Seq<u8>, bool), TranslateFailure> {
    match parsed_slice(body) {
        Ok(request) => Ok((json_bytes(chat_request(request)), wants_stream(request))),
        Err(cause) => Err(TranslateFailure { context: TranslateContext::ParseRequest, cause }),
    }
}

/// What was mapped, as plain values.
pub open spec fn mapped_view(
    mapped: Result<MappedRequestBody, TranslateError>,
) -> Result<(Seq<u8>, bool), TranslateFailure> {
    match mapped {
        Ok(mapped) => Ok((mapped.body@, mapped.stream)),
        Err(error) => Err(error@),
    }
}

/// The bytes that are sent read back as the chat request that a body becomes, where that chat
/// request reads back, and so do the outputs in it that are sent as JSON.
pub open spec fn is_chat_request_of(sent: Seq<u8>, body: Seq<u8>) -> bool {
    &&& parsed_slice(body) matches Ok(request)
    &&& reads_back(chat_request(request), NESTING_LIMIT as nat) ==> parsed_slice(sent) == Ok::<
        Tree,
        Seq<char>,
    >(chat_request(request))
    &&& outputs_read_back(request)
}

/// The content of a chat message reads back.
proof fn lemma_content_reads_back(content: Option<Tree>, depth: nat)
    requires
        depth >= 3,
    ensures
        reads_back(chat_content(content), depth),
{
    broadcast use lemma_with_reads_back;

    if let Some(Tree::List(items)) = content {
        let parts = content_parts(items);
        let written = parts.map_values(|part: Part| part_tree(part));
        assert forall|i: int| 0 <= i < written.len() implies reads_back(
            #[trigger] written[i],
            (depth - 1) as nat,
        ) by {
            match parts[i] {
                Part::Text(_) => {},
                Part::Image(url) => {
                    assert(reads_back(
                        Tree::object().with("url"@, Tree::Text(url)),
                        (depth - 2) as nat,
                    ));
                },
            }
        }
    }
}

/// A chat message reads back.
proof fn lemma_message_reads_back(item: Tree, depth: nat)
    requires
        depth >= 4,
        chat_message(item) is Some,
    ensures
        reads_back(chat_message(item)->0, depth),
{
    broadcast use lemma_with_reads_back;

    lemma_content_reads_back(item.get("content"@), (depth - 1) as nat);
    let name = or_default(item.text_at("name"@), DEFAULT_FUNCTION_NAME@);
    let arguments = or_default(item.text_at("arguments"@), "{}"@);
    let call_id = or_default(item.text_at("call_id"@), Seq::empty());
    let call = Tree::object().with("id"@, Tree::Text(call_id)).with(
        "type"@,
        Tree::Text("function"@),
    ).with(
        "function"@,
        Tree::object().with("name"@, Tree::Text(name)).with("arguments"@, Tree::Text(arguments)),
    );
    assert(reads_back(
        Tree::object().with("name"@, Tree::Text(name)).with("arguments"@, Tree::Text(arguments)),
        (depth - 3) as nat,
    ));
    assert(reads_back(call, (depth - 2) as nat));
    assert(reads_back(Tree::List(seq![call]), (depth - 1) as nat));
}

/// The chat messages read back.
proof fn lemma_messages_read_back(items: Seq<Tree>, depth: nat)
    requires
        depth >= 4,
    ensures
        forall|i: int|
            0 <= i < chat_messages(items).len() ==> reads_back(
                #[trigger] chat_messages(items)[i],
                depth,
            ),
    decreases items.len(),
{
    if items.len() > 0 {
        let earlier = chat_messages(items.drop_last());
        lemma_messages_read_back(items.drop_last(), depth);
        if chat_message(items.last()) is Some {
            lemma_message_reads_back(items.last(), depth);
            assert forall|i: int| 0 <= i < chat_messages(items).len() implies reads_back(
                #[trigger] chat_messages(items)[i],
                depth,
            ) by {
                if i < earlier.len() {
                    assert(chat_messages(items)[i] == earlier[i]);
                }
            }
        }
    }
}

/// A chat request reads back, so that the upstream can read all of it, where the tools, the choice
/// among them and the schema do, which it takes from the request as they are. Nothing else of the
/// request matters.
pub proof fn law_chat_request_reads_back(request: Tree, depth: nat)
    requires
        depth >= 6,
        request.get("tools"@) matches Some(tools) ==> reads_back(tools, (depth - 1) as nat),
        request.get("tool_choice"@) matches Some(choice) ==> reads_back(choice, (depth - 1) as nat),
        wanted_format(request) matches Some((_, schema)) ==> reads_back(schema, (depth - 3) as nat),
    ensures
        reads_back(chat_request(request), depth),
{
    broadcast use lemma_with_reads_back;

    let messages = request_messages(request);
    let items = or_default(request.list_at("input"@), Seq::empty());
    lemma_messages_read_back(items, (depth - 2) as nat);
    assert forall|i: int| 0 <= i < messages.len() implies reads_back(
        #[trigger] messages[i],
        (depth - 2) as nat,
    ) by {
        let first = instruction_messages(request);
        if i >= first.len() {
            assert(messages[i] == chat_messages(items)[i - first.len()]);
        }
    }
    assert(reads_back(Tree::List(messages), (depth - 1) as nat));
    assert(reads_back(plain_chat_request(request), depth));
    assert(reads_back(
        Tree::object().with("include_usage"@, Tree::Bool(true)),
        (depth - 1) as nat,
    ));
    assert(reads_back(streamed_chat_request(request), depth));
    if let Some((format, schema)) = wanted_format(request) {
        let described = Tree::object().with(
            "name"@,
            Tree::Text(or_default(format.text_at("name"@), "response_format"@)),
        ).with("schema"@, schema).with(
            "strict"@,
            Tree::Bool(or_default(format.bool_at("strict"@), true)),
        );
        assert(reads_back(described, (depth - 2) as nat));
        assert(reads_back(response_format(format, schema), (depth - 1) as nat));
    }
}

/// A request that reads back becomes a chat request that reads back.
pub proof fn law_request_stays_readable(request: Tree, depth: nat)
    requires
        depth >= 6,
        reads_back(request, depth),
    ensures
        reads_back(chat_request(request), depth),
{
    if request.get("tools"@) is Some {
        lemma_member_reads_back(request, "tools"@, depth);
    }
    if request.get("tool_choice"@) is Some {
        lemma_member_reads_back(request, "tool_choice"@, depth);
    }
    if let Some((format, _)) = wanted_format(request) {
        lemma_member_reads_back(request, "text"@, depth);
        lemma_member_reads_back(request.get("text"@)->0, "format"@, (depth - 1) as nat);
        lemma_member_reads_back(format, "schema"@, (depth - 2) as nat);
    }
    law_chat_request_reads_back(request, depth);
}

/// Translates a request of the Responses API, as bytes, to a chat request. What is sent upstream
/// reads back as the chat request, where that reads back.
pub fn responses_to_chat_completions_request(body: &[u8]) -> (mapped: Result<
    MappedRequestBody,
    TranslateError,
>)
    ensures
        mapped_view(mapped) == mapped_request(body@),
        mapped is Ok <==> parsed_slice(body@) is Ok,
        mapped matches Ok(mapped) ==> is_chat_request_of(mapped.body@, body@),
{
    let request = match parse_slice(body) {
        Ok(request) => request,
        Err(cause) => {
            return Err(TranslateError { context: TranslateContext::ParseRequest, cause });
        },
    };
    let stream = request.bool_at("stream").unwrap_or(false);
    match to_vec(&request_to_chat_request(&request)) {
        Ok(bytes) => Ok(MappedRequestBody { body: bytes, stream }),
        Err(cause) => Err(TranslateError { context: TranslateContext::SerializeRequest, cause }),
    }
}

}
