//! Responses: from the Chat Completions API to the Responses API.

use crate::codec::{parse_slice, to_vec};
#[allow(unused_imports)]
use crate::codec::{json_bytes, lemma_with_reads_back, parsed_slice, reads_back, NESTING_LIMIT};
#[allow(unused_imports)]
use crate::error::TranslateFailure;
use crate::error::{TranslateContext, TranslateError};
use crate::json::Json;
#[allow(unused_imports)]
use crate::json::{lemma_trees_index, lemma_trees_len, lemma_trees_push, tree_view, trees, Tree};
use crate::request::DEFAULT_FUNCTION_NAME;
#[allow(unused_imports)]
use crate::text::{join_texts, joined, or_default, same_text, texts_view};
use vstd::prelude::*;

verus! {

/// The identifier of a response that has none.
pub const DEFAULT_RESPONSE_ID: &'static str = "chatcmpl-proxy";

/// The text of a part of a chat message: that of a text part, or the value of an annotated text.
pub open spec fn part_text(part: Tree) -> Option<Seq<char>> {
    if part.text_at("type"@) == Some("text"@) {
        part.text_at("text"@)
    } else {
        match part.get("text"@) {
            Some(text) => text.text_at("value"@),
            None => None,
        }
    }
}

/// The texts of the parts that have one, in their order.
pub open spec fn part_texts(parts: Seq<Tree>) -> Seq<Seq<char>>
    decreases parts.len(),
{
    if parts.len() == 0 {
        Seq::empty()
    } else {
        match part_text(parts.last()) {
            Some(text) => part_texts(parts.drop_last()).push(text),
            None => part_texts(parts.drop_last()),
        }
    }
}

/// The text of a chat message: a text as it is, the texts of a list of parts one after the other.
pub open spec fn message_text(content: Option<Tree>) -> Seq<char> {
    match content {
        Some(Tree::Text(text)) => text,
        Some(Tree::List(parts)) => joined(part_texts(parts), ""@),
        _ => Seq::empty(),
    }
}

/// The output item in which the assistant says something.
pub open spec fn message_item(text: Seq<char>) -> Tree {
    Tree::object().with("type"@, Tree::Text("message"@)).with(
        "role"@,
        Tree::Text("assistant"@),
    ).with(
        "content"@,
        Tree::List(
            seq![
                Tree::object().with("type"@, Tree::Text("output_text"@)).with(
                    "text"@,
                    Tree::Text(text),
                ),
            ],
        ),
    )
}

/// The output item in which the assistant calls a function.
pub open spec fn call_item(name: Seq<char>, arguments: Seq<char>, call_id: Seq<char>) -> Tree {
    Tree::object().with("type"@, Tree::Text("function_call"@)).with("name"@, Tree::Text(name)).with(
        "arguments"@,
        Tree::Text(arguments),
    ).with("call_id"@, Tree::Text(call_id))
}

/// The output item that a tool call of a chat message becomes.
pub open spec fn tool_call_item(tool_call: Tree) -> Tree {
    let function = or_default(tool_call.get("function"@), Tree::Null);
    call_item(
        or_default(function.text_at("name"@), DEFAULT_FUNCTION_NAME@),
        or_default(function.text_at("arguments"@), "{}"@),
        or_default(tool_call.text_at("id"@), Seq::empty()),
    )
}

/// What the assistant says in a chat message: nothing where its text is empty.
pub open spec fn said_items(message: Tree) -> Seq<Tree> {
    let text = message_text(message.get("content"@));
    if text.len() > 0 {
        seq![message_item(text)]
    } else {
        Seq::empty()
    }
}

/// The functions that the assistant calls in a chat message, in their order.
pub open spec fn called_items(message: Tree) -> Seq<Tree> {
    match message.list_at("tool_calls"@) {
        Some(calls) => calls.map_values(|call: Tree| tool_call_item(call)),
        None => Seq::empty(),
    }
}

/// The first choice of a chat response.
pub open spec fn first_choice(chat: Tree) -> Option<Tree> {
    match chat.list_at("choices"@) {
        Some(choices) => if choices.len() > 0 {
            Some(choices[0])
        } else {
            None
        },
        None => None,
    }
}

/// The output items of a chat response: those of its first choice's message.
pub open spec fn output_items(chat: Tree) -> Seq<Tree> {
    match first_choice(chat) {
        Some(choice) => match choice.get("message"@) {
            Some(message) => said_items(message) + called_items(message),
            None => Seq::empty(),
        },
        None => Seq::empty(),
    }
}

/// A token count of a usage report; zero where it is missing.
pub open spec fn token_count(usage: Option<Tree>, key: Seq<char>) -> int {
    match usage {
        Some(usage) => or_default(usage.i64_at(key), 0) as int,
        None => 0,
    }
}

/// The tokens of the prompt and the completion together.
pub open spec fn token_sum(usage: Option<Tree>) -> int {
    token_count(usage, "prompt_tokens"@) + token_count(usage, "completion_tokens"@)
}

/// Whether the sum of the token counts is one that `i64` holds.
pub open spec fn counts_fit(usage: Option<Tree>) -> bool {
    i64::MIN <= token_sum(usage) <= i64::MAX
}

/// The total of a usage report: the sum, where the report does not give it.
pub open spec fn token_total(usage: Option<Tree>) -> int {
    match usage {
        Some(report) => match report.i64_at("total_tokens"@) {
            Some(total) => total as int,
            None => token_sum(usage),
        },
        None => token_sum(usage),
    }
}

/// The usage report of a response.
pub open spec fn usage_report(usage: Option<Tree>) -> Tree {
    Tree::object().with("input_tokens"@, Tree::Int(token_count(usage, "prompt_tokens"@))).with(
        "input_tokens_details"@,
        Tree::object().with("cached_tokens"@, Tree::Int(0)),
    ).with("output_tokens"@, Tree::Int(token_count(usage, "completion_tokens"@))).with(
        "output_tokens_details"@,
        Tree::object().with("reasoning_tokens"@, Tree::Int(0)),
    ).with("total_tokens"@, Tree::Int(token_total(usage)))
}

/// The response that a chat response becomes.
pub open spec fn response_of_chat(chat: Tree) -> Tree {
    Tree::object().with(
        "id"@,
        Tree::Text(or_default(chat.text_at("id"@), DEFAULT_RESPONSE_ID@)),
    ).with("object"@, Tree::Text("response"@)).with("status"@, Tree::Text("completed"@)).with(
        "model"@,
        Tree::Text(or_default(chat.text_at("model"@), Seq::empty())),
    ).with("output"@, Tree::List(output_items(chat))).with(
        "usage"@,
        usage_report(chat.get("usage"@)),
    )
}

/// The text of a chat message.
pub fn chat_message_text(content: Option<&Json>) -> (text: String)
    ensures
        text@ == message_text(tree_view(content)),
{
    let Some(content) = content else {
        return String::new();
    };
    match content {
        Json::Text(text) => text.clone(),
        Json::List(parts) => {
            let ghost all = trees(parts@);
            proof {
                lemma_trees_len(parts@);
            }
            let mut found: Vec<String> = Vec::new();
            assert(texts_view(found@) =~= part_texts(all.take(0)));
            for i in 0..parts.len()
                invariant
                    all == trees(parts@),
                    all.len() == parts@.len(),
                    texts_view(found@) == part_texts(all.take(i as int)),
            {
                broadcast use lemma_trees_index;

                assert(all.take(i + 1).drop_last() =~= all.take(i as int));
                assert(all[i as int] == parts@[i as int]@);
                let part = &parts[i];
                let plain = match part.text_at("type") {
                    Some(kind) => same_text(kind, "text"),
                    None => false,
                };
                let text = if plain {
                    part.text_at("text")
                } else {
                    match part.get("text") {
                        Some(text) => text.text_at("value"),
                        None => None,
                    }
                };
                let ghost before = found@;
                if let Some(text) = text {
                    found.push(text.to_owned());
                    assert(texts_view(found@) =~= texts_view(before).push(text@));
                }
            }
            assert(all.take(all.len() as int) =~= all);
            join_texts(&found, "")
        },
        _ => String::new(),
    }
}

/// The output item in which the assistant says something.
pub fn message_output_item(text: &str) -> (item: Json)
    ensures
        item@ == message_item(text@),
{
    let part = Json::object().with("type", Json::text("output_text")).with(
        "text",
        Json::text(text),
    );
    let mut content: Vec<Json> = Vec::new();
    proof {
        lemma_trees_push(content@, part);
        assert(trees(content@).push(part@) =~= seq![part@]);
    }
    content.push(part);
    Json::object().with("type", Json::text("message")).with("role", Json::text("assistant")).with(
        "content",
        Json::List(content),
    )
}

/// The output item in which the assistant calls a function.
pub fn call_output_item(name: &str, arguments: &str, call_id: &str) -> (item: Json)
    ensures
        item@ == call_item(name@, arguments@, call_id@),
{
    Json::object().with("type", Json::text("function_call")).with("name", Json::text(name)).with(
        "arguments",
        Json::text(arguments),
    ).with("call_id", Json::text(call_id))
}

/// The output item that a tool call of a chat message becomes.
fn tool_call_output_item(tool_call: &Json) -> (item: Json)
    ensures
        item@ == tool_call_item(tool_call@),
{
    proof {
        reveal_strlit("");
        assert(""@ =~= Seq::<char>::empty());
    }
    let call_id = tool_call.text_at("id").unwrap_or("");
    let nothing = Json::Null;
    let function = match tool_call.get("function") {
        Some(function) => function,
        None => &nothing,
    };
    let name = function.text_at("name").unwrap_or(DEFAULT_FUNCTION_NAME);
    let arguments = function.text_at("arguments").unwrap_or("{}");
    call_output_item(name, arguments, call_id)
}

/// The output items of a chat response.
fn output_items_of_chat(chat: &Json) -> (items: Vec<Json>)
    ensures
        trees(items@) == output_items(chat@),
{
    let mut items: Vec<Json> = Vec::new();
    let Some(choice) = chat_first_choice(chat) else {
        return items;
    };
    let Some(message) = choice.get("message") else {
        return items;
    };
    let text = chat_message_text(message.get("content"));
    if !text.as_str().is_empty() {
        let item = message_output_item(text.as_str());
        proof {
            lemma_trees_push(items@, item);
            assert(trees(items@).push(item@) =~= seq![item@]);
        }
        items.push(item);
    }
    let ghost said = said_items(message@);
    assert(trees(items@) =~= said);
    if let Some(calls) = message.list_at("tool_calls") {
        let ghost all = trees(calls@);
        let ghost called = all.map_values(|call: Tree| tool_call_item(call));
        proof {
            lemma_trees_len(calls@);
        }
        assert(said + called.take(0) =~= said);
        for i in 0..calls.len()
            invariant
                all == trees(calls@),
                all.len() == calls@.len(),
                called == all.map_values(|call: Tree| tool_call_item(call)),
                trees(items@) == said + called.take(i as int),
        {
            broadcast use lemma_trees_index;

            assert(all[i as int] == calls@[i as int]@);
            let item = tool_call_output_item(&calls[i]);
            proof {
                lemma_trees_push(items@, item);
                assert(trees(items@).push(item@) =~= said + called.take(i + 1));
            }
            items.push(item);
        }
        assert(called.take(called.len() as int) =~= called);
    } else {
        assert(said + Seq::<Tree>::empty() =~= said);
    }
    items
}

/// The first choice of a chat response.
pub(crate) fn chat_first_choice(chat: &Json) -> (choice: Option<&Json>)
    ensures
        tree_view(choice) == first_choice(chat@),
{
    match chat.list_at("choices") {
        Some(choices) => {
            proof {
                lemma_trees_len(choices@);
            }
            if choices.len() > 0 {
                proof {
                    lemma_trees_index(choices@, 0);
                }
                Some(&choices[0])
            } else {
                None
            }
        },
        None => None,
    }
}

/// A token count of a usage report.
fn count_tokens(usage: Option<&Json>, key: &str) -> (count: i64)
    ensures
        count == token_count(tree_view(usage), key@),
{
    match usage {
        Some(usage) => usage.i64_at(key).unwrap_or(0),
        None => 0,
    }
}

/// Whether the sum of the token counts is one that `i64` holds.
pub fn token_counts_fit(usage: Option<&Json>) -> (fit: bool)
    ensures
        fit == counts_fit(tree_view(usage)),
{
    let prompt = count_tokens(usage, "prompt_tokens");
    let completion = count_tokens(usage, "completion_tokens");
    prompt.checked_add(completion).is_some()
}

/// The usage report of a response.
pub fn report_usage(usage: Option<&Json>) -> (report: Json)
    requires
        counts_fit(tree_view(usage)),
    ensures
        report@ == usage_report(tree_view(usage)),
{
    let prompt = count_tokens(usage, "prompt_tokens");
    let completion = count_tokens(usage, "completion_tokens");
    let sum: i64 = prompt + completion;
    let total: i64 = match usage {
        Some(usage) => usage.i64_at("total_tokens").unwrap_or(sum),
        None => sum,
    };
    Json::object().with("input_tokens", Json::Int(prompt)).with(
        "input_tokens_details",
        Json::object().with("cached_tokens", Json::Int(0)),
    ).with("output_tokens", Json::Int(completion)).with(
        "output_tokens_details",
        Json::object().with("reasoning_tokens", Json::Int(0)),
    ).with("total_tokens", Json::Int(total))
}

/// The response that a chat response becomes.
pub fn chat_response_to_response(chat: &Json) -> (response: Json)
    requires
        counts_fit(chat@.get("usage"@)),
    ensures
        response@ == response_of_chat(chat@),
{
    proof {
        reveal_strlit("");
        assert(""@ =~= Seq::<char>::empty());
    }
    let id = chat.text_at("id").unwrap_or(DEFAULT_RESPONSE_ID);
    let model = chat.text_at("model").unwrap_or("");
    let items = output_items_of_chat(chat);
    let usage = report_usage(chat.get("usage"));
    Json::object().with("id", Json::text(id)).with("object", Json::text("response")).with(
        "status",
        Json::text("completed"),
    ).with("model", Json::text(model)).with("output", Json::List(items)).with("usage", usage)
}

/// What becomes of the bytes of a chat response.
pub open spec fn mapped_response(body: Seq<u8>) -> Result<Seq<u8>, TranslateFailure> {
    match parsed_slice(body) {
        Ok(chat) => Ok(json_bytes(response_of_chat(chat))),
        Err(cause) => Err(TranslateFailure { context: TranslateContext::ParseResponse, cause }),
    }
}

/// Whether the token counts that a chat response reports can be added up.
pub open spec fn response_counts_fit(body: Seq<u8>) -> bool {
    match parsed_slice(body) {
        Ok(chat) => counts_fit(chat.get("usage"@)),
        Err(_) => true,
    }
}

/// The bytes of a translation that may have failed.
pub open spec fn translated_view(
    translated: Result<Vec<u8>, TranslateError>,
) -> Result<Seq<u8>, TranslateFailure> {
    match translated {
        Ok(bytes) => Ok(bytes@),
        Err(error) => Err(error@),
    }
}

/// The bytes that are sent read back as the response that a body becomes.
pub open spec fn is_response_of(sent: Seq<u8>, body: Seq<u8>) -> bool {
    parsed_slice(body) matches Ok(chat) && parsed_slice(sent) == Ok::<Tree, Seq<char>>(
        response_of_chat(chat),
    )
}

/// A response reads back whatever the chat response was: its numbers are integers, and it is
/// nested five deep.
pub proof fn law_response_reads_back(chat: Tree)
    ensures
        reads_back(response_of_chat(chat), NESTING_LIMIT as nat),
{
    broadcast use lemma_with_reads_back;

    let depth = NESTING_LIMIT as nat;
    let items = output_items(chat);
    assert forall|i: int| 0 <= i < items.len() implies reads_back(
        #[trigger] items[i],
        (depth - 2) as nat,
    ) by {
        let message = first_choice(chat)->0.get("message"@)->0;
        let text = message_text(message.get("content"@));
        if i < said_items(message).len() {
            lemma_message_item_reads_back(text);
        } else {
            let call = message.list_at("tool_calls"@)->0[i - said_items(message).len()];
            assert(items[i] == tool_call_item(call));
            lemma_call_item_reads_back(
                or_default(
                    or_default(call.get("function"@), Tree::Null).text_at("name"@),
                    DEFAULT_FUNCTION_NAME@,
                ),
                or_default(
                    or_default(call.get("function"@), Tree::Null).text_at("arguments"@),
                    "{}"@,
                ),
                or_default(call.text_at("id"@), Seq::empty()),
            );
        }
    }
    lemma_usage_reads_back(chat.get("usage"@));
}

/// What the assistant says reads back.
pub proof fn lemma_message_item_reads_back(text: Seq<char>)
    ensures
        reads_back(message_item(text), (NESTING_LIMIT - 2) as nat),
{
    broadcast use lemma_with_reads_back;

    let part = Tree::object().with("type"@, Tree::Text("output_text"@)).with(
        "text"@,
        Tree::Text(text),
    );
    assert(reads_back(part, (NESTING_LIMIT - 4) as nat));
    assert(reads_back(Tree::List(seq![part]), (NESTING_LIMIT - 3) as nat));
}

/// A function call reads back.
pub proof fn lemma_call_item_reads_back(name: Seq<char>, arguments: Seq<char>, call_id: Seq<char>)
    ensures
        reads_back(call_item(name, arguments, call_id), (NESTING_LIMIT - 2) as nat),
{
    broadcast use lemma_with_reads_back;

}

/// A usage report reads back.
pub proof fn lemma_usage_reads_back(usage: Option<Tree>)
    ensures
        reads_back(usage_report(usage), (NESTING_LIMIT - 2) as nat),
        reads_back(usage_report(usage), (NESTING_LIMIT - 1) as nat),
{
    broadcast use lemma_with_reads_back;

}

/// Translates a chat response, as bytes, to a response of the Responses API. What the client gets
/// reads back as that response.
pub fn chat_completions_json_to_responses_json(body: &[u8]) -> (translated: Result<
    Vec<u8>,
    TranslateError,
>)
    requires
        response_counts_fit(body@),
    ensures
        translated_view(translated) == mapped_response(body@),
        translated is Ok <==> parsed_slice(body@) is Ok,
        translated matches Ok(sent) ==> is_response_of(sent@, body@),
{
    let chat = match parse_slice(body) {
        Ok(chat) => chat,
        Err(cause) => {
            return Err(TranslateError { context: TranslateContext::ParseResponse, cause });
        },
    };
    proof {
        law_response_reads_back(chat@);
    }
    match to_vec(&chat_response_to_response(&chat)) {
        Ok(bytes) => Ok(bytes),
        Err(cause) => Err(TranslateError { context: TranslateContext::SerializeResponse, cause }),
    }
}

/// Translates a chat response whose token counts can be added up; `None` for any other.
pub fn checked_chat_json_to_responses_json(body: &[u8]) -> (translated: Option<
    Result<Vec<u8>, TranslateError>,
>)
    ensures
        translated is Some <==> response_counts_fit(body@),
        translated matches Some(translated) ==> translated_view(translated) == mapped_response(
            body@,
        ),
        translated matches Some(translated) ==> (translated is Ok <==> parsed_slice(body@) is Ok),
        translated matches Some(Ok(sent)) ==> is_response_of(sent@, body@),
{
    if let Ok(chat) = parse_slice(body) {
        if !token_counts_fit(chat.get("usage")) {
            return None;
        }
    }
    Some(chat_completions_json_to_responses_json(body))
}

}
