//! What a chat request says, in terms of the request that it was made from.

#[allow(unused_imports)]
use crate::codec::{json_bytes, json_text, parsed_slice};
#[allow(unused_imports)]
use crate::error::TranslateContext;
#[allow(unused_imports)]
use crate::json::Tree;
#[allow(unused_imports)]
use crate::laws::law_chat_request_members;
#[allow(unused_imports)]
use crate::request::{
    chat_content, chat_message, chat_messages, chat_request, content_part, content_parts,
    instruction_messages, item_texts, mapped_request, output_text, part_tree, request_messages,
    streamed_chat_request, Part,
};
#[allow(unused_imports)]
use crate::text::joined;
use vstd::prelude::*;

verus! {

/// Every member of a chat request is the request's own, or what stands for one that is missing or
/// of another kind. Usage is asked for in every stream and nowhere else, a schema is passed on
/// wherever it is given, and there are no other members.
pub proof fn law_chat_request_says_what_was_asked(request: Tree)
    ensures
        chat_request(request) is Object,
        chat_request(request).get("model"@) == Some(
            match request.get("model"@) {
                Some(Tree::Text(model)) => Tree::Text(model),
                _ => Tree::Text("gpt-4o-mini"@),
            },
        ),
        chat_request(request).get("tools"@) == Some(
            match request.get("tools"@) {
                Some(tools) => tools,
                None => Tree::List(Seq::empty()),
            },
        ),
        chat_request(request).get("tool_choice"@) == Some(
            match request.get("tool_choice"@) {
                Some(choice) => choice,
                None => Tree::Text("auto"@),
            },
        ),
        chat_request(request).get("parallel_tool_calls"@) == Some(
            Tree::Bool(request.get("parallel_tool_calls"@) != Some(Tree::Bool(false))),
        ),
        chat_request(request).get("stream"@) == Some(
            Tree::Bool(request.get("stream"@) == Some(Tree::Bool(true))),
        ),
        chat_request(request).get("stream_options"@) == if request.get("stream"@) == Some(
            Tree::Bool(true),
        ) {
            Some(Tree::object().with("include_usage"@, Tree::Bool(true)))
        } else {
            None
        },
        forall|key: Seq<char>| #[trigger]
            chat_request(request)->Object_0.contains_key(key) ==> key == "model"@ || key
                == "messages"@ || key == "tools"@ || key == "tool_choice"@ || key
                == "parallel_tool_calls"@ || key == "stream"@ || key == "stream_options"@ || key
                == "response_format"@,
{
    law_chat_request_members(request);
    lemma_keys_of_chat_requests();
    assert(chat_request(request).get("stream_options"@) == streamed_chat_request(request).get(
        "stream_options"@,
    ));
}

/// The keys of a chat request differ.
proof fn lemma_keys_of_chat_requests()
    ensures
        "stream_options"@ != "response_format"@,
        "stream_options"@ != "model"@,
        "stream_options"@ != "messages"@,
        "stream_options"@ != "tools"@,
        "stream_options"@ != "tool_choice"@,
        "stream_options"@ != "parallel_tool_calls"@,
        "stream_options"@ != "stream"@,
{
    reveal_strlit("model");
    assert("model"@.len() == 5);
    reveal_strlit("messages");
    assert("messages"@.len() == 8);
    reveal_strlit("tools");
    assert("tools"@.len() == 5);
    reveal_strlit("tool_choice");
    assert("tool_choice"@.len() == 11);
    reveal_strlit("parallel_tool_calls");
    assert("parallel_tool_calls"@.len() == 19);
    reveal_strlit("stream");
    assert("stream"@.len() == 6);
    reveal_strlit("stream_options");
    assert("stream_options"@.len() == 14);
    reveal_strlit("response_format");
    assert("response_format"@.len() == 15);
}

/// A schema for the answer is passed on with its name and its strictness, and without a schema no
/// format is asked for.
pub proof fn law_schemas_are_passed_on(request: Tree, text: Tree, format: Tree)
    ensures
        request.get("text"@) == Some(text) && text.get("format"@) == Some(format) ==> (format.get(
            "schema"@,
        ) matches Some(schema) ==> chat_request(request).get("response_format"@) == Some(
            Tree::object().with("type"@, Tree::Text("json_schema"@)).with(
                "json_schema"@,
                Tree::object().with(
                    "name"@,
                    match format.get("name"@) {
                        Some(Tree::Text(name)) => Tree::Text(name),
                        _ => Tree::Text("response_format"@),
                    },
                ).with("schema"@, schema).with(
                    "strict"@,
                    Tree::Bool(format.get("strict"@) != Some(Tree::Bool(false))),
                ),
            ),
        )),
        request.get("text"@) == Some(text) && text.get("format"@) == Some(format) && format.get(
            "schema"@,
        ) is None ==> chat_request(request).get("response_format"@) is None,
        request.get("text"@) == Some(text) && text.get("format"@) is None ==> chat_request(
            request,
        ).get("response_format"@) is None,
        request.get("text"@) is None ==> chat_request(request).get("response_format"@) is None,
{
    law_chat_request_members(request);
}

/// The messages of a chat request are the instructions, where they are a text that is not empty,
/// followed by one message for each input item of a kind that a chat knows, in their order. The
/// result is the positions of these items.
pub proof fn law_every_known_item_becomes_a_message(request: Tree) -> (at: Seq<int>)
    ensures
        ({
            let items = match request.get("input"@) {
                Some(Tree::List(items)) => items,
                _ => Seq::empty(),
            };
            let told = match request.get("instructions"@) {
                Some(Tree::Text(instructions)) => if instructions.len() > 0 {
                    seq![
                        Tree::object().with("role"@, Tree::Text("system"@)).with(
                            "content"@,
                            Tree::Text(instructions),
                        ),
                    ]
                } else {
                    Seq::empty()
                },
                _ => Seq::empty(),
            };
            &&& forall|j: int, k: int| 0 <= j < k < at.len() ==> at[j] < at[k]
            &&& forall|k: int|
                0 <= k < at.len() ==> 0 <= #[trigger] at[k] < items.len() && is_known(items[at[k]])
            &&& forall|i: int|
                0 <= i < items.len() && is_known(#[trigger] items[i]) ==> at.contains(i)
            &&& chat_request(request).get("messages"@) matches Some(Tree::List(messages))
            &&& messages.len() == told.len() + at.len()
            &&& forall|i: int| 0 <= i < told.len() ==> #[trigger] messages[i] == told[i]
            &&& forall|k: int|
                0 <= k < at.len() ==> chat_message(items[#[trigger] at[k]]) == Some(
                    messages[told.len() + k],
                )
        }),
{
    let items = match request.get("input"@) {
        Some(Tree::List(items)) => items,
        _ => Seq::empty(),
    };
    law_chat_request_members(request);
    let at = lemma_messages_of_items(items);
    let told = instruction_messages(request);
    assert forall|k: int| 0 <= k < at.len() implies chat_message(items[#[trigger] at[k]]) == Some(
        request_messages(request)[told.len() + k],
    ) by {
        assert(request_messages(request)[told.len() + k] == chat_messages(items)[k]);
    }
    at
}

/// An input item of a kind that a chat knows.
pub open spec fn is_known(item: Tree) -> bool {
    ||| item.get("type"@) == Some(Tree::Text("message"@))
    ||| item.get("type"@) == Some(Tree::Text("function_call"@))
    ||| item.get("type"@) == Some(Tree::Text("function_call_output"@))
    ||| item.get("type"@) == Some(Tree::Text("custom_tool_call_output"@))
    ||| item.get("type"@) == Some(Tree::Text("mcp_tool_call_output"@))
}

/// The messages of input items.
proof fn lemma_messages_of_items(items: Seq<Tree>) -> (at: Seq<int>)
    ensures
        at.len() == chat_messages(items).len(),
        forall|j: int, k: int| 0 <= j < k < at.len() ==> at[j] < at[k],
        forall|k: int|
            0 <= k < at.len() ==> 0 <= #[trigger] at[k] < items.len() && is_known(items[at[k]])
                && chat_message(items[at[k]]) == Some(chat_messages(items)[k]),
        forall|i: int| 0 <= i < items.len() && is_known(#[trigger] items[i]) ==> at.contains(i),
    decreases items.len(),
{
    if items.len() == 0 {
        Seq::empty()
    } else {
        let shorter = items.drop_last();
        let before = lemma_messages_of_items(shorter);
        law_items_become_messages(items.last());
        let last = items.len() - 1;
        assert forall|k: int| 0 <= k < before.len() implies 0 <= #[trigger] before[k] < last
            && is_known(items[before[k]]) && chat_message(items[before[k]]) == Some(
            chat_messages(shorter)[k],
        ) by {
            assert(items[before[k]] == shorter[before[k]]);
        }
        if chat_message(items.last()) is Some {
            let at = before.push(last);
            assert forall|i: int| 0 <= i < items.len() && is_known(
                #[trigger] items[i],
            ) implies at.contains(i) by {
                if i < last {
                    assert(shorter[i] == items[i]);
                    let k = choose|k: int| 0 <= k < before.len() && before[k] == i;
                    assert(at[k] == i);
                } else {
                    assert(at[before.len() as int] == i);
                }
            }
            at
        } else {
            assert forall|i: int| 0 <= i < items.len() && is_known(
                #[trigger] items[i],
            ) implies before.contains(i) by {
                assert(shorter[i] == items[i]);
            }
            before
        }
    }
}

/// What each kind of input item becomes. A message keeps its role, but for the developer's, and is
/// the user's without one. Outputs are the tool's, and calls are the assistant's. Any other item
/// becomes nothing.
pub proof fn law_items_become_messages(item: Tree)
    ensures
        item.get("type"@) == Some(Tree::Text("message"@)) ==> chat_message(item) == Some(
            Tree::object().with(
                "role"@,
                match item.get("role"@) {
                    Some(Tree::Text(role)) => if role == "developer"@ {
                        Tree::Text("system"@)
                    } else {
                        Tree::Text(role)
                    },
                    _ => Tree::Text("user"@),
                },
            ).with("content"@, chat_content(item.get("content"@))),
        ),
        item.get("type"@) == Some(Tree::Text("function_call_output"@)) || item.get("type"@) == Some(
            Tree::Text("custom_tool_call_output"@),
        ) ==> chat_message(item) == Some(
            Tree::object().with("role"@, Tree::Text("tool"@)).with(
                "tool_call_id"@,
                text_or(item.get("call_id"@), Seq::empty()),
            ).with("content"@, Tree::Text(output_text(item.get("output"@)))),
        ),
        item.get("type"@) == Some(Tree::Text("mcp_tool_call_output"@)) ==> chat_message(item)
            == Some(
            Tree::object().with("role"@, Tree::Text("tool"@)).with(
                "tool_call_id"@,
                text_or(item.get("call_id"@), Seq::empty()),
            ).with(
                "content"@,
                Tree::Text(
                    json_text(
                        match item.get("output"@) {
                            Some(output) => output,
                            None => Tree::Null,
                        },
                    ),
                ),
            ),
        ),
        item.get("type"@) == Some(Tree::Text("function_call"@)) ==> chat_message(item) == Some(
            Tree::object().with("role"@, Tree::Text("assistant"@)).with(
                "content"@,
                Tree::Text(Seq::empty()),
            ).with(
                "tool_calls"@,
                Tree::List(
                    seq![
                        Tree::object().with(
                            "id"@,
                            text_or(item.get("call_id"@), Seq::empty()),
                        ).with("type"@, Tree::Text("function"@)).with(
                            "function"@,
                            Tree::object().with(
                                "name"@,
                                text_or(item.get("name"@), "tool_call"@),
                            ).with("arguments"@, text_or(item.get("arguments"@), "{}"@)),
                        ),
                    ],
                ),
            ),
        ),
        !is_known(item) ==> chat_message(item) is None,
{
    reveal_strlit("message");
    assert("message"@.len() == 7);
    reveal_strlit("function_call_output");
    assert("function_call_output"@.len() == 20);
    reveal_strlit("custom_tool_call_output");
    assert("custom_tool_call_output"@.len() == 23);
    reveal_strlit("mcp_tool_call_output");
    assert("mcp_tool_call_output"@.len() == 20);
    reveal_strlit("function_call");
    assert("function_call"@.len() == 13);
    assert("mcp_tool_call_output"@[0] != "function_call_output"@[0]);
}

/// A member that is a text, or the text that stands for any other.
pub open spec fn text_or(member: Option<Tree>, missing: Seq<char>) -> Tree {
    match member {
        Some(Tree::Text(text)) => Tree::Text(text),
        _ => Tree::Text(missing),
    }
}

/// An item of a message's content that a chat can show as text.
pub open spec fn shows_text(item: Tree) -> bool {
    &&& item.get("type"@) == Some(Tree::Text("input_text"@)) || item.get("type"@) == Some(
        Tree::Text("output_text"@),
    )
    &&& item.get("text"@) matches Some(Tree::Text(_))
}

/// An item of a message's content that a chat can show as an image.
pub open spec fn shows_image(item: Tree) -> bool {
    &&& item.get("type"@) == Some(Tree::Text("input_image"@))
    &&& item.get("image_url"@) matches Some(Tree::Text(_))
}

/// No part of a message is lost and none is made up: what is shown are, one for one and in their
/// order, the items with a text and the images with a URL. A lone text stands by itself, and
/// anything else is a list with an entry for each. The result is the positions of the items shown.
pub proof fn law_no_part_is_lost(items: Seq<Tree>) -> (at: Seq<int>)
    ensures
        forall|j: int, k: int| 0 <= j < k < at.len() ==> at[j] < at[k],
        forall|k: int|
            0 <= k < at.len() ==> 0 <= #[trigger] at[k] < items.len() && (shows_text(items[at[k]])
                || shows_image(items[at[k]])),
        forall|i: int|
            0 <= i < items.len() && (shows_text(#[trigger] items[i]) || shows_image(items[i]))
                ==> at.contains(i),
        at.len() == 0 ==> chat_content(Some(Tree::List(items))) == Tree::Text(Seq::empty()),
        at.len() == 1 && shows_text(items[at[0]]) ==> items[at[0]].get("text"@) == Some(
            chat_content(Some(Tree::List(items))),
        ),
        at.len() > 1 || at.len() == 1 && shows_image(items[at[0]]) ==> (chat_content(
            Some(Tree::List(items)),
        ) matches Tree::List(entries) && entries.len() == at.len() && (forall|k: int|
            0 <= k < at.len() ==> {
                &&& shows_text(items[#[trigger] at[k]]) ==> entries[k] == Tree::object().with(
                    "type"@,
                    Tree::Text("text"@),
                ).with("text"@, items[at[k]].get("text"@)->0)
                &&& shows_image(items[at[k]]) ==> entries[k] == Tree::object().with(
                    "type"@,
                    Tree::Text("image_url"@),
                ).with(
                    "image_url"@,
                    Tree::object().with("url"@, items[at[k]].get("image_url"@)->0),
                )
            })),
{
    let at = lemma_parts_of_items(items);
    let parts = content_parts(items);
    lemma_content_kinds_differ();
    let written = parts.map_values(|part: Part| part_tree(part));
    assert forall|k: int| 0 <= k < at.len() implies written[k] == part_tree(
        content_part(items[#[trigger] at[k]])->0,
    ) by {}
    at
}

/// Content that is no list shows nothing.
pub proof fn law_content_is_a_list(content: Option<Tree>)
    requires
        !(content matches Some(Tree::List(_))),
    ensures
        chat_content(content) == Tree::Text(Seq::empty()),
{
}

/// The kinds of content differ.
proof fn lemma_content_kinds_differ()
    ensures
        "input_text"@ != "input_image"@,
        "output_text"@ != "input_image"@,
{
    reveal_strlit("input_text");
    assert("input_text"@.len() == 10);
    reveal_strlit("output_text");
    assert("output_text"@.len() == 11);
    reveal_strlit("input_image");
    assert("input_image"@.len() == 11);
    assert("input_image"@[0] != "output_text"@[0]);
}

/// The parts of a message's content.
proof fn lemma_parts_of_items(items: Seq<Tree>) -> (at: Seq<int>)
    ensures
        at.len() == content_parts(items).len(),
        forall|j: int, k: int| 0 <= j < k < at.len() ==> at[j] < at[k],
        forall|k: int|
            0 <= k < at.len() ==> 0 <= #[trigger] at[k] < items.len() && (shows_text(items[at[k]])
                || shows_image(items[at[k]])) && content_part(items[at[k]]) == Some(
                content_parts(items)[k],
            ),
        forall|i: int|
            0 <= i < items.len() && (shows_text(#[trigger] items[i]) || shows_image(items[i]))
                ==> at.contains(i),
    decreases items.len(),
{
    if items.len() == 0 {
        Seq::empty()
    } else {
        let shorter = items.drop_last();
        let before = lemma_parts_of_items(shorter);
        let last = items.len() - 1;
        lemma_content_kinds_differ();
        assert forall|k: int| 0 <= k < before.len() implies 0 <= #[trigger] before[k] < last && (
        shows_text(items[before[k]]) || shows_image(items[before[k]])) && content_part(
            items[before[k]],
        ) == Some(content_parts(shorter)[k]) by {
            assert(items[before[k]] == shorter[before[k]]);
        }
        if content_part(items.last()) is Some {
            let at = before.push(last);
            assert forall|i: int|
                0 <= i < items.len() && (shows_text(#[trigger] items[i]) || shows_image(
                    items[i],
                )) implies at.contains(i) by {
                if i < last {
                    assert(shorter[i] == items[i]);
                    let k = choose|k: int| 0 <= k < before.len() && before[k] == i;
                    assert(at[k] == i);
                } else {
                    assert(at[before.len() as int] == i);
                }
            }
            at
        } else {
            assert forall|i: int|
                0 <= i < items.len() && (shows_text(#[trigger] items[i]) || shows_image(
                    items[i],
                )) implies before.contains(i) by {
                assert(shorter[i] == items[i]);
            }
            before
        }
    }
}

/// An output that is a text is sent as it is, a missing one is empty, and one that is neither a
/// text nor a list is sent as JSON.
pub proof fn law_outputs_become_text(output: Tree, text: Seq<char>)
    ensures
        output_text(None) == Seq::<char>::empty(),
        output_text(Some(Tree::Text(text))) == text,
        !(output is Text) && !(output is List) ==> output_text(Some(output)) == json_text(output),
{
}

/// Of an output that is a list, the texts of its items are sent, all of them and in their order,
/// with a line feed between any two.
pub proof fn law_listed_outputs_are_joined(first: Seq<Tree>, item: Tree, second: Seq<Tree>)
    ensures
        output_text(Some(Tree::List(Seq::empty()))) == Seq::<char>::empty(),
        item.get("text"@) matches Some(Tree::Text(text)) ==> output_text(
            Some(Tree::List(seq![item])),
        ) == text,
        !(item.get("text"@) matches Some(Tree::Text(_))) ==> output_text(
            Some(Tree::List(first + seq![item] + second)),
        ) == output_text(Some(Tree::List(first + second))),
        has_text(first) && has_text(second) ==> output_text(Some(Tree::List(first + second)))
            == output_text(Some(Tree::List(first))) + "\n"@ + output_text(
            Some(Tree::List(second)),
        ),
{
    let none = Seq::<Tree>::empty();
    assert(joined(item_texts(none), "\n"@) =~= Seq::empty());
    assert(seq![item].drop_last() =~= none);
    assert(item_texts(seq![item].drop_last()) =~= Seq::empty());
    if item.get("text"@) matches Some(Tree::Text(_)) {
        assert(item_texts(seq![item]) =~= seq![item.get("text"@)->0->Text_0]);
    } else {
        lemma_item_texts_append(first + seq![item], second);
        lemma_item_texts_append(first, seq![item]);
        lemma_item_texts_append(first, second);
        assert(item_texts(seq![item]) =~= Seq::empty());
        assert(item_texts(first) + Seq::<Seq<char>>::empty() =~= item_texts(first));
    }
    if has_text(first) && has_text(second) {
        lemma_item_texts_append(first, second);
        lemma_has_text(first);
        lemma_has_text(second);
        lemma_joined_append(item_texts(first), item_texts(second), "\n"@);
    }
}

/// Whether an item has a text.
pub open spec fn has_text(items: Seq<Tree>) -> bool {
    exists|i: int|
        0 <= i < items.len() && ((#[trigger] items[i]).get("text"@) matches Some(Tree::Text(_)))
}

/// Items with a text among them give a text.
proof fn lemma_has_text(items: Seq<Tree>)
    requires
        has_text(items),
    ensures
        item_texts(items).len() > 0,
    decreases items.len(),
{
    let i = choose|i: int|
        0 <= i < items.len() && ((#[trigger] items[i]).get("text"@) matches Some(Tree::Text(_)));
    if i < items.len() - 1 {
        assert(items.drop_last()[i] == items[i]);
        lemma_has_text(items.drop_last());
    }
}

/// The texts of items in a row stand in a row.
proof fn lemma_item_texts_append(first: Seq<Tree>, second: Seq<Tree>)
    ensures
        item_texts(first + second) == item_texts(first) + item_texts(second),
    decreases second.len(),
{
    if second.len() == 0 {
        assert(first + second =~= first);
    } else {
        lemma_item_texts_append(first, second.drop_last());
        assert((first + second).drop_last() =~= first + second.drop_last());
        assert((first + second).last() == second.last());
    }
    assert(item_texts(first + second) =~= item_texts(first) + item_texts(second));
}

/// Texts that are joined in two parts are joined at once, with a separator between the parts.
pub proof fn lemma_joined_append(
    first: Seq<Seq<char>>,
    second: Seq<Seq<char>>,
    separator: Seq<char>,
)
    requires
        first.len() > 0,
        second.len() > 0,
    ensures
        joined(first + second, separator) == joined(first, separator) + separator + joined(
            second,
            separator,
        ),
    decreases second.len(),
{
    assert((first + second).drop_last() =~= first + second.drop_last());
    assert((first + second).last() == second.last());
    if second.len() == 1 {
        assert(first + second.drop_last() =~= first);
    } else {
        lemma_joined_append(first, second.drop_last(), separator);
    }
    assert(joined(first + second, separator) =~= joined(first, separator) + separator + joined(
        second,
        separator,
    ));
}

/// A body that can be read becomes the bytes of its chat request, with whether it asks for a
/// stream; any other is refused with what the reader reports.
pub proof fn law_requests_are_translated(body: Seq<u8>)
    ensures
        parsed_slice(body) matches Ok(request) ==> (mapped_request(body) matches Ok((sent, stream))
            && sent == json_bytes(chat_request(request)) && (stream <==> request.get("stream"@)
            == Some(Tree::Bool(true)))),
        parsed_slice(body) matches Err(reported) ==> (mapped_request(body) matches Err(failure)
            && failure.context == TranslateContext::ParseRequest && failure.cause == reported),
{
}

}
