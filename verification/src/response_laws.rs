//! What a response says, in terms of the chat response that it was made from.

#[allow(unused_imports)]
use crate::codec::{json_bytes, parsed_slice};
#[allow(unused_imports)]
use crate::error::{TranslateContext, TranslateFailure};
#[allow(unused_imports)]
use crate::json::Tree;
#[allow(unused_imports)]
use crate::request_laws::{lemma_joined_append, text_or};
#[allow(unused_imports)]
use crate::response::{
    called_items, counts_fit, mapped_response, message_text, output_items, part_text, part_texts,
    response_counts_fit, response_of_chat, said_items, tool_call_item, usage_report,
};
#[allow(unused_imports)]
use crate::text::joined;
use vstd::prelude::*;

verus! {

/// A response is a completed one with the identifier and the model of the chat response, or what
/// stands for them, and the report of its usage.
pub proof fn law_responses_are_completed(chat: Tree)
    ensures
        response_of_chat(chat) is Object,
        response_of_chat(chat).get("id"@) == Some(
            text_or(chat.get("id"@), "chatcmpl-proxy"@),
        ),
        response_of_chat(chat).get("object"@) == Some(Tree::Text("response"@)),
        response_of_chat(chat).get("status"@) == Some(Tree::Text("completed"@)),
        response_of_chat(chat).get("model"@) == Some(text_or(chat.get("model"@), Seq::empty())),
        response_of_chat(chat).get("usage"@) == Some(usage_report(chat.get("usage"@))),
        forall|key: Seq<char>| #[trigger]
            response_of_chat(chat)->Object_0.contains_key(key) ==> key == "id"@ || key == "object"@
                || key == "status"@ || key == "model"@ || key == "output"@ || key == "usage"@,
{
    lemma_keys_of_responses();
}

/// The keys of a response differ.
proof fn lemma_keys_of_responses()
    ensures
        "id"@ != "object"@,
        "id"@ != "status"@,
        "id"@ != "model"@,
        "id"@ != "output"@,
        "id"@ != "usage"@,
        "object"@ != "status"@,
        "object"@ != "model"@,
        "object"@ != "output"@,
        "object"@ != "usage"@,
        "status"@ != "model"@,
        "status"@ != "output"@,
        "status"@ != "usage"@,
        "model"@ != "output"@,
        "model"@ != "usage"@,
        "output"@ != "usage"@,
{
    reveal_strlit("id");
    assert("id"@.len() == 2);
    reveal_strlit("object");
    assert("object"@.len() == 6);
    reveal_strlit("status");
    assert("status"@.len() == 6);
    reveal_strlit("model");
    assert("model"@.len() == 5);
    reveal_strlit("output");
    assert("output"@.len() == 6);
    reveal_strlit("usage");
    assert("usage"@.len() == 5);
    assert("object"@[1] != "status"@[1]);
    assert("object"@[1] != "output"@[1]);
    assert("status"@[0] != "output"@[0]);
    assert("model"@[0] != "usage"@[0]);
}

/// The output item in which the assistant calls the function of a tool call.
pub open spec fn call_of(tool_call: Tree) -> Tree {
    let function = match tool_call.get("function"@) {
        Some(function) => function,
        None => Tree::Null,
    };
    Tree::object().with("type"@, Tree::Text("function_call"@)).with(
        "name"@,
        text_or(function.get("name"@), "tool_call"@),
    ).with("arguments"@, text_or(function.get("arguments"@), "{}"@)).with(
        "call_id"@,
        text_or(tool_call.get("id"@), Seq::empty()),
    )
}

/// Nothing of an answer is lost or made up: the output is what the first choice's message says,
/// unless that is empty, followed by each of its calls, in their order, whatever else the choice
/// holds.
pub proof fn law_answers_are_given(chat: Tree, choices: Seq<Tree>, message: Tree)
    requires
        chat.get("choices"@) == Some(Tree::List(choices)),
        choices.len() > 0,
        choices[0].get("message"@) == Some(message),
    ensures
        ({
            let text = message_text(message.get("content"@));
            let said: int = if text.len() > 0 { 1 } else { 0 };
            let calls = match message.get("tool_calls"@) {
                Some(Tree::List(calls)) => calls,
                _ => Seq::empty(),
            };
            &&& response_of_chat(chat).get("output"@) matches Some(Tree::List(output))
            &&& output.len() == said + calls.len()
            &&& said == 1 ==> output[0] == Tree::object().with("type"@, Tree::Text("message"@)).with(
                "role"@,
                Tree::Text("assistant"@),
            ).with(
                "content"@,
                Tree::List(
                    seq![
                        Tree::object().with("type"@, Tree::Text("output_text"@)).with(
                            "text"@,
                            Tree::Text(text),
                        ),
                    ],
                ),
            )
            &&& forall|k: int| 0 <= k < calls.len() ==> output[said + k] == call_of(#[trigger] calls[k])
        }),
{
    lemma_keys_of_responses();
    let output = output_items(chat);
    let calls = match message.get("tool_calls"@) {
        Some(Tree::List(calls)) => calls,
        _ => Seq::empty(),
    };
    let said = said_items(message).len() as int;
    assert forall|k: int| 0 <= k < calls.len() implies output[said + k] == call_of(
        #[trigger] calls[k],
    ) by {
        assert(output[said + k] == called_items(message)[k]);
        assert(called_items(message)[k] == tool_call_item(calls[k]));
    }
}

/// Without a message in a first choice there is no output.
pub proof fn law_no_message_no_output(chat: Tree)
    requires
        chat.get("choices"@) matches Some(Tree::List(choices)) ==> choices.len() == 0
            || choices[0].get("message"@) is None,
    ensures
        response_of_chat(chat).get("output"@) == Some(Tree::List(Seq::empty())),
{
    lemma_keys_of_responses();
}

/// Two answers whose first choices hold the same message give the same output.
pub proof fn law_only_the_message_matters(one: Tree, other: Tree, a: Seq<Tree>, b: Seq<Tree>)
    requires
        one.get("choices"@) == Some(Tree::List(a)),
        other.get("choices"@) == Some(Tree::List(b)),
        a.len() > 0,
        b.len() > 0,
        a[0].get("message"@) == b[0].get("message"@),
    ensures
        response_of_chat(one).get("output"@) == response_of_chat(other).get("output"@),
{
    lemma_keys_of_responses();
}

/// A content that is a text is what the message says, and one that is neither a text nor a list, or
/// is missing, says nothing.
pub proof fn law_plain_content_is_said(content: Tree, text: Seq<char>)
    ensures
        message_text(None) == Seq::<char>::empty(),
        message_text(Some(Tree::Text(text))) == text,
        !(content is Text) && !(content is List) ==> message_text(Some(content)) == Seq::<
            char,
        >::empty(),
{
}

/// The text of a part: that of a text part, or the value of an annotated text in any other.
pub open spec fn text_of_part(part: Tree) -> Seq<char> {
    if part.get("type"@) == Some(Tree::Text("text"@)) {
        match part.get("text"@) {
            Some(Tree::Text(text)) => text,
            _ => Seq::empty(),
        }
    } else {
        match part.get("text"@) {
            Some(annotated) => match annotated.get("value"@) {
                Some(Tree::Text(text)) => text,
                _ => Seq::empty(),
            },
            None => Seq::empty(),
        }
    }
}

/// A content that is a list says what its parts say, all of them and one after the other.
pub proof fn law_parts_are_said_in_a_row(first: Seq<Tree>, part: Tree, second: Seq<Tree>)
    ensures
        message_text(Some(Tree::List(Seq::empty()))) == Seq::<char>::empty(),
        message_text(Some(Tree::List(seq![part]))) == text_of_part(part),
        message_text(Some(Tree::List(first + second))) == message_text(Some(Tree::List(first)))
            + message_text(Some(Tree::List(second))),
{
    reveal_strlit("");
    let none = Seq::<Tree>::empty();
    assert(joined(part_texts(none), ""@) =~= Seq::empty());
    assert(seq![part].drop_last() =~= none);
    assert(part_texts(none) =~= Seq::empty());
    match part_text(part) {
        Some(text) => {
            assert(part_texts(seq![part]) =~= seq![text]);
        },
        None => {
            assert(part_texts(seq![part]) =~= Seq::empty());
        },
    }
    assert(joined(part_texts(seq![part]), ""@) =~= text_of_part(part));
    lemma_part_texts_append(first, second);
    let a = part_texts(first);
    let b = part_texts(second);
    if a.len() == 0 {
        assert(a + b =~= b);
    } else if b.len() == 0 {
        assert(a + b =~= a);
    } else {
        lemma_joined_append(a, b, ""@);
    }
    assert(joined(a + b, ""@) =~= joined(a, ""@) + joined(b, ""@));
}

/// The texts of parts in a row stand in a row.
proof fn lemma_part_texts_append(first: Seq<Tree>, second: Seq<Tree>)
    ensures
        part_texts(first + second) == part_texts(first) + part_texts(second),
    decreases second.len(),
{
    if second.len() == 0 {
        assert(first + second =~= first);
    } else {
        lemma_part_texts_append(first, second.drop_last());
        assert((first + second).drop_last() =~= first + second.drop_last());
        assert((first + second).last() == second.last());
    }
    assert(part_texts(first + second) =~= part_texts(first) + part_texts(second));
}

/// The number that a member gives: zero, unless it is an integer of 64 bits with a sign.
pub open spec fn number_at(usage: Tree, key: Seq<char>) -> int {
    match usage.get(key) {
        Some(Tree::Int(n)) => if i64::MIN <= n <= i64::MAX {
            n
        } else {
            0
        },
        _ => 0,
    }
}

/// Whether the report gives tokens as the usage does: those of the prompt as input, those of the
/// completion as output, and the total that the usage gives, or else their sum.
pub open spec fn reports(report: Tree, usage: Tree) -> bool {
    &&& report.get("input_tokens"@) == Some(Tree::Int(number_at(usage, "prompt_tokens"@)))
    &&& report.get("output_tokens"@) == Some(Tree::Int(number_at(usage, "completion_tokens"@)))
    &&& report.get("total_tokens"@) == Some(
        match usage.get("total_tokens"@) {
            Some(Tree::Int(n)) => if i64::MIN <= n <= i64::MAX {
                Tree::Int(n)
            } else {
                Tree::Int(
                    number_at(usage, "prompt_tokens"@) + number_at(usage, "completion_tokens"@),
                )
            },
            _ => Tree::Int(
                number_at(usage, "prompt_tokens"@) + number_at(usage, "completion_tokens"@),
            ),
        },
    )
    &&& report.get("input_tokens_details"@) == Some(
        Tree::object().with("cached_tokens"@, Tree::Int(0)),
    )
    &&& report.get("output_tokens_details"@) == Some(
        Tree::object().with("reasoning_tokens"@, Tree::Int(0)),
    )
    &&& report is Object
    &&& forall|key: Seq<char>| #[trigger]
        report->Object_0.contains_key(key) ==> key == "input_tokens"@ || key == "output_tokens"@
            || key == "total_tokens"@ || key == "input_tokens_details"@ || key
            == "output_tokens_details"@
}

/// Usage is reported as the upstream gives it, and as nothing where it gives none.
pub proof fn law_usage_is_reported(usage: Tree)
    ensures
        reports(usage_report(Some(usage)), usage),
        reports(usage_report(None), Tree::Null),
{
    reveal_strlit("input_tokens");
    assert("input_tokens"@.len() == 12);
    reveal_strlit("input_tokens_details");
    assert("input_tokens_details"@.len() == 20);
    reveal_strlit("output_tokens");
    assert("output_tokens"@.len() == 13);
    reveal_strlit("output_tokens_details");
    assert("output_tokens_details"@.len() == 21);
    reveal_strlit("total_tokens");
    assert("total_tokens"@.len() == 12);
    assert("input_tokens"@[0] != "total_tokens"@[0]);
}

/// Token counts can be added up exactly where their sum is an integer of 64 bits with a sign.
pub proof fn law_counts_that_fit(usage: Tree)
    ensures
        counts_fit(None),
        counts_fit(Some(usage)) <==> i64::MIN <= number_at(usage, "prompt_tokens"@) + number_at(
            usage,
            "completion_tokens"@,
        ) <= i64::MAX,
{
}

/// A body that can be read becomes the bytes of its response; any other is refused with what the
/// reader reports. Only the counts of its usage can stand in the way.
pub proof fn law_answers_are_translated(body: Seq<u8>)
    ensures
        parsed_slice(body) matches Ok(chat) ==> mapped_response(body) == Ok::<
            Seq<u8>,
            TranslateFailure,
        >(json_bytes(response_of_chat(chat))) && (response_counts_fit(body) <==> counts_fit(
            chat.get("usage"@),
        )),
        parsed_slice(body) matches Err(reported) ==> response_counts_fit(body) && (mapped_response(
            body,
        ) matches Err(failure) && failure.context == TranslateContext::ParseResponse
            && failure.cause == reported),
{
}

}
