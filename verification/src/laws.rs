//! What holds across the functions of the proxy.

#[allow(unused_imports)]
use crate::codec::parsed_str;
#[allow(unused_imports)]
use crate::config::UpstreamWireApi;
#[allow(unused_imports)]
use crate::error::TranslateFailure;
#[allow(unused_imports)]
use crate::headers::{
    content_type_line, forwarded_lines, has_content_type, is_ascii_line, is_content_type,
    is_managed, is_token_char, response_lines, returned_lines, valid_line, Line,
};
#[allow(unused_imports)]
use crate::json::Tree;
#[allow(unused_imports)]
use crate::proxy::{client_body, is_success, route_of, upstream_body, Route};
#[allow(unused_imports)]
use crate::request::{
    call_message, chat_content, chat_message, chat_messages, chat_request, content_part,
    content_parts, request_messages, response_format, wanted_format, wants_stream, Part,
    DEFAULT_CHAT_MODEL,
};
#[allow(unused_imports)]
use crate::response::{
    call_item, called_items, first_choice, message_item, message_text, said_items, tool_call_item,
};
#[allow(unused_imports)]
use crate::sse::{
    chunks, event_lines, is_done, last_line, lemma_chunks_append, lemma_first_line_carries,
    lemma_idle_line, lemma_last_line, lemma_last_line_after_feed, lemma_read_line_is_idle,
    line_is_idle, line_payloads, payload, payloads, read_line, returns_are_idle, starts_blank,
    stream_chunks, without_return,
};
#[allow(unused_imports)]
use crate::stream::{
    call_at, call_event, calls_after, calls_below, calls_in_order, choice_delta, completed_event,
    created_event, delta_event, delta_index, is_finished, item_event, law_calls_ascend,
    mapped_stream, progress, response_events, Call, Progress,
};
#[allow(unused_imports)]
use crate::text::{lemma_lowered_twice, lowered, or_default};
use vstd::prelude::*;
#[allow(unused_imports)]
use vstd::utf8::*;

verus! {

/// A chat request says what the request said: the model, the messages in their order, the tools
/// and the choice among them, and whether a stream is wanted. Usage is asked for exactly where a
/// stream is, and a response format is given exactly where the request has a schema.
pub proof fn law_chat_request_members(request: Tree)
    ensures
        chat_request(request).text_at("model"@) == Some(
            or_default(request.text_at("model"@), DEFAULT_CHAT_MODEL@),
        ),
        chat_request(request).list_at("messages"@) == Some(request_messages(request)),
        chat_request(request).get("tools"@) == Some(
            or_default(request.get("tools"@), Tree::List(Seq::empty())),
        ),
        chat_request(request).get("tool_choice"@) == Some(
            or_default(request.get("tool_choice"@), Tree::Text("auto"@)),
        ),
        chat_request(request).bool_at("parallel_tool_calls"@) == Some(
            or_default(request.bool_at("parallel_tool_calls"@), true),
        ),
        chat_request(request).bool_at("stream"@) == Some(wants_stream(request)),
        wants_stream(request) ==> (chat_request(request).get("stream_options"@) matches Some(options)
            && options.bool_at("include_usage"@) == Some(true)),
        !wants_stream(request) ==> chat_request(request).get("stream_options"@) is None,
        chat_request(request).get("response_format"@) == match wanted_format(request) {
            Some((format, schema)) => Some(response_format(format, schema)),
            None => None,
        },
{
    reveal_strlit("model");
    assert("model"@.len() == 5);
    reveal_strlit("messages");
    assert("messages"@.len() == 8);
    reveal_strlit("tools");
    assert("tools"@.len() == 5);
    reveal_strlit("tool_choice");
    assert("tool_choice"@.len() == 11);
    reveal_strlit("parallel_tool_calls");
    assert("parallel_tool_calls"@.len() == 19);
    reveal_strlit("stream");
    assert("stream"@.len() == 6);
    reveal_strlit("stream_options");
    assert("stream_options"@.len() == 14);
    reveal_strlit("response_format");
    assert("response_format"@.len() == 15);
    assert("model"@[0] != "tools"@[0]);
}

/// The messages keep the order of the input: what comes first in the input comes first in the
/// chat.
pub proof fn law_messages_keep_order(first: Seq<Tree>, second: Seq<Tree>)
    ensures
        chat_messages(first + second) == chat_messages(first) + chat_messages(second),
    decreases second.len(),
{
    if second.len() == 0 {
        assert(first + second =~= first);
        assert(chat_messages(first + second) =~= chat_messages(first) + chat_messages(second));
    } else {
        law_messages_keep_order(first, second.drop_last());
        assert((first + second).drop_last() =~= first + second.drop_last());
        assert((first + second).last() == second.last());
        assert(chat_messages(first + second) =~= chat_messages(first) + chat_messages(second));
    }
}

/// Every chat message has a role, and none is the developer's.
pub proof fn law_no_message_is_the_developers(item: Tree)
    ensures
        chat_message(item) matches Some(message) ==> message.text_at("role"@) is Some
            && message.text_at("role"@) != Some("developer"@),
{
    reveal_strlit("role");
    assert("role"@.len() == 4);
    reveal_strlit("content");
    assert("content"@.len() == 7);
    reveal_strlit("tool_call_id");
    assert("tool_call_id"@.len() == 12);
    reveal_strlit("tool_calls");
    assert("tool_calls"@.len() == 10);
    reveal_strlit("developer");
    assert("developer"@.len() == 9);
    reveal_strlit("system");
    assert("system"@.len() == 6);
    reveal_strlit("user");
    assert("user"@.len() == 4);
    reveal_strlit("tool");
    assert("tool"@.len() == 4);
    reveal_strlit("assistant");
    assert("assistant"@.len() == 9);
    assert("developer"@[0] != "assistant"@[0]);
}

/// A function call survives the way to the client and back: the output item that it becomes is
/// sent upstream again as the same call.
pub proof fn law_call_survives(name: Seq<char>, arguments: Seq<char>, call_id: Seq<char>)
    ensures
        chat_message(call_item(name, arguments, call_id)) == Some(
            call_message(call_id, name, arguments),
        ),
        call_message(call_id, name, arguments).list_at("tool_calls"@) matches Some(calls)
            && calls.len() == 1 && tool_call_item(calls[0]) == call_item(name, arguments, call_id),
{
    reveal_strlit("type");
    assert("type"@.len() == 4);
    reveal_strlit("name");
    assert("name"@.len() == 4);
    reveal_strlit("arguments");
    assert("arguments"@.len() == 9);
    reveal_strlit("call_id");
    assert("call_id"@.len() == 7);
    reveal_strlit("message");
    assert("message"@.len() == 7);
    reveal_strlit("function_call_output");
    assert("function_call_output"@.len() == 20);
    reveal_strlit("custom_tool_call_output");
    assert("custom_tool_call_output"@.len() == 23);
    reveal_strlit("mcp_tool_call_output");
    assert("mcp_tool_call_output"@.len() == 20);
    reveal_strlit("function_call");
    assert("function_call"@.len() == 13);
    reveal_strlit("id");
    assert("id"@.len() == 2);
    reveal_strlit("function");
    assert("function"@.len() == 8);
    reveal_strlit("role");
    assert("role"@.len() == 4);
    reveal_strlit("content");
    assert("content"@.len() == 7);
    reveal_strlit("tool_calls");
    assert("tool_calls"@.len() == 10);
    assert("type"@[0] != "name"@[0]);
    assert("role"@[0] != "name"@[0]);
}

/// What the assistant says survives the way to the client and back: the output item that it
/// becomes is sent upstream again as the same text.
pub proof fn law_message_survives(text: Seq<char>)
    ensures
        chat_message(message_item(text)) == Some(
            Tree::object().with("role"@, Tree::Text("assistant"@)).with(
                "content"@,
                Tree::Text(text),
            ),
        ),
        text.len() > 0 ==> said_items(chat_message(message_item(text))->0) == seq![
            message_item(text),
        ],
{
    reveal_strlit("type");
    assert("type"@.len() == 4);
    reveal_strlit("role");
    assert("role"@.len() == 4);
    reveal_strlit("content");
    assert("content"@.len() == 7);
    reveal_strlit("text");
    assert("text"@.len() == 4);
    reveal_strlit("message");
    assert("message"@.len() == 7);
    reveal_strlit("output_text");
    assert("output_text"@.len() == 11);
    reveal_strlit("developer");
    assert("developer"@.len() == 9);
    reveal_strlit("assistant");
    assert("assistant"@.len() == 9);
    assert("type"@[1] != "role"@[1]);
    assert("type"@[1] != "text"@[1]);
    assert("developer"@[0] != "assistant"@[0]);
    let part = Tree::object().with("type"@, Tree::Text("output_text"@)).with(
        "text"@,
        Tree::Text(text),
    );
    let parts = seq![part];
    assert(content_part(part) == Some(Part::Text(text)));
    assert(parts.drop_last() =~= Seq::empty());
    assert(content_parts(parts.drop_last()) =~= Seq::empty());
    assert(content_parts(parts) =~= seq![Part::Text(text)]);
}

/// A payload that marks an end, or that is no JSON, changes nothing.
pub proof fn law_other_payloads_are_passed_over(
    first: Seq<Seq<char>>,
    payload: Seq<char>,
    second: Seq<Seq<char>>,
)
    requires
        is_done(payload) || parsed_str(payload) is None,
    ensures
        chunks(first + seq![payload] + second) == chunks(first + second),
    decreases second.len(),
{
    let all = first + seq![payload] + second;
    if second.len() == 0 {
        assert(all.drop_last() =~= first);
        assert(first + second =~= first);
        assert(all.last() == payload);
    } else {
        law_other_payloads_are_passed_over(first, payload, second.drop_last());
        assert(all.drop_last() =~= first + seq![payload] + second.drop_last());
        assert((first + second).drop_last() =~= first + second.drop_last());
        assert(all.last() == second.last());
        assert((first + second).last() == second.last());
    }
}

/// Whether a line adds nothing to what a stream says: it is no data line, or it marks an end, or
/// what it carries is no JSON.
pub open spec fn is_passed_over(line: Seq<char>) -> bool {
    payload(line) matches Some(carried) ==> is_done(carried) || parsed_str(carried) is None
}

/// A line that is passed over gives no document.
proof fn lemma_passed_over_line(line: Seq<char>)
    ensures
        is_passed_over(line) <==> chunks(line_payloads(line)) == Seq::<Tree>::empty(),
{
    if let Some(carried) = payload(line) {
        assert(seq![carried].drop_last() =~= Seq::empty());
        assert(chunks(seq![carried].drop_last()) =~= Seq::empty());
        if !is_passed_over(line) {
            assert(chunks(seq![carried]).len() == 1);
        }
    }
}

/// A line that is passed over changes nothing of what the whole stream says. Where it makes the
/// line in front of it the last of its block, or keeps it from being that, a carriage return at the
/// end of that line has to be idle.
proof fn lemma_line_is_passed_over(first: Seq<char>, line: Seq<char>, second: Seq<char>)
    requires
        first.len() == 0 || first.last() == '\n',
        first.len() > 0 ==> (line.len() == 0 <==> starts_blank(second)) || line_is_idle(
            last_line(first.drop_last()),
        ),
        !line.contains('\n'),
        is_passed_over(read_line(line, second)),
    ensures
        stream_chunks(first + line + "\n"@ + second) == stream_chunks(first + second),
    decreases first.len(),
{
    reveal_strlit("\n");
    let added = line + "\n"@ + second;
    assert(first + line + "\n"@ + second =~= first + added);
    if first.len() == 0 {
        assert(first + added =~= added);
        assert(first + second =~= second);
        lemma_first_line_carries(line, second);
        lemma_passed_over_line(read_line(line, second));
        lemma_chunks_append(
            line_payloads(read_line(line, second)),
            payloads(event_lines(second)),
        );
        assert(stream_chunks(added) =~= stream_chunks(second));
    } else {
        let end = first.index_of_first('\n')->0;
        first.index_of_first_ensures('\n');
        assert(first.contains(first.last()));
        let head = first.take(end);
        let tail = first.skip(end + 1);
        assert(first =~= head + "\n"@ + tail);
        assert(first + added =~= head + "\n"@ + (tail + added));
        assert(first + second =~= head + "\n"@ + (tail + second));
        lemma_first_line_carries(head, tail + added);
        lemma_first_line_carries(head, tail + second);
        let with = line_payloads(read_line(head, tail + added));
        let without = line_payloads(read_line(head, tail + second));
        if tail.len() > 0 {
            assert((tail + added)[0] == tail[0]);
            assert((tail + second)[0] == tail[0]);
            assert(tail.last() == first.last());
            lemma_last_line_after_feed(head, tail.drop_last());
            assert(first.drop_last() =~= head + "\n"@ + tail.drop_last());
        } else {
            assert(tail + added =~= added);
            assert(tail + second =~= second);
            assert(first.drop_last() =~= head);
            let before = lemma_last_line(head);
            if before.len() > 0 {
                assert(head[before.len() - 1] == '\n');
            }
            assert(last_line(head) =~= head);
            if line.len() > 0 {
                assert(line.contains(line[0]));
                assert(added[0] == line[0]);
            }
            if starts_blank(added) != starts_blank(second) {
                lemma_idle_line(head);
            }
        }
        assert(chunks(with) == chunks(without));
        lemma_line_is_passed_over(tail, line, second);
        assert(tail + line + "\n"@ + second =~= tail + added);
        lemma_chunks_append(with, payloads(event_lines(tail + added)));
        lemma_chunks_append(without, payloads(event_lines(tail + second)));
    }
}

/// A line that is passed over stays so without a carriage return at its end, where that is idle.
proof fn lemma_idle_line_is_passed_over(line: Seq<char>)
    requires
        is_passed_over(line),
        line_is_idle(line),
    ensures
        is_passed_over(without_return(line)),
{
    lemma_idle_line(line);
    lemma_passed_over_line(line);
    lemma_passed_over_line(without_return(line));
}

/// A line that is no data line, marks an end or carries no JSON changes nothing, wherever it is put
/// between the lines of a stream: what the stream says and what becomes of it stay the same, and
/// what comes after an end mark is still translated.
///
/// A carriage return in front of a line feed belongs to the line end, except in the last line of a
/// block, and the line that is put in may end a block or be in the way of one. So where it or the
/// line in front of it ends in a carriage return, the payload in front of that is to be one that a
/// carriage return does not change.
pub proof fn law_other_lines_are_passed_over(
    first: Seq<char>,
    line: Seq<char>,
    second: Seq<char>,
)
    requires
        first.len() == 0 || first.last() == '\n',
        !line.contains('\n'),
        is_passed_over(line),
        line_is_idle(line),
        first.len() > 0 ==> line_is_idle(last_line(first.drop_last())),
    ensures
        stream_chunks(first + line + "\n"@ + second) == stream_chunks(first + second),
        mapped_stream(encode_utf8(first + line + "\n"@ + second)) == mapped_stream(
            encode_utf8(first + second),
        ),
{
    broadcast use {encode_utf8_decode_utf8, encode_utf8_valid_utf8};

    lemma_idle_line_is_passed_over(line);
    lemma_line_is_passed_over(first, line, second);
}

/// A line that is no data line, marks an end or carries no JSON changes nothing of a translation,
/// wherever it is put between the lines of a stream: where both streams have been translated, which
/// shows that no carriage return in them matters, the outcomes are the same.
pub proof fn law_translations_pass_over_other_lines(
    first: Seq<char>,
    line: Seq<char>,
    second: Seq<char>,
)
    requires
        first.len() == 0 || first.last() == '\n',
        !line.contains('\n'),
        is_passed_over(line),
        returns_are_idle(first + line + "\n"@ + second),
        returns_are_idle(first + second),
    ensures
        stream_chunks(first + line + "\n"@ + second) == stream_chunks(first + second),
        mapped_stream(encode_utf8(first + line + "\n"@ + second)) == mapped_stream(
            encode_utf8(first + second),
        ),
{
    broadcast use {encode_utf8_decode_utf8, encode_utf8_valid_utf8};

    reveal_strlit("\n");
    let added = line + "\n"@ + second;
    if !starts_blank(second) {
        lemma_read_line_is_idle(first, line, second);
        lemma_idle_line_is_passed_over(line);
    }
    if first.len() > 0 && (line.len() == 0) != starts_blank(second) {
        let last = last_line(first.drop_last());
        let before = lemma_last_line(first.drop_last());
        assert(first =~= before + last + "\n"@);
        if starts_blank(second) {
            assert(line.contains(line[0]));
            assert(added[0] == line[0]);
            assert(first + line + "\n"@ + second =~= before + last + "\n"@ + added);
            lemma_read_line_is_idle(before, last, added);
        } else {
            assert(first + second =~= before + last + "\n"@ + second);
            lemma_read_line_is_idle(before, last, second);
        }
    }
    lemma_line_is_passed_over(first, line, second);
}

/// The client's credentials and host are never sent upstream.
pub proof fn law_credentials_stay_behind(lines: Seq<Line>)
    ensures
        forall|i: int|
            0 <= i < forwarded_lines(lines).len() ==> (#[trigger] forwarded_lines(lines)[i]).name
                != "authorization"@ && forwarded_lines(lines)[i].name != "host"@,
    decreases lines.len(),
{
    if lines.len() > 0 {
        law_credentials_stay_behind(lines.drop_last());
        assert forall|i: int| 0 <= i < forwarded_lines(lines).len() implies (
        #[trigger] forwarded_lines(lines)[i]).name != "authorization"@ && forwarded_lines(
            lines,
        )[i].name != "host"@ by {
            lemma_lowered_twice(lines.last().name);
            if i < forwarded_lines(lines.drop_last()).len() {
                assert(forwarded_lines(lines)[i] == forwarded_lines(lines.drop_last())[i]);
            }
        }
    }
}

/// Every other header that `reqwest` takes is sent upstream, with its name in lower case.
pub proof fn law_other_headers_are_sent(lines: Seq<Line>, i: int)
    requires
        0 <= i < lines.len(),
        valid_line(lines[i]) is Some,
        lowered(lines[i].name) != "authorization"@,
        lowered(lines[i].name) != "host"@,
    ensures
        forwarded_lines(lines).contains(valid_line(lines[i])->0),
    decreases lines.len(),
{
    let sent = valid_line(lines[i])->0;
    let before = forwarded_lines(lines.drop_last());
    let after = forwarded_lines(lines);
    if i == lines.len() - 1 {
        let name = lowered(lines[i].name);
        lemma_lowered_twice(lines[i].name);
        assert forall|k: int| 0 <= k < name.len() implies is_token_char(#[trigger] name[k]) by {
            assert(is_token_char(lines[i].name[k]));
        }
        assert(after.last() == sent);
    } else {
        assert(lines.drop_last()[i] == lines[i]);
        law_other_headers_are_sent(lines.drop_last(), i);
        let k = choose|k: int| 0 <= k < before.len() && before[k] == sent;
        assert(after[k] == sent);
    }
}

/// The headers that are passed on keep their order.
pub proof fn law_forwarded_headers_keep_order(first: Seq<Line>, second: Seq<Line>)
    ensures
        forwarded_lines(first + second) == forwarded_lines(first) + forwarded_lines(second),
    decreases second.len(),
{
    if second.len() == 0 {
        assert(first + second =~= first);
        assert(forwarded_lines(first + second) =~= forwarded_lines(first) + forwarded_lines(second));
    } else {
        law_forwarded_headers_keep_order(first, second.drop_last());
        assert((first + second).drop_last() =~= first + second.drop_last());
        assert((first + second).last() == second.last());
        assert(forwarded_lines(first + second) =~= forwarded_lines(first) + forwarded_lines(second));
    }
}

/// The server does not write the type of the content itself.
proof fn lemma_content_type_is_not_managed()
    ensures
        !is_managed("content-type"@),
{
    reveal_strlit("content-type");
    assert("content-type"@.len() == 12);
    reveal_strlit("content-length");
    assert("content-length"@.len() == 14);
    reveal_strlit("transfer-encoding");
    assert("transfer-encoding"@.len() == 17);
    reveal_strlit("connection");
    assert("connection"@.len() == 10);
    reveal_strlit("trailer");
    assert("trailer"@.len() == 7);
    reveal_strlit("upgrade");
    assert("upgrade"@.len() == 7);
}

/// What passes of the upstream's headers is none that the server writes itself, and where a type
/// of content is forced it is the only one.
proof fn lemma_returned_lines(lines: Seq<Line>, forced: Option<Seq<char>>)
    ensures
        forall|i: int|
            0 <= i < returned_lines(lines, forced).len() ==> !is_managed(
                (#[trigger] returned_lines(lines, forced)[i]).name,
            ),
        forced matches Some(content_type) ==> forall|i: int|
            0 <= i < returned_lines(lines, forced).len() && is_content_type(
                (#[trigger] returned_lines(lines, forced)[i]).name,
            ) ==> returned_lines(lines, forced)[i] == content_type_line(content_type),
    decreases lines.len(),
{
    lemma_content_type_is_not_managed();
    if lines.len() > 0 {
        lemma_returned_lines(lines.drop_last(), forced);
        let before = returned_lines(lines.drop_last(), forced);
        let after = returned_lines(lines, forced);
        assert forall|i: int| 0 <= i < after.len() implies !is_managed((#[trigger] after[i]).name)
            && (forced matches Some(content_type) ==> is_content_type(after[i].name) ==> after[i]
            == content_type_line(content_type)) by {
            if i < before.len() {
                assert(after[i] == before[i]);
            }
        }
    }
}

/// The headers that the server writes itself are never taken from the upstream.
pub proof fn law_managed_headers_are_dropped(lines: Seq<Line>, forced: Option<Seq<char>>)
    ensures
        forall|i: int|
            0 <= i < response_lines(lines, forced).len() ==> !is_managed(
                (#[trigger] response_lines(lines, forced)[i]).name,
            ),
{
    lemma_content_type_is_not_managed();
    lemma_returned_lines(lines, forced);
    assert forall|i: int| 0 <= i < response_lines(lines, forced).len() implies !is_managed(
        (#[trigger] response_lines(lines, forced)[i]).name,
    ) by {
        if i < returned_lines(lines, forced).len() {
            assert(response_lines(lines, forced)[i] == returned_lines(lines, forced)[i]);
        }
    }
}

/// An upstream header that gives the type of the content is answered by the forced one.
proof fn lemma_content_type_is_returned(lines: Seq<Line>, content_type: Seq<char>)
    requires
        has_content_type(lines),
        is_ascii_line(content_type_line(content_type)),
    ensures
        returned_lines(lines, Some(content_type)).contains(content_type_line(content_type)),
    decreases lines.len(),
{
    let forced = Some(content_type);
    let k = choose|k: int|
        0 <= k < lines.len() && !is_managed(lines[k].name) && #[trigger] is_content_type(
            lines[k].name,
        );
    let before = returned_lines(lines.drop_last(), forced);
    let after = returned_lines(lines, forced);
    if k == lines.len() - 1 {
        assert(after.last() == content_type_line(content_type));
    } else {
        assert(lines.drop_last()[k] == lines[k]);
        assert(is_content_type(lines.drop_last()[k].name));
        lemma_content_type_is_returned(lines.drop_last(), content_type);
        let i = choose|i: int|
            0 <= i < before.len() && before[i] == content_type_line(content_type);
        assert(after[i] == before[i]);
    }
}

/// A forced type of content is given, and no other is, whatever the upstream said.
pub proof fn law_forced_content_type_prevails(lines: Seq<Line>, content_type: Seq<char>)
    requires
        is_ascii_line(content_type_line(content_type)),
    ensures
        response_lines(lines, Some(content_type)).contains(content_type_line(content_type)),
        forall|i: int|
            0 <= i < response_lines(lines, Some(content_type)).len() && is_content_type(
                (#[trigger] response_lines(lines, Some(content_type))[i]).name,
            ) ==> response_lines(lines, Some(content_type))[i] == content_type_line(content_type),
{
    let forced = Some(content_type);
    let all = response_lines(lines, forced);
    lemma_returned_lines(lines, forced);
    if has_content_type(lines) {
        lemma_content_type_is_returned(lines, content_type);
    } else {
        assert(all.last() == content_type_line(content_type));
        assert forall|i: int| 0 <= i < all.len() && is_content_type(
            (#[trigger] all[i]).name,
        ) implies all[i] == content_type_line(content_type) by {
            if i < returned_lines(lines, forced).len() {
                assert(all[i] == returned_lines(lines, forced)[i]);
            }
        }
    }
}

/// Nothing but `POST /v1/responses` goes upstream, whatever else is enabled; without the shutdown
/// endpoint, everything else is refused.
pub proof fn law_only_responses_go_upstream(
    http_shutdown: bool,
    method: Seq<char>,
    path: Seq<char>,
)
    ensures
        route_of(http_shutdown, method, path) == Route::Forward <==> method == "POST"@ && path
            == "/v1/responses"@,
        !http_shutdown && !(method == "POST"@ && path == "/v1/responses"@) ==> route_of(
            http_shutdown,
            method,
            path,
        ).answer() == Some(403u16),
{
    reveal_strlit("GET");
    assert("GET"@.len() == 3);
    reveal_strlit("POST");
    assert("POST"@.len() == 4);
}

/// An upstream that speaks the Responses API gets the client's body as it is, and the client gets
/// the upstream's.
pub proof fn law_responses_pass_unchanged(status: u16, stream: bool, body: Seq<u8>)
    ensures
        upstream_body(UpstreamWireApi::Responses, body) matches Ok((sent, _)) && sent == body,
        client_body(UpstreamWireApi::Responses, status, stream, body) == Ok::<
            (Seq<u8>, Option<Seq<char>>),
            TranslateFailure,
        >((body, None)),
{
}

/// An answer that tells of a failure reaches the client as it is.
pub proof fn law_failures_pass_unchanged(
    api: UpstreamWireApi,
    status: u16,
    stream: bool,
    body: Seq<u8>,
)
    requires
        !is_success(status),
    ensures
        client_body(api, status, stream, body) == Ok::<
            (Seq<u8>, Option<Seq<char>>),
            TranslateFailure,
        >((body, None)),
{
}

/// What fragments of a call's arguments the deltas hold, one after the other.
pub open spec fn fragments(deltas: Seq<Tree>, index: usize) -> Seq<char>
    decreases deltas.len(),
{
    if deltas.len() == 0 {
        Seq::empty()
    } else if delta_index(deltas.last()) == index {
        fragments(deltas.drop_last(), index) + or_default(
            or_default(deltas.last().get("function"@), Tree::Null).text_at("arguments"@),
            Seq::empty(),
        )
    } else {
        fragments(deltas.drop_last(), index)
    }
}

/// The arguments of a call are the fragments that were sent for its position, in their order.
pub proof fn law_fragments_make_the_arguments(
    calls: Map<usize, Call>,
    deltas: Seq<Tree>,
    index: usize,
)
    ensures
        call_at(calls_after(calls, deltas), index).arguments == call_at(calls, index).arguments
            + fragments(deltas, index),
    decreases deltas.len(),
{
    if deltas.len() > 0 {
        law_fragments_make_the_arguments(calls, deltas.drop_last(), index);
    }
    assert(call_at(calls_after(calls, deltas), index).arguments =~= call_at(calls, index).arguments
        + fragments(deltas, index));
}

/// It does not matter in how many chunks the deltas of the calls come.
pub proof fn law_deltas_may_be_split(calls: Map<usize, Call>, first: Seq<Tree>, second: Seq<Tree>)
    ensures
        calls_after(calls, first + second) == calls_after(calls_after(calls, first), second),
    decreases second.len(),
{
    if second.len() == 0 {
        assert(first + second =~= first);
    } else {
        law_deltas_may_be_split(calls, first, second.drop_last());
        assert((first + second).drop_last() =~= first + second.drop_last());
        assert((first + second).last() == second.last());
    }
}

/// No calls come in no order.
proof fn lemma_no_calls(bound: nat)
    ensures
        calls_below(Map::empty(), bound) == Seq::<Call>::empty(),
    decreases bound,
{
    if bound > 0 {
        lemma_no_calls((bound - 1) as nat);
    }
}

/// Items are given once: when a message has been finished, nothing of it is left.
pub proof fn law_items_are_given_once(before: Progress, choice: Tree)
    requires
        is_finished(choice),
    ensures
        before.finished(choice).item_events() == Seq::<Tree>::empty(),
{
    lemma_no_calls((usize::MAX + 1) as nat);
    assert(before.finished(choice).item_events() =~= Seq::<Tree>::empty());
}

/// A message that is streamed and one that comes whole become the same items, where the stream
/// spelled out the same text and the same calls.
pub proof fn law_streamed_items_are_the_whole_ones(before: Progress, message: Tree)
    requires
        before.text == message_text(message.get("content"@)),
        ({
            let calls = or_default(message.list_at("tool_calls"@), Seq::empty());
            &&& calls.len() <= usize::MAX
            &&& forall|index: usize| #[trigger]
                before.calls.contains_key(index) <==> index < calls.len()
            &&& forall|i: int|
                0 <= i < calls.len() ==> tool_call_item(#[trigger] calls[i]) == call_item(
                    before.calls[i as usize].name,
                    before.calls[i as usize].arguments,
                    before.calls[i as usize].id,
                )
        }),
    ensures
        before.item_events() == (said_items(message) + called_items(message)).map_values(
            |item: Tree| item_event(item),
        ),
{
    let calls = or_default(message.list_at("tool_calls"@), Seq::empty());
    let indices = Seq::new(calls.len(), |i: int| i as usize);
    assert forall|index: usize| before.calls.contains_key(index) <==> #[trigger] indices.contains(
        index,
    ) by {
        if index < calls.len() {
            assert(indices[index as int] == index);
        }
    }
    law_calls_ascend(before.calls, indices);
    let whole = (said_items(message) + called_items(message)).map_values(
        |item: Tree| item_event(item),
    );
    let said = said_items(message).len() as int;
    assert(before.item_events().len() == whole.len());
    assert forall|i: int| 0 <= i < whole.len() implies before.item_events()[i] == whole[i] by {
        if i >= said {
            let k = i - said;
            assert(calls_in_order(before.calls)[k] == before.calls[indices[k]]);
            assert(called_items(message)[k] == tool_call_item(calls[k]));
        }
    }
    assert(before.item_events() =~= whole);
}

/// What kind of event an event is.
pub open spec fn event_type(event: Tree) -> Option<Seq<char>> {
    event.text_at("type"@)
}

/// The kinds of events, which differ.
proof fn lemma_event_types(id: Seq<char>, content: Seq<char>, item: Tree, usage: Option<Tree>)
    ensures
        event_type(created_event(id)) == Some("response.created"@),
        event_type(delta_event(content)) == Some("response.output_text.delta"@),
        event_type(item_event(item)) == Some("response.output_item.done"@),
        event_type(completed_event(id, usage)) == Some("response.completed"@),
        "response.created"@ != "response.output_text.delta"@,
        "response.created"@ != "response.output_item.done"@,
        "response.created"@ != "response.completed"@,
        "response.completed"@ != "response.output_text.delta"@,
        "response.completed"@ != "response.output_item.done"@,
{
    reveal_strlit("type");
    assert("type"@.len() == 4);
    reveal_strlit("response");
    assert("response"@.len() == 8);
    reveal_strlit("delta");
    assert("delta"@.len() == 5);
    reveal_strlit("item");
    assert("item"@.len() == 4);
    reveal_strlit("response.created");
    assert("response.created"@.len() == 16);
    reveal_strlit("response.output_text.delta");
    assert("response.output_text.delta"@.len() == 26);
    reveal_strlit("response.output_item.done");
    assert("response.output_item.done"@.len() == 25);
    reveal_strlit("response.completed");
    assert("response.completed"@.len() == 18);
    assert("type"@[0] != "item"@[0]);
}

/// Whether an event tells of the output: text that is added, or a whole item.
pub open spec fn tells_of_output(event: Tree) -> bool {
    event_type(event) == Some("response.output_text.delta"@) || event_type(event) == Some(
        "response.output_item.done"@,
    )
}

/// A response is opened by its first event, and not closed yet: all others tell of the output.
pub open spec fn is_orderly(before: Progress) -> bool {
    &&& before.created <==> before.events.len() > 0
    &&& forall|i: int|
        0 <= i < before.events.len() ==> {
            &&& event_type(#[trigger] before.events[i]) == Some("response.created"@) <==> i == 0
            &&& event_type(before.events[i]) != Some("response.completed"@)
            &&& i > 0 ==> tells_of_output(before.events[i])
        }
}

/// A further chunk keeps the order.
proof fn lemma_after_is_orderly(before: Progress, chunk: Tree)
    requires
        is_orderly(before),
    ensures
        is_orderly(before.after(chunk)),
        before.after(chunk).created,
{
    let noted = before.named(chunk).opened().metered(chunk);
    lemma_event_types(before.named(chunk).id, Seq::empty(), Tree::Null, None);
    assert(is_orderly(noted));
    if let Some(choice) = first_choice(chunk) {
        let said = noted.said(choice);
        if let Some(content) = choice_delta(choice).text_at("content"@) {
            lemma_event_types(Seq::empty(), content, Tree::Null, None);
        }
        assert(is_orderly(said));
        let called = said.called(choice);
        let after = called.finished(choice);
        let items = called.item_events();
        assert forall|i: int| 0 <= i < items.len() implies event_type(#[trigger] items[i]) == Some(
            "response.output_item.done"@,
        ) by {
            let said: int = if called.text.len() > 0 { 1 } else { 0 };
            if i < said {
                lemma_event_types(Seq::empty(), Seq::empty(), message_item(called.text), None);
            } else {
                let call = calls_in_order(called.calls)[i - said];
                assert(items[i] == call_event(call));
                lemma_event_types(
                    Seq::empty(),
                    Seq::empty(),
                    call_item(call.name, call.arguments, call.id),
                    None,
                );
            }
        }
        assert forall|i: int| 0 <= i < after.events.len() implies {
            &&& event_type(#[trigger] after.events[i]) == Some("response.created"@) <==> i == 0
            &&& event_type(after.events[i]) != Some("response.completed"@)
            &&& i > 0 ==> tells_of_output(after.events[i])
        } by {
            if i < called.events.len() {
                assert(after.events[i] == called.events[i]);
            } else {
                assert(after.events[i] == items[i - called.events.len()]);
            }
        }
    }
}

/// The events so far are in order.
proof fn lemma_progress_is_orderly(chunks: Seq<Tree>)
    ensures
        is_orderly(progress(chunks)),
    decreases chunks.len(),
{
    if chunks.len() > 0 {
        lemma_progress_is_orderly(chunks.drop_last());
        lemma_after_is_orderly(progress(chunks.drop_last()), chunks.last());
    }
}

/// A response stream is opened once, by its first event, and completed once, by its last, whatever
/// the chat stream was; every event between them adds text or gives a whole item.
pub proof fn law_streams_open_and_close_once(chunks: Seq<Tree>)
    ensures
        response_events(chunks).len() >= 2,
        forall|i: int|
            0 <= i < response_events(chunks).len() ==> {
                &&& event_type(#[trigger] response_events(chunks)[i]) == Some("response.created"@)
                    <==> i == 0
                &&& event_type(response_events(chunks)[i]) == Some("response.completed"@) <==> i
                    == response_events(chunks).len() - 1
                &&& 0 < i < response_events(chunks).len() - 1 ==> tells_of_output(
                    response_events(chunks)[i],
                )
            },
{
    lemma_progress_is_orderly(chunks);
    let before = progress(chunks);
    lemma_event_types(before.id, Seq::empty(), Tree::Null, before.usage);
    let opened = before.opened();
    assert(is_orderly(opened));
    let all = response_events(chunks);
    assert forall|i: int| 0 <= i < all.len() implies {
        &&& event_type(#[trigger] all[i]) == Some("response.created"@) <==> i == 0
        &&& event_type(all[i]) == Some("response.completed"@) <==> i == all.len() - 1
        &&& 0 < i < all.len() - 1 ==> tells_of_output(all[i])
    } by {
        if i < opened.events.len() {
            assert(all[i] == opened.events[i]);
        }
    }
}

/// The text that an event adds.
pub open spec fn added_text(event: Tree) -> Seq<char> {
    or_default(event.text_at("delta"@), Seq::empty())
}

/// The text of the message that an event gives whole, as it is sent upstream again.
pub open spec fn given_text(event: Tree) -> Seq<char> {
    match event.get("item"@) {
        Some(item) => if item.text_at("type"@) == Some("message"@) {
            or_default(chat_content(item.get("content"@)).as_text(), Seq::empty())
        } else {
            Seq::empty()
        },
        None => Seq::empty(),
    }
}

/// All text that events add, one after the other.
pub open spec fn added_texts(events: Seq<Tree>) -> Seq<char>
    decreases events.len(),
{
    if events.len() == 0 {
        Seq::empty()
    } else {
        added_texts(events.drop_last()) + added_text(events.last())
    }
}

/// All text of the messages that events give whole, one after the other.
pub open spec fn given_texts(events: Seq<Tree>) -> Seq<char>
    decreases events.len(),
{
    if events.len() == 0 {
        Seq::empty()
    } else {
        given_texts(events.drop_last()) + given_text(events.last())
    }
}

/// Whether an event gives a whole message.
pub open spec fn gives_message(event: Tree) -> bool {
    event.get("item"@) matches Some(item) && item.text_at("type"@) == Some("message"@)
}

/// What each kind of event adds and gives.
proof fn lemma_event_texts(id: Seq<char>, content: Seq<char>, call: Call, usage: Option<Tree>)
    ensures
        added_text(created_event(id)) == Seq::<char>::empty(),
        given_text(created_event(id)) == Seq::<char>::empty(),
        added_text(delta_event(content)) == content,
        given_text(delta_event(content)) == Seq::<char>::empty(),
        added_text(item_event(message_item(content))) == Seq::<char>::empty(),
        given_text(item_event(message_item(content))) == content,
        added_text(call_event(call)) == Seq::<char>::empty(),
        given_text(call_event(call)) == Seq::<char>::empty(),
        added_text(completed_event(id, usage)) == Seq::<char>::empty(),
        given_text(completed_event(id, usage)) == Seq::<char>::empty(),
        created_event(id).text_at("delta"@) is None,
        delta_event(content).text_at("delta"@) == Some(content),
        item_event(message_item(content)).text_at("delta"@) is None,
        call_event(call).text_at("delta"@) is None,
        completed_event(id, usage).text_at("delta"@) is None,
        !gives_message(created_event(id)),
        !gives_message(delta_event(content)),
        !gives_message(call_event(call)),
        !gives_message(completed_event(id, usage)),
{
    reveal_strlit("type");
    assert("type"@.len() == 4);
    reveal_strlit("response");
    assert("response"@.len() == 8);
    reveal_strlit("delta");
    assert("delta"@.len() == 5);
    reveal_strlit("item");
    assert("item"@.len() == 4);
    reveal_strlit("message");
    assert("message"@.len() == 7);
    reveal_strlit("function_call");
    assert("function_call"@.len() == 13);
    reveal_strlit("name");
    assert("name"@.len() == 4);
    reveal_strlit("arguments");
    assert("arguments"@.len() == 9);
    reveal_strlit("call_id");
    assert("call_id"@.len() == 7);
    reveal_strlit("role");
    assert("role"@.len() == 4);
    reveal_strlit("content");
    assert("content"@.len() == 7);
    assert("type"@[0] != "item"@[0]);
    assert("type"@[0] != "name"@[0]);
    assert("type"@[0] != "role"@[0]);
    law_message_survives(content);
    let item = message_item(content);
    assert(chat_message(item)->0.get("content"@) == Some(chat_content(item.get("content"@))));
}

/// The texts of events in a row stand in a row.
proof fn lemma_texts_append(first: Seq<Tree>, second: Seq<Tree>)
    ensures
        added_texts(first + second) == added_texts(first) + added_texts(second),
        given_texts(first + second) == given_texts(first) + given_texts(second),
    decreases second.len(),
{
    if second.len() == 0 {
        assert(first + second =~= first);
    } else {
        lemma_texts_append(first, second.drop_last());
        assert((first + second).drop_last() =~= first + second.drop_last());
        assert((first + second).last() == second.last());
    }
    assert(added_texts(first + second) =~= added_texts(first) + added_texts(second));
    assert(given_texts(first + second) =~= given_texts(first) + given_texts(second));
}

/// Calls add no text and give none.
proof fn lemma_calls_hold_no_text(calls: Seq<Call>)
    ensures
        added_texts(calls.map_values(|call: Call| call_event(call))) == Seq::<char>::empty(),
        given_texts(calls.map_values(|call: Call| call_event(call))) == Seq::<char>::empty(),
    decreases calls.len(),
{
    let events = calls.map_values(|call: Call| call_event(call));
    if calls.len() > 0 {
        lemma_calls_hold_no_text(calls.drop_last());
        assert(events.drop_last() =~= calls.drop_last().map_values(|call: Call| call_event(call)));
        lemma_event_texts(Seq::empty(), Seq::empty(), calls.last(), None);
        assert(events.last() == call_event(calls.last()));
    }
    assert(added_texts(events) =~= Seq::<char>::empty());
    assert(given_texts(events) =~= Seq::<char>::empty());
}

/// The items of a message add no text and give the text of the message.
proof fn lemma_items_give_text(before: Progress)
    ensures
        added_texts(before.item_events()) == Seq::<char>::empty(),
        given_texts(before.item_events()) == before.text,
{
    let calls = calls_in_order(before.calls);
    let called = calls.map_values(|call: Call| call_event(call));
    lemma_calls_hold_no_text(calls);
    if before.text.len() > 0 {
        let said = seq![item_event(message_item(before.text))];
        lemma_event_texts(Seq::empty(), before.text, Call::nothing(), None);
        lemma_texts_append(said, called);
        assert(said.drop_last() =~= Seq::empty());
        assert(added_texts(said.drop_last()) =~= Seq::<char>::empty());
        assert(given_texts(said.drop_last()) =~= Seq::<char>::empty());
        assert(added_texts(said) =~= Seq::<char>::empty());
        assert(given_texts(said) =~= before.text);
        assert(given_texts(before.item_events()) =~= before.text);
        assert(added_texts(before.item_events()) =~= Seq::<char>::empty());
    } else {
        assert(before.item_events() =~= called);
        assert(before.text =~= Seq::<char>::empty());
    }
}

/// The content of a chunk of a chat stream: that of its first choice, where it is a text.
pub open spec fn chunk_content(chunk: Tree) -> Option<Seq<char>> {
    match first_choice(chunk) {
        Some(choice) => choice_delta(choice).text_at("content"@),
        None => None,
    }
}

/// The text that a chunk of a chat stream adds.
pub open spec fn spoken_text(chunk: Tree) -> Seq<char> {
    or_default(chunk_content(chunk), Seq::empty())
}

/// All text that the chunks of a chat stream add, one after the other.
pub open spec fn spoken_texts(chunks: Seq<Tree>) -> Seq<char>
    decreases chunks.len(),
{
    if chunks.len() == 0 {
        Seq::empty()
    } else {
        spoken_texts(chunks.drop_last()) + spoken_text(chunks.last())
    }
}

/// The events so far have added the text of the chunks, and have given it but for what is still to
/// be given.
proof fn lemma_progress_texts(chunks: Seq<Tree>)
    ensures
        added_texts(progress(chunks).events) == spoken_texts(chunks),
        given_texts(progress(chunks).events) + progress(chunks).text == spoken_texts(chunks),
    decreases chunks.len(),
{
    if chunks.len() == 0 {
        assert(given_texts(progress(chunks).events) + progress(chunks).text =~= spoken_texts(
            chunks,
        ));
    } else {
        lemma_progress_texts(chunks.drop_last());
        let spoken = spoken_texts(chunks.drop_last());
        let before = progress(chunks.drop_last());
        let chunk = chunks.last();
        let noted = before.named(chunk).opened().metered(chunk);
        lemma_event_texts(before.named(chunk).id, Seq::empty(), Call::nothing(), None);
        assert(before.events.push(created_event(before.named(chunk).id)).drop_last()
            =~= before.events);
        assert(added_texts(noted.events) =~= spoken);
        assert(given_texts(noted.events) + noted.text =~= spoken);
        if let Some(choice) = first_choice(chunk) {
            let said = noted.said(choice);
            if let Some(content) = choice_delta(choice).text_at("content"@) {
                lemma_event_texts(Seq::empty(), content, Call::nothing(), None);
                assert(said.events.drop_last() =~= noted.events);
            }
            assert(added_texts(said.events) =~= spoken + spoken_text(chunk));
            assert(given_texts(said.events) + said.text =~= spoken + spoken_text(chunk));
            let called = said.called(choice);
            lemma_items_give_text(called);
            lemma_texts_append(called.events, called.item_events());
            let after = called.finished(choice);
            assert(added_texts(after.events) =~= spoken + spoken_text(chunk));
            assert(given_texts(after.events) + after.text =~= spoken + spoken_text(chunk));
        } else {
            assert(spoken + spoken_text(chunk) =~= spoken);
        }
    }
}

/// No text is lost or made up: the deltas of a response stream add what the chat stream said, and
/// the whole messages give it, but for what was said after the last of them.
pub proof fn law_no_text_is_lost(chunks: Seq<Tree>)
    ensures
        added_texts(response_events(chunks)) == spoken_texts(chunks),
        given_texts(response_events(chunks)) + progress(chunks).text == spoken_texts(chunks),
{
    let before = progress(chunks);
    let opened = before.opened();
    let all = response_events(chunks);
    lemma_progress_texts(chunks);
    lemma_event_texts(before.id, Seq::empty(), Call::nothing(), before.usage);
    assert(before.events.push(created_event(before.id)).drop_last() =~= before.events);
    assert(added_texts(opened.events) =~= added_texts(before.events));
    assert(given_texts(opened.events) =~= given_texts(before.events));
    assert(all.drop_last() =~= opened.events);
    assert(added_texts(all) =~= added_texts(opened.events));
    assert(given_texts(all) =~= given_texts(opened.events));
}

/// The contents of the chunks that have one, in their order.
pub open spec fn chunk_contents(chunks: Seq<Tree>) -> Seq<Seq<char>>
    decreases chunks.len(),
{
    if chunks.len() == 0 {
        Seq::empty()
    } else {
        match chunk_content(chunks.last()) {
            Some(content) => chunk_contents(chunks.drop_last()).push(content),
            None => chunk_contents(chunks.drop_last()),
        }
    }
}

/// The deltas of the events that have one, in their order.
pub open spec fn event_deltas(events: Seq<Tree>) -> Seq<Seq<char>>
    decreases events.len(),
{
    if events.len() == 0 {
        Seq::empty()
    } else {
        match events.last().text_at("delta"@) {
            Some(delta) => event_deltas(events.drop_last()).push(delta),
            None => event_deltas(events.drop_last()),
        }
    }
}

/// What gives a whole item is no delta, and no message that is given is empty.
proof fn lemma_item_events(before: Progress)
    ensures
        forall|i: int|
            0 <= i < before.item_events().len() ==> {
                &&& (#[trigger] before.item_events()[i]).text_at("delta"@) is None
                &&& gives_message(before.item_events()[i]) ==> given_text(
                    before.item_events()[i],
                ).len() > 0
            },
{
    let items = before.item_events();
    assert forall|i: int| 0 <= i < items.len() implies {
        &&& (#[trigger] items[i]).text_at("delta"@) is None
        &&& gives_message(items[i]) ==> given_text(items[i]).len() > 0
    } by {
        let said: int = if before.text.len() > 0 { 1 } else { 0 };
        if i < said {
            lemma_event_texts(Seq::empty(), before.text, Call::nothing(), None);
        } else {
            let call = calls_in_order(before.calls)[i - said];
            assert(items[i] == call_event(call));
            lemma_event_texts(Seq::empty(), Seq::empty(), call, None);
        }
    }
}

/// Events without a delta add none to those before them.
proof fn lemma_no_deltas(first: Seq<Tree>, second: Seq<Tree>)
    requires
        forall|i: int| 0 <= i < second.len() ==> (#[trigger] second[i]).text_at("delta"@) is None,
    ensures
        event_deltas(first + second) == event_deltas(first),
    decreases second.len(),
{
    if second.len() == 0 {
        assert(first + second =~= first);
    } else {
        assert((first + second).drop_last() =~= first + second.drop_last());
        assert((first + second).last() == second.last());
        assert forall|i: int| 0 <= i < second.drop_last().len() implies (
        #[trigger] second.drop_last()[i]).text_at("delta"@) is None by {
            assert(second[i].text_at("delta"@) is None);
        }
        lemma_no_deltas(first, second.drop_last());
    }
}

/// The deltas so far are the contents of the chunks, and no message given so far is empty.
proof fn lemma_progress_deltas(chunks: Seq<Tree>)
    ensures
        event_deltas(progress(chunks).events) == chunk_contents(chunks),
        forall|i: int|
            0 <= i < progress(chunks).events.len() && gives_message(
                #[trigger] progress(chunks).events[i],
            ) ==> given_text(progress(chunks).events[i]).len() > 0,
    decreases chunks.len(),
{
    if chunks.len() > 0 {
        lemma_progress_deltas(chunks.drop_last());
        let before = progress(chunks.drop_last());
        let chunk = chunks.last();
        let noted = before.named(chunk).opened().metered(chunk);
        lemma_event_texts(before.named(chunk).id, Seq::empty(), Call::nothing(), None);
        assert(before.events.push(created_event(before.named(chunk).id)).drop_last()
            =~= before.events);
        assert(event_deltas(noted.events) == event_deltas(before.events));
        if let Some(choice) = first_choice(chunk) {
            let said = noted.said(choice);
            if let Some(content) = choice_delta(choice).text_at("content"@) {
                lemma_event_texts(Seq::empty(), content, Call::nothing(), None);
                assert(said.events.drop_last() =~= noted.events);
                assert(said.events.last() == delta_event(content));
            }
            assert(event_deltas(said.events) == chunk_contents(chunks));
            let called = said.called(choice);
            let items = called.item_events();
            lemma_item_events(called);
            lemma_no_deltas(called.events, items);
            let after = called.finished(choice);
            assert forall|i: int| 0 <= i < after.events.len() && gives_message(
                #[trigger] after.events[i],
            ) implies given_text(after.events[i]).len() > 0 by {
                if i < called.events.len() {
                    assert(after.events[i] == said.events[i]);
                } else {
                    assert(after.events[i] == items[i - called.events.len()]);
                }
            }
        }
    }
}

/// The deltas of a response stream are, one for one and in their order, the contents of the first
/// choices of the chat stream, empty ones too.
pub proof fn law_deltas_are_the_contents(chunks: Seq<Tree>)
    ensures
        event_deltas(response_events(chunks)) == chunk_contents(chunks),
{
    let before = progress(chunks);
    let opened = before.opened();
    lemma_progress_deltas(chunks);
    lemma_event_texts(before.id, Seq::empty(), Call::nothing(), before.usage);
    assert(before.events.push(created_event(before.id)).drop_last() =~= before.events);
    assert(event_deltas(opened.events) == event_deltas(before.events));
    assert(response_events(chunks).drop_last() =~= opened.events);
}

/// No whole message is empty.
pub proof fn law_no_message_is_empty(chunks: Seq<Tree>)
    ensures
        forall|i: int|
            0 <= i < response_events(chunks).len() && gives_message(
                #[trigger] response_events(chunks)[i],
            ) ==> given_text(response_events(chunks)[i]).len() > 0,
{
    let before = progress(chunks);
    let all = response_events(chunks);
    lemma_progress_deltas(chunks);
    lemma_event_texts(before.id, Seq::empty(), Call::nothing(), before.usage);
    assert forall|i: int| 0 <= i < all.len() && gives_message(#[trigger] all[i]) implies given_text(
        all[i],
    ).len() > 0 by {
        if i < before.events.len() {
            assert(all[i] == before.events[i]);
        }
    }
}

/// Once a chunk has finished its message and no text has come after it, everything that was said
/// has been given in whole messages.
pub proof fn law_finished_text_is_given(chunks: Seq<Tree>, more: Seq<Tree>)
    requires
        chunks.len() > 0,
        first_choice(chunks.last()) matches Some(choice) && is_finished(choice),
        forall|i: int| 0 <= i < more.len() ==> spoken_text(#[trigger] more[i]).len() == 0,
    ensures
        progress(chunks + more).text.len() == 0,
        given_texts(response_events(chunks + more)) == spoken_texts(chunks + more),
    decreases more.len(),
{
    let all = chunks + more;
    if more.len() == 0 {
        assert(all =~= chunks);
    } else {
        assert forall|i: int| 0 <= i < more.drop_last().len() implies spoken_text(
            #[trigger] more.drop_last()[i],
        ).len() == 0 by {
            assert(spoken_text(more[i]).len() == 0);
        }
        law_finished_text_is_given(chunks, more.drop_last());
        assert(all.drop_last() =~= chunks + more.drop_last());
        assert(all.last() == more.last());
        assert(spoken_text(more[more.len() - 1]).len() == 0);
    }
    law_no_text_is_lost(all);
    assert(given_texts(response_events(all)) =~= spoken_texts(all));
}

}
