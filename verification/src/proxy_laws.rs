//! What the proxy lets pass and what it translates, in terms of what it was given.

#[allow(unused_imports)]
use crate::codec::{json_bytes, parsed_slice};
#[allow(unused_imports)]
use crate::config::{parsed_url, upstream_host_header, UpstreamWireApi};
#[allow(unused_imports)]
use crate::error::{ConfigContext, ConfigFailure, TranslateContext, TranslateFailure};
#[allow(unused_imports)]
use crate::headers::{
    content_type_line, forwarded_lines, has_content_type, is_ascii_line, is_content_type,
    is_header_name, is_header_value, is_managed, response_lines, returned_line, returned_lines,
    valid_lines, Line,
};
#[allow(unused_imports)]
use crate::json::Tree;
#[allow(unused_imports)]
use crate::laws::law_forwarded_headers_keep_order;
#[allow(unused_imports)]
use crate::proxy::{answer_counts_fit, client_body, is_readable, route_of, upstream_body, Route};
#[allow(unused_imports)]
use crate::request::chat_request;
#[allow(unused_imports)]
use crate::response::{mapped_response, response_counts_fit};
#[allow(unused_imports)]
use crate::stream::{mapped_stream, stream_counts_fit};
#[allow(unused_imports)]
use crate::text::{decimal_text, lemma_lowered_twice, lowered};
use vstd::prelude::*;
use vstd::utf8::*;

verus! {

/// An answer with a status below 200 or from 300 on reaches the client as it is, with the type of
/// content that it has, from either kind of upstream, and so does every answer of an upstream that
/// speaks the Responses API. Nothing in such an answer can stand in the way.
pub proof fn law_other_answers_pass_unchanged(
    api: UpstreamWireApi,
    status: u16,
    stream: bool,
    body: Seq<u8>,
)
    requires
        status < 200 || status >= 300 || api == UpstreamWireApi::Responses,
    ensures
        client_body(api, status, stream, body) matches Ok((sent, forced)) && sent == body
            && forced is None,
        answer_counts_fit(api, status, stream, body),
        is_readable(api, status, stream, body),
{
}

/// An answer of a chat upstream with a status from 200 to 299 is translated: as a stream where one
/// was asked for, and else as a whole, and its type of content is the one of what the client gets.
pub proof fn law_chat_successes_are_translated(status: u16, body: Seq<u8>)
    requires
        200 <= status <= 299,
    ensures
        match mapped_stream(body) {
            Ok(translated) => client_body(UpstreamWireApi::ChatCompletions, status, true, body)
                matches Ok((sent, forced)) && sent == translated && forced == Some(
                "text/event-stream"@,
            ),
            Err(failure) => client_body(UpstreamWireApi::ChatCompletions, status, true, body)
                == Err::<(Seq<u8>, Option<Seq<char>>), TranslateFailure>(failure),
        },
        match mapped_response(body) {
            Ok(translated) => client_body(UpstreamWireApi::ChatCompletions, status, false, body)
                matches Ok((sent, forced)) && sent == translated && forced == Some(
                "application/json"@,
            ),
            Err(failure) => client_body(UpstreamWireApi::ChatCompletions, status, false, body)
                == Err::<(Seq<u8>, Option<Seq<char>>), TranslateFailure>(failure),
        },
        answer_counts_fit(UpstreamWireApi::ChatCompletions, status, true, body)
            == stream_counts_fit(body),
        answer_counts_fit(UpstreamWireApi::ChatCompletions, status, false, body)
            == response_counts_fit(body),
        is_readable(UpstreamWireApi::ChatCompletions, status, true, body) == valid_utf8(body),
        is_readable(UpstreamWireApi::ChatCompletions, status, false, body) == parsed_slice(
            body,
        ) is Ok,
{
}

/// An upstream that speaks the Responses API gets the client's body as it is, JSON or not, and its
/// answer counts as a stream exactly where the body says so. A chat upstream gets the chat request.
pub proof fn law_bodies_go_upstream(body: Seq<u8>)
    ensures
        upstream_body(UpstreamWireApi::Responses, body) matches Ok((sent, stream)) && sent == body
            && (stream <==> (parsed_slice(body) matches Ok(request) && request.get("stream"@) == Some(
            Tree::Bool(true),
        ))),
        parsed_slice(body) matches Ok(request) ==> (upstream_body(
            UpstreamWireApi::ChatCompletions,
            body,
        ) matches Ok((sent, stream)) && sent == json_bytes(chat_request(request)) && (stream
            <==> request.get("stream"@) == Some(Tree::Bool(true)))),
        parsed_slice(body) matches Err(reported) ==> (upstream_body(
            UpstreamWireApi::ChatCompletions,
            body,
        ) matches Err(failure) && failure.context == TranslateContext::ParseRequest
            && failure.cause == reported),
{
}

/// A request goes upstream where it is `POST /v1/responses`, ends the proxy where it is
/// `GET /shutdown` and that is enabled, and is refused otherwise; the last two are answered at once,
/// with 200 and with 403.
pub proof fn law_requests_are_routed(http_shutdown: bool, method: Seq<char>, path: Seq<char>)
    ensures
        route_of(http_shutdown, method, path).answer() is None <==> method == "POST"@ && path
            == "/v1/responses"@,
        route_of(http_shutdown, method, path).answer() == Some(200u16) <==> http_shutdown && method
            == "GET"@ && path == "/shutdown"@,
        route_of(http_shutdown, method, path) == Route::Shutdown <==> http_shutdown && method
            == "GET"@ && path == "/shutdown"@,
        route_of(http_shutdown, method, path).answer() is Some ==> route_of(
            http_shutdown,
            method,
            path,
        ).answer() == Some(200u16) || route_of(http_shutdown, method, path).answer() == Some(403u16),
{
    reveal_strlit("GET");
    assert("GET"@.len() == 3);
    reveal_strlit("POST");
    assert("POST"@.len() == 4);
}

/// In lower case a text is as long as before, its upper case letters are their lower case ones, and
/// everything else is as it was.
pub proof fn law_only_letters_are_lowered(text: Seq<char>, i: int)
    requires
        0 <= i < text.len(),
    ensures
        lowered(text).len() == text.len(),
        'A' <= text[i] <= 'Z' ==> lowered(text)[i] as u32 == text[i] as u32 + 32,
        !('A' <= text[i] <= 'Z') ==> lowered(text)[i] == text[i],
{
}

/// A client's header is sent upstream with its name in lower case and its value as it is, unless it
/// gives credentials or a host, or cannot be sent. What is sent of several headers is what is sent
/// of each, in their order.
pub proof fn law_each_header_is_sent(first: Seq<Line>, line: Line, second: Seq<Line>)
    ensures
        forwarded_lines(first + second) == forwarded_lines(first) + forwarded_lines(second),
        lowered(line.name) == "authorization"@ || lowered(line.name) == "host"@ ==> forwarded_lines(
            seq![line],
        ) == Seq::<Line>::empty(),
        lowered(line.name) != "authorization"@ && lowered(line.name) != "host"@ && is_header_name(
            lowered(line.name),
        ) && is_header_value(line.value) ==> forwarded_lines(seq![line]) == seq![
            Line { name: lowered(line.name), value: line.value },
        ],
        !is_header_name(lowered(line.name)) || !is_header_value(line.value) ==> forwarded_lines(
            seq![line],
        ) == Seq::<Line>::empty(),
{
    law_forwarded_headers_keep_order(first, second);
    lemma_lowered_twice(line.name);
    assert(seq![line].drop_last() =~= Seq::empty());
    assert(forwarded_lines(seq![line].drop_last()) =~= Seq::empty());
    assert(seq![line].last() == line);
    if forwarded_lines(seq![line]).len() > 0 {
        assert(forwarded_lines(seq![line]) =~= seq![
            Line { name: lowered(line.name), value: line.value },
        ]);
    } else {
        assert(forwarded_lines(seq![line]) =~= Seq::empty());
    }
}

/// A header's name is made of letters, digits and some signs, and its value of anything but control
/// characters, of which the tab may stand in it.
pub proof fn law_what_headers_hold(name: Seq<char>, value: Seq<u8>, i: int)
    ensures
        is_header_name(name) && 0 <= i < name.len() ==> {
            let c = name[i];
            ||| 'a' <= c <= 'z' || 'A' <= c <= 'Z' || '0' <= c <= '9'
            ||| c == '!' || '#' <= c <= '\'' || c == '*' || c == '+' || c == '-' || c == '.'
            ||| '^' <= c <= '`' || c == '|' || c == '~'
        },
        is_header_name(name) ==> 0 < name.len() <= 65535,
        is_header_value(value) && 0 <= i < value.len() ==> value[i] == 9 || 32 <= value[i] <= 126
            || 128 <= value[i],
        0 < name.len() <= 65535 && (forall|k: int|
            0 <= k < name.len() ==> 'a' <= #[trigger] name[k] <= 'z' || name[k] == '-' || '0'
                <= name[k] <= '9') ==> is_header_name(name),
        (forall|k: int| 0 <= k < value.len() ==> 32 <= #[trigger] value[k] <= 126)
            ==> is_header_value(value),
{
}

/// Headers that can be sent are shown with their names in lower case, and no others, in their
/// order.
pub proof fn law_valid_headers_are_shown(first: Seq<Line>, line: Line, second: Seq<Line>)
    ensures
        valid_lines(first + second) == valid_lines(first) + valid_lines(second),
        is_header_name(line.name) && is_header_value(line.value) ==> valid_lines(seq![line])
            == seq![Line { name: lowered(line.name), value: line.value }],
        !is_header_name(line.name) || !is_header_value(line.value) ==> valid_lines(seq![line])
            == Seq::<Line>::empty(),
    decreases second.len(),
{
    assert(seq![line].drop_last() =~= Seq::empty());
    assert(valid_lines(seq![line].drop_last()) =~= Seq::empty());
    if is_header_name(line.name) && is_header_value(line.value) {
        assert(valid_lines(seq![line]) =~= seq![
            Line { name: lowered(line.name), value: line.value },
        ]);
    }
    if second.len() == 0 {
        assert(first + second =~= first);
    } else {
        law_valid_headers_are_shown(first, line, second.drop_last());
        assert((first + second).drop_last() =~= first + second.drop_last());
        assert((first + second).last() == second.last());
    }
    assert(valid_lines(first + second) =~= valid_lines(first) + valid_lines(second));
}

/// A header that the server writes itself.
pub open spec fn is_the_servers(name: Seq<char>) -> bool {
    name == "content-length"@ || name == "transfer-encoding"@ || name == "connection"@ || name
        == "trailer"@ || name == "upgrade"@
}

/// An upstream's header reaches the client as it is, unless the server writes it itself or it is
/// not made of ASCII, where no type of content is forced. What the client gets of several headers is
/// what it gets of each, in their order.
pub proof fn law_each_header_is_returned(first: Seq<Line>, line: Line, second: Seq<Line>)
    ensures
        response_lines(first + second, None) == response_lines(first, None) + response_lines(
            second,
            None,
        ),
        response_lines(seq![line], None) == if !is_the_servers(line.name) && (forall|i: int|
            0 <= i < line.name.len() ==> '\0' <= #[trigger] line.name[i] <= '\u{7f}') && (forall|i: int|
            0 <= i < line.value.len() ==> #[trigger] line.value[i] < 128) {
            seq![line]
        } else {
            Seq::empty()
        },
{
    lemma_returned_append(first, second, None);
    assert(seq![line].drop_last() =~= Seq::empty());
    assert(returned_lines(seq![line].drop_last(), None) =~= Seq::empty());
    assert(seq![line].last() == line);
    lemma_ascii(line);
    if returned_line(line, None) is Some {
        assert(returned_lines(seq![line], None) =~= seq![line]);
    } else {
        assert(returned_lines(seq![line], None) =~= Seq::empty());
    }
}

/// What ASCII is.
proof fn lemma_ascii(line: Line)
    ensures
        is_ascii_line(line) <==> (forall|i: int|
            0 <= i < line.name.len() ==> '\0' <= #[trigger] line.name[i] <= '\u{7f}') && (forall|i: int|
            0 <= i < line.value.len() ==> #[trigger] line.value[i] < 128),
{
}

/// What is returned of headers in a row stands in a row.
proof fn lemma_returned_append(first: Seq<Line>, second: Seq<Line>, forced: Option<Seq<char>>)
    ensures
        returned_lines(first + second, forced) == returned_lines(first, forced) + returned_lines(
            second,
            forced,
        ),
    decreases second.len(),
{
    if second.len() == 0 {
        assert(first + second =~= first);
    } else {
        lemma_returned_append(first, second.drop_last(), forced);
        assert((first + second).drop_last() =~= first + second.drop_last());
        assert((first + second).last() == second.last());
    }
    assert(returned_lines(first + second, forced) =~= returned_lines(first, forced)
        + returned_lines(second, forced));
}

/// The header with the forced type of content, in the place of any that gives another.
pub open spec fn with_type(line: Line, content_type: Seq<char>) -> Line {
    if lowered(line.name) == "content-type"@ {
        Line { name: "content-type"@, value: encode_utf8(content_type) }
    } else {
        line
    }
}

/// A forced type of content stands where the upstream gave one, and behind all other headers where
/// it gave none. Nothing else changes.
pub proof fn law_forced_type_takes_the_place(lines: Seq<Line>, content_type: Seq<char>)
    requires
        is_ascii_line(Line { name: "content-type"@, value: encode_utf8(content_type) }),
    ensures
        (exists|i: int| 0 <= i < lines.len() && lowered((#[trigger] lines[i]).name)
            == "content-type"@) ==> response_lines(lines, Some(content_type)) == response_lines(
            lines.map_values(|line: Line| with_type(line, content_type)),
            None,
        ),
        !(exists|i: int| 0 <= i < lines.len() && lowered((#[trigger] lines[i]).name)
            == "content-type"@) ==> response_lines(lines, Some(content_type)) == response_lines(
            lines,
            None,
        ).push(Line { name: "content-type"@, value: encode_utf8(content_type) }),
{
    lemma_content_type_is_lower();
    lemma_forced_lines(lines, content_type);
    if exists|i: int| 0 <= i < lines.len() && lowered((#[trigger] lines[i]).name)
        == "content-type"@ {
        let i = choose|i: int|
            0 <= i < lines.len() && lowered((#[trigger] lines[i]).name) == "content-type"@;
        lemma_managed_is_lower(lines[i].name);
        assert(is_content_type(lines[i].name));
    } else {
        assert(lines.map_values(|line: Line| with_type(line, content_type)) =~= lines);
        if has_content_type(lines) {
            let i = choose|i: int|
                0 <= i < lines.len() && !is_managed(lines[i].name) && #[trigger] is_content_type(
                    lines[i].name,
                );
            assert(lowered(lines[i].name) == "content-type"@);
        }
    }
}

/// The name of the header that gives the type of the content is in lower case.
proof fn lemma_content_type_is_lower()
    ensures
        lowered("content-type"@) == "content-type"@,
        !is_managed("content-type"@),
{
    reveal_strlit("content-type");
    assert("content-type"@.len() == 12);
    assert(lowered("content-type"@) =~= "content-type"@);
    reveal_strlit("content-length");
    assert("content-length"@.len() == 14);
    reveal_strlit("transfer-encoding");
    assert("transfer-encoding"@.len() == 17);
    reveal_strlit("connection");
    assert("connection"@.len() == 10);
    reveal_strlit("trailer");
    assert("trailer"@.len() == 7);
    reveal_strlit("upgrade");
    assert("upgrade"@.len() == 7);
}

/// A header that gives the type of the content is none that the server writes itself.
proof fn lemma_managed_is_lower(name: Seq<char>)
    requires
        lowered(name) == "content-type"@,
    ensures
        !is_managed(name),
{
    assert(lowered(name).len() == name.len());
    reveal_strlit("content-type");
    assert("content-type"@.len() == 12);
    reveal_strlit("content-length");
    assert("content-length"@.len() == 14);
    reveal_strlit("transfer-encoding");
    assert("transfer-encoding"@.len() == 17);
    reveal_strlit("connection");
    assert("connection"@.len() == 10);
    reveal_strlit("trailer");
    assert("trailer"@.len() == 7);
    reveal_strlit("upgrade");
    assert("upgrade"@.len() == 7);
}

/// A forced type of content is put into each header that gives one.
proof fn lemma_forced_lines(lines: Seq<Line>, content_type: Seq<char>)
    requires
        is_ascii_line(content_type_line(content_type)),
    ensures
        returned_lines(lines, Some(content_type)) == returned_lines(
            lines.map_values(|line: Line| with_type(line, content_type)),
            None,
        ),
    decreases lines.len(),
{
    let replaced = lines.map_values(|line: Line| with_type(line, content_type));
    if lines.len() > 0 {
        let line = lines.last();
        lemma_forced_lines(lines.drop_last(), content_type);
        assert(replaced.drop_last() =~= lines.drop_last().map_values(
            |line: Line| with_type(line, content_type),
        ));
        assert(replaced.last() == with_type(line, content_type));
        lemma_content_type_is_lower();
        if lowered(line.name) == "content-type"@ {
            lemma_managed_is_lower(line.name);
        }
    }
}

/// The host header is the host of the upstream's URL, with a colon and the port where the URL gives
/// one; a URL that cannot be read, one without a host and a host that no header can hold are
/// refused.
pub proof fn law_hosts_are_named(url: Seq<char>, host: Seq<char>, port: u16)
    ensures
        parsed_url(url) == Ok::<(Option<Seq<char>>, Option<u16>), Seq<char>>((Some(host), None))
            && is_header_value(encode_utf8(host)) ==> upstream_host_header(url) == Ok::<
            Seq<u8>,
            ConfigFailure,
        >(encode_utf8(host)),
        parsed_url(url) == Ok::<(Option<Seq<char>>, Option<u16>), Seq<char>>(
            (Some(host), Some(port)),
        ) && is_header_value(encode_utf8(host + ":"@ + decimal_text(port as nat)))
            ==> upstream_host_header(url) == Ok::<Seq<u8>, ConfigFailure>(
            encode_utf8(host + ":"@ + decimal_text(port as nat)),
        ),
        parsed_url(url) matches Ok((None, _)) ==> (upstream_host_header(url) matches Err(failure)
            && failure.context == ConfigContext::NoUpstreamHost && failure.cause is None),
        parsed_url(url) matches Err(reported) ==> (upstream_host_header(url) matches Err(failure)
            && failure.context == ConfigContext::ParseUpstreamUrl && failure.cause == Some(
            reported,
        )),
        upstream_host_header(url) matches Ok(value) ==> is_header_value(value) && (parsed_url(
            url,
        ) matches Ok((Some(_), _))),
        upstream_host_header(url) matches Err(failure) ==> (parsed_url(url) matches Ok((Some(_), _))
            ==> failure.context == ConfigContext::HostHeader && failure.cause == Some(
            "failed to parse header value"@,
        )),
{
}

/// The number that digits stand for.
pub open spec fn number_of(digits: Seq<char>) -> int
    decreases digits.len(),
{
    if digits.len() == 0 {
        0
    } else {
        10 * number_of(digits.drop_last()) + (digits.last() as u32 - 48)
    }
}

/// A number in decimal notation stands for itself, is made of digits alone and has no zero in
/// front, but for zero itself.
pub proof fn law_decimals_stand_for_themselves(n: nat)
    ensures
        number_of(decimal_text(n)) == n,
        decimal_text(n).len() > 0,
        forall|i: int| 0 <= i < decimal_text(n).len() ==> '0' <= #[trigger] decimal_text(n)[i] <= '9',
        n > 0 ==> decimal_text(n)[0] != '0',
        n < 10 ==> decimal_text(n).len() == 1,
    decreases n,
{
    if n < 10 {
        assert(decimal_text(n).drop_last() =~= Seq::empty());
        assert(number_of(decimal_text(n).drop_last()) == 0);
    } else {
        law_decimals_stand_for_themselves(n / 10);
        assert(decimal_text(n).drop_last() =~= decimal_text(n / 10));
    }
}

/// What each failure says.
pub proof fn law_failures_tell_what_was_done()
    ensures
        TranslateContext::ParseRequest.says() == "parsing responses request json"@,
        TranslateContext::SerializeRequest.says() == "serializing chat completions request"@,
        TranslateContext::ParseResponse.says() == "parsing chat completions response json"@,
        TranslateContext::SerializeResponse.says() == "serializing mapped responses json"@,
        TranslateContext::DecodeStream.says() == "reading chat completions sse as utf-8"@,
        TranslateContext::SerializeEvent.says() == "serializing mapped sse event"@,
        ConfigContext::ParseUpstreamUrl.says() == "parsing --upstream-url"@,
        ConfigContext::NoUpstreamHost.says() == "upstream URL must include a host"@,
        ConfigContext::HostHeader.says() == "constructing Host header from upstream URL"@,
{
}

/// The member of an object is the one that was put in last under its key, and only objects have
/// members.
pub proof fn law_members_are_found(
    members: Map<Seq<char>, Tree>,
    key: Seq<char>,
    other: Seq<char>,
    value: Tree,
)
    ensures
        Tree::Object(members).get(key) is Some <==> members.contains_key(key),
        Tree::Object(members).get(key) matches Some(member) ==> member == members[key],
        Tree::Object(members).with(key, value) == Tree::Object(members.insert(key, value)),
        !(value is Object) ==> value.get(key) is None && value.with(other, value) == value,
        Tree::object() == Tree::Object(Map::empty()),
{
}

/// A member is read as what it is, and as nothing else.
pub proof fn law_members_are_what_they_are(object: Tree, key: Seq<char>)
    ensures
        object.text_at(key) == match object.get(key) {
            Some(Tree::Text(text)) => Some(text),
            _ => None,
        },
        object.bool_at(key) == match object.get(key) {
            Some(Tree::Bool(value)) => Some(value),
            _ => None,
        },
        object.list_at(key) == match object.get(key) {
            Some(Tree::List(items)) => Some(items),
            _ => None,
        },
        object.i64_at(key) matches Some(n) ==> object.get(key) == Some(Tree::Int(n as int)),
        object.u64_at(key) matches Some(n) ==> object.get(key) == Some(Tree::Int(n as int)),
        object.get(key) matches Some(Tree::Int(n)) ==> (i64::MIN <= n <= i64::MAX ==> object.i64_at(
            key,
        ) is Some) && (0 <= n <= u64::MAX ==> object.u64_at(key) is Some),
{
}

}
