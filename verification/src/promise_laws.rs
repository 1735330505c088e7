//! What a caller can rely on, whatever is handed to the functions of the library.

#[allow(unused_imports)]
use crate::codec::{json_bytes, parsed_slice};
#[allow(unused_imports)]
use crate::config::{
    forward_config, listen_on, upstream_host_header, Args, ForwardConfig, UpstreamWireApi,
};
#[allow(unused_imports)]
use crate::error::{ConfigError, ConfigFailure, TranslateContext, TranslateError};
#[allow(unused_imports)]
use crate::headers::{
    forward_headers, forwarded_lines, lines_view, response_headers, response_lines, valid_headers,
    valid_lines, HeaderLine,
};
#[allow(unused_imports)]
use crate::json::{trees, Json, Tree};
#[allow(unused_imports)]
use crate::proxy::{
    prepare_request, prepare_response, route, ClientResponse, Route, UpstreamRequest,
};
#[allow(unused_imports)]
use crate::proxy_laws::{
    law_bodies_go_upstream, law_chat_successes_are_translated, law_other_answers_pass_unchanged,
    law_requests_are_routed,
};
#[allow(unused_imports)]
use crate::request::{
    chat_content, chat_request, function_call_output_to_text, message_content_to_chat_content,
    output_text, request_to_chat_request, responses_to_chat_completions_request, MappedRequestBody,
};
#[allow(unused_imports)]
use crate::request_laws::law_requests_are_translated;
#[allow(unused_imports)]
use crate::response::{
    chat_completions_json_to_responses_json, chat_message_text, chat_response_to_response,
    checked_chat_json_to_responses_json, counts_fit, message_text, response_of_chat,
};
#[allow(unused_imports)]
use crate::response_laws::law_answers_are_translated;
#[allow(unused_imports)]
use crate::sse::{stream_chunks, stream_text};
#[allow(unused_imports)]
use crate::stream::{
    chat_completions_sse_to_responses_sse, checked_chat_sse_to_responses_sse, chunks_to_events,
    progress, response_events,
};
#[allow(unused_imports)]
use crate::stream_laws::law_streams_are_translated;
#[allow(unused_imports)]
use crate::text::utf8_error;
use vstd::prelude::*;
use vstd::utf8::*;

verus! {

/// A client's body that can be read is sent as its chat request; any other is refused with what the
/// reader reports.
pub proof fn law_request_translation_keeps_its_promise(
    body: &[u8],
    mapped: Result<MappedRequestBody, TranslateError>,
)
    requires
        call_ensures(responses_to_chat_completions_request, (body,), mapped),
    ensures
        parsed_slice(body@) matches Ok(request) ==> (mapped matches Ok(sent) && sent.body@
            == json_bytes(chat_request(request)) && (sent.stream <==> request.get("stream"@) == Some(
            Tree::Bool(true),
        ))),
        parsed_slice(body@) matches Err(reported) ==> (mapped matches Err(error) && error.context
            == TranslateContext::ParseRequest && error.cause@ == reported),
{
    law_requests_are_translated(body@);
}

/// An upstream's answer that can be read reaches the client as its response; any other is refused
/// with what the reader reports. An answer is left untranslated only where its counts do not fit.
pub proof fn law_answer_translation_keeps_its_promise(
    body: &[u8],
    translated: Result<Vec<u8>, TranslateError>,
    checked: Option<Result<Vec<u8>, TranslateError>>,
)
    requires
        call_ensures(chat_completions_json_to_responses_json, (body,), translated),
        call_ensures(checked_chat_json_to_responses_json, (body,), checked),
    ensures
        parsed_slice(body@) matches Ok(chat) ==> {
            &&& translated matches Ok(sent) && sent@ == json_bytes(response_of_chat(chat))
            &&& checked is Some <==> counts_fit(chat.get("usage"@))
            &&& checked matches Some(outcome) ==> (outcome matches Ok(sent) && sent@ == json_bytes(
                response_of_chat(chat),
            ))
        },
        parsed_slice(body@) matches Err(reported) ==> {
            &&& translated matches Err(error) && error.context == TranslateContext::ParseResponse
                && error.cause@ == reported
            &&& checked matches Some(Err(error)) && error.context == TranslateContext::ParseResponse
                && error.cause@ == reported
        },
{
    law_answers_are_translated(body@);
}

/// An upstream's stream in UTF-8 reaches the client as the stream of its events; any other is
/// refused with what the decoder reports. A stream is left untranslated only where the counts of its
/// last usage do not fit.
pub proof fn law_stream_translation_keeps_its_promise(
    body: &[u8],
    text: Seq<char>,
    translated: Result<Vec<u8>, TranslateError>,
    checked: Option<Result<Vec<u8>, TranslateError>>,
)
    requires
        call_ensures(chat_completions_sse_to_responses_sse, (body,), translated),
        call_ensures(checked_chat_sse_to_responses_sse, (body,), checked),
    ensures
        body@ == encode_utf8(text) ==> {
            let sent = encode_utf8(stream_text(response_events(stream_chunks(text))));
            &&& translated matches Ok(bytes) && bytes@ == sent
            &&& checked is Some <==> counts_fit(progress(stream_chunks(text)).usage)
            &&& checked matches Some(outcome) ==> (outcome matches Ok(bytes) && bytes@ == sent)
        },
        !valid_utf8(body@) ==> {
            &&& translated matches Err(error) && error.context == TranslateContext::DecodeStream
                && error.cause@ == utf8_error(body@)
            &&& checked matches Some(Err(error)) && error.context == TranslateContext::DecodeStream
                && error.cause@ == utf8_error(body@)
        },
{
    law_streams_are_translated(text, body@);
}

/// What is sent upstream goes to the configured URL, with the configured host and the credentials
/// of the proxy, and with the client's headers that pass. Its body is the client's own or its chat
/// request.
pub proof fn law_prepared_requests_keep_their_promise(
    config: &ForwardConfig,
    authorization: &'static str,
    headers: &Vec<HeaderLine>,
    body: Vec<u8>,
    prepared: Result<UpstreamRequest, TranslateError>,
)
    requires
        call_ensures(prepare_request, (config, authorization, headers, body), prepared),
    ensures
        prepared matches Ok(sent) ==> {
            &&& sent.url@ == config.upstream_url@
            &&& sent.host@ == config.host_header@
            &&& sent.authorization@ == authorization@
            &&& lines_view(sent.forwarded@) == forwarded_lines(lines_view(headers@))
            &&& sent.stream <==> (parsed_slice(body@) matches Ok(request) && request.get("stream"@)
                == Some(Tree::Bool(true)))
            &&& config.upstream_wire_api == UpstreamWireApi::Responses ==> sent.body@ == body@
            &&& config.upstream_wire_api == UpstreamWireApi::ChatCompletions ==> (parsed_slice(body@)
                matches Ok(request) && sent.body@ == json_bytes(chat_request(request)))
        },
        config.upstream_wire_api == UpstreamWireApi::Responses ==> prepared is Ok,
        config.upstream_wire_api == UpstreamWireApi::ChatCompletions ==> match parsed_slice(body@) {
            Ok(_) => prepared is Ok,
            Err(reported) => prepared matches Err(error) && error.context
                == TranslateContext::ParseRequest && error.cause@ == reported,
        },
{
    law_bodies_go_upstream(body@);
}

/// The client gets the upstream's status. It gets the upstream's body and headers too, unless a chat
/// upstream answers with a status from 200 to 299: then it gets the translated body, with the type
/// of content of what that is.
pub proof fn law_prepared_responses_keep_their_promise(
    api: UpstreamWireApi,
    stream: bool,
    status: u16,
    headers: &Vec<HeaderLine>,
    body: Vec<u8>,
    prepared: Option<Result<ClientResponse, TranslateError>>,
)
    requires
        call_ensures(prepare_response, (api, stream, status, headers, body), prepared),
    ensures
        prepared matches Some(Ok(response)) ==> response.status == status,
        status < 200 || status >= 300 || api == UpstreamWireApi::Responses ==> (prepared matches Some(
            Ok(response),
        ) && response.body@ == body@ && lines_view(response.headers@) == response_lines(
            lines_view(headers@),
            None,
        )),
        200 <= status <= 299 && api == UpstreamWireApi::ChatCompletions && !stream
            ==> match parsed_slice(body@) {
            Ok(chat) => {
                &&& prepared is Some <==> counts_fit(chat.get("usage"@))
                &&& prepared matches Some(outcome) ==> (outcome matches Ok(response)
                    && response.body@ == json_bytes(response_of_chat(chat)) && lines_view(
                    response.headers@,
                ) == response_lines(lines_view(headers@), Some("application/json"@)))
            },
            Err(reported) => prepared matches Some(Err(error)) && error.context
                == TranslateContext::ParseResponse && error.cause@ == reported,
        },
        200 <= status <= 299 && api == UpstreamWireApi::ChatCompletions && stream ==> if valid_utf8(
            body@,
        ) {
            let chunks = stream_chunks(decode_utf8(body@));
            &&& prepared is Some <==> counts_fit(progress(chunks).usage)
            &&& prepared matches Some(outcome) ==> (outcome matches Ok(response) && response.body@
                == encode_utf8(stream_text(response_events(chunks))) && lines_view(response.headers@)
                == response_lines(lines_view(headers@), Some("text/event-stream"@)))
        } else {
            prepared matches Some(Err(error)) && error.context == TranslateContext::DecodeStream
                && error.cause@ == utf8_error(body@)
        },
{
    if 200 <= status <= 299 && api == UpstreamWireApi::ChatCompletions {
        law_chat_successes_are_translated(status, body@);
        law_answers_are_translated(body@);
    } else {
        law_other_answers_pass_unchanged(api, status, stream, body@);
    }
}

/// Headers pass as the rules on them say, and a dump shows those that are valid.
pub proof fn law_headers_keep_their_promise(
    lines: &Vec<HeaderLine>,
    sent: Vec<HeaderLine>,
    valid: Vec<HeaderLine>,
    returned: Vec<HeaderLine>,
    response: &ClientResponse,
    dumped: Vec<HeaderLine>,
)
    requires
        call_ensures(forward_headers, (lines,), sent),
        call_ensures(valid_headers, (lines,), valid),
        call_ensures(response_headers, (lines, None), returned),
        call_ensures(ClientResponse::dumped_headers, (response,), dumped),
    ensures
        lines_view(sent@) == forwarded_lines(lines_view(lines@)),
        lines_view(valid@) == valid_lines(lines_view(lines@)),
        lines_view(returned@) == response_lines(lines_view(lines@), None),
        lines_view(dumped@) == valid_lines(lines_view(response.headers@)),
{
}

/// A forced type of content is the one that the headers are made with.
pub proof fn law_forced_headers_keep_their_promise(
    lines: &Vec<HeaderLine>,
    content_type: &'static str,
    returned: Vec<HeaderLine>,
)
    requires
        call_ensures(response_headers, (lines, Some(content_type)), returned),
    ensures
        lines_view(returned@) == response_lines(lines_view(lines@), Some(content_type@)),
{
}

/// Headers are seen by their names and values, each and in their order.
pub proof fn law_headers_are_seen_whole(lines: Seq<HeaderLine>, i: int)
    requires
        0 <= i < lines.len(),
    ensures
        lines_view(lines).len() == lines.len(),
        lines_view(lines)[i].name == lines[i].name@,
        lines_view(lines)[i].value == lines[i].value@,
{
}

/// Only `POST /v1/responses` goes upstream, only an enabled `GET /shutdown` ends the proxy, and what
/// does not go upstream is answered with 200 where it ends the proxy and with 403 otherwise.
pub proof fn law_routes_keep_their_promise(
    http_shutdown: bool,
    method: &str,
    path: &str,
    taken: Route,
    status: Option<u16>,
)
    requires
        call_ensures(route, (http_shutdown, method, path), taken),
        call_ensures(Route::status, (&taken,), status),
    ensures
        status is None <==> method@ == "POST"@ && path@ == "/v1/responses"@,
        status == Some(200u16) <==> http_shutdown && method@ == "GET"@ && path@ == "/shutdown"@,
        taken == Route::Shutdown <==> http_shutdown && method@ == "GET"@ && path@ == "/shutdown"@,
        status is Some ==> status == Some(200u16) || status == Some(403u16),
{
    law_requests_are_routed(http_shutdown, method@, path@);
}

/// The proxy is set up with the URL and the API that it was called with, and with the host of that
/// URL.
pub proof fn law_setup_keeps_its_promise(
    args: &Args,
    config: Result<ForwardConfig, ConfigError>,
)
    requires
        call_ensures(forward_config, (args,), config),
    ensures
        config matches Ok(config) ==> {
            &&& config.upstream_url@ == args.upstream_url@
            &&& config.upstream_wire_api == args.upstream_wire_api
            &&& upstream_host_header(args.upstream_url@) == Ok::<Seq<u8>, ConfigFailure>(
                config.host_header@,
            )
        },
        config matches Err(error) ==> (upstream_host_header(args.upstream_url@) matches Err(failure)
            && failure.context == error.context && failure.cause == match error.cause {
            Some(cause) => Some(cause@),
            None => None,
        }),
{
}

/// The proxy listens on the loopback address, on the port it was given or on one that the system
/// picks.
pub proof fn law_proxy_listens_on_the_loopback(port: Option<u16>, address: ([u8; 4], u16))
    requires
        call_ensures(listen_on, (port,), address),
    ensures
        address.0@ == seq![127u8, 0u8, 0u8, 1u8],
        port matches Some(port) ==> address.1 == port,
        port is None ==> address.1 == 0,
{
}

/// The parts of a translation do what the whole is made of.
pub proof fn law_parts_keep_their_promise(
    document: &Json,
    content: Json,
    output: String,
    text: String,
    chat: Json,
    response: Json,
)
    requires
        call_ensures(message_content_to_chat_content, (Some(document),), content),
        call_ensures(function_call_output_to_text, (Some(document),), output),
        call_ensures(chat_message_text, (Some(document),), text),
        call_ensures(request_to_chat_request, (document,), chat),
        call_ensures(chat_response_to_response, (document,), response),
    ensures
        content@ == chat_content(Some(document@)),
        output@ == output_text(Some(document@)),
        text@ == message_text(Some(document@)),
        chat@ == chat_request(document@),
        response@ == response_of_chat(document@),
{
}

/// The events of chunks are those of a response stream.
pub proof fn law_events_keep_their_promise(chunks: &Vec<Json>, events: Vec<Json>)
    requires
        call_ensures(chunks_to_events, (chunks,), events),
    ensures
        trees(events@) == response_events(trees(chunks@)),
{
}

}
