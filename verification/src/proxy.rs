//! What the proxy does with a request: whether it answers at once, what it sends upstream, and
//! what it returns of the upstream's answer.

use crate::codec::parse_slice;
#[allow(unused_imports)]
use crate::codec::parsed_slice;
use crate::config::{ForwardConfig, UpstreamWireApi};
use crate::error::TranslateError;
#[allow(unused_imports)]
use crate::error::TranslateFailure;
use crate::headers::{forward_headers, response_headers, valid_headers, HeaderLine};
#[allow(unused_imports)]
use crate::headers::{forwarded_lines, lines_view, response_lines, valid_lines};
use crate::request::{responses_to_chat_completions_request, MappedRequestBody};
#[allow(unused_imports)]
use crate::request::{is_chat_request_of, mapped_request, mapped_view, wants_stream};
use crate::response::checked_chat_json_to_responses_json;
#[allow(unused_imports)]
use crate::response::{is_response_of, mapped_response, response_counts_fit};
use crate::stream::checked_chat_sse_to_responses_sse;
#[allow(unused_imports)]
use crate::stream::{is_stream_of, mapped_stream, stream_counts_fit};
use crate::text::same_text;
use vstd::prelude::*;
#[allow(unused_imports)]
use vstd::utf8::valid_utf8;

verus! {

/// What is done with a request.
#[derive(Copy, Clone, Debug, PartialEq, Eq, Structural)]
pub enum Route {
    /// It is answered, and the proxy ends.
    Shutdown,
    /// It is refused.
    Refuse,
    /// It goes upstream.
    Forward,
}

/// What is done with a request: only `POST /v1/responses` goes upstream, exactly and without a
/// query, and `GET /shutdown` ends the proxy where that is enabled.
pub open spec fn route_of(http_shutdown: bool, method: Seq<char>, path: Seq<char>) -> Route {
    if http_shutdown && method == "GET"@ && path == "/shutdown"@ {
        Route::Shutdown
    } else if method == "POST"@ && path == "/v1/responses"@ {
        Route::Forward
    } else {
        Route::Refuse
    }
}

impl Route {
    /// The status of the empty answer that is given at once.
    pub open spec fn answer(self) -> Option<u16> {
        match self {
            Route::Shutdown => Some(200),
            Route::Refuse => Some(403),
            Route::Forward => None,
        }
    }

    /// The status of the empty answer that is given at once.
    pub fn status(&self) -> (status: Option<u16>)
        ensures
            status == self.answer(),
    {
        match self {
            Route::Shutdown => Some(200),
            Route::Refuse => Some(403),
            Route::Forward => None,
        }
    }
}

/// What is done with a request.
pub fn route(http_shutdown: bool, method: &str, path: &str) -> (route: Route)
    ensures
        route == route_of(http_shutdown, method@, path@),
{
    if http_shutdown && same_text(method, "GET") && same_text(path, "/shutdown") {
        Route::Shutdown
    } else if same_text(method, "POST") && same_text(path, "/v1/responses") {
        Route::Forward
    } else {
        Route::Refuse
    }
}

/// The body that goes upstream, and whether the answer is a stream.
pub open spec fn upstream_body(
    api: UpstreamWireApi,
    body: Seq<u8>,
) -> Result<(Seq<u8>, bool), TranslateFailure> {
    match api {
        UpstreamWireApi::Responses => Ok(
            (
                body,
                match parsed_slice(body) {
                    Ok(request) => wants_stream(request),
                    Err(_) => false,
                },
            ),
        ),
        UpstreamWireApi::ChatCompletions => mapped_request(body),
    }
}

/// What goes upstream says what the client's body says: it is that body, or reads back as the chat
/// request that it becomes.
pub open spec fn is_request_of(api: UpstreamWireApi, sent: Seq<u8>, body: Seq<u8>) -> bool {
    match api {
        UpstreamWireApi::Responses => sent == body,
        UpstreamWireApi::ChatCompletions => is_chat_request_of(sent, body),
    }
}

/// The body that goes upstream, and whether the answer is a stream.
pub fn map_request_body(api: UpstreamWireApi, body: Vec<u8>) -> (mapped: Result<
    MappedRequestBody,
    TranslateError,
>)
    ensures
        mapped_view(mapped) == upstream_body(api, body@),
        mapped is Ok <==> api == UpstreamWireApi::Responses || parsed_slice(body@) is Ok,
        mapped matches Ok(mapped) ==> is_request_of(api, mapped.body@, body@),
{
    match api {
        UpstreamWireApi::Responses => {
            let stream = match parse_slice(body.as_slice()) {
                Ok(request) => request.bool_at("stream").unwrap_or(false),
                Err(_) => false,
            };
            Ok(MappedRequestBody { body, stream })
        },
        UpstreamWireApi::ChatCompletions => responses_to_chat_completions_request(body.as_slice()),
    }
}

/// What is sent upstream.
pub struct UpstreamRequest {
    pub url: String,
    /// The headers that are passed on.
    pub forwarded: Vec<HeaderLine>,
    /// The value of the authorization header.
    pub authorization: &'static str,
    /// The value of the host header.
    pub host: Vec<u8>,
    pub body: Vec<u8>,
    /// Whether the answer is a stream.
    pub stream: bool,
}

/// What is sent upstream for a client's headers and body: to the configured URL, with the
/// configured host and with the credentials of the proxy.
pub fn prepare_request(
    config: &ForwardConfig,
    authorization: &'static str,
    headers: &Vec<HeaderLine>,
    body: Vec<u8>,
) -> (prepared: Result<UpstreamRequest, TranslateError>)
    ensures
        match upstream_body(config.upstream_wire_api, body@) {
            Ok((mapped, stream)) => {
                &&& prepared matches Ok(request)
                &&& request.url@ == config.upstream_url@
                &&& lines_view(request.forwarded@) == forwarded_lines(lines_view(headers@))
                &&& request.authorization@ == authorization@
                &&& request.host@ == config.host_header@
                &&& request.body@ == mapped
                &&& request.stream == stream
            },
            Err(failure) => prepared matches Err(error) && error@ == failure,
        },
        prepared is Ok <==> config.upstream_wire_api == UpstreamWireApi::Responses || parsed_slice(
            body@,
        ) is Ok,
        prepared matches Ok(request) ==> is_request_of(
            config.upstream_wire_api,
            request.body@,
            body@,
        ),
{
    let mapped = match map_request_body(config.upstream_wire_api, body) {
        Ok(mapped) => mapped,
        Err(error) => return Err(error),
    };
    Ok(
        UpstreamRequest {
            url: config.upstream_url.clone(),
            forwarded: forward_headers(headers),
            authorization,
            host: config.host_header.clone(),
            body: mapped.body,
            stream: mapped.stream,
        },
    )
}

/// Whether a status says that the upstream did as it was asked.
pub open spec fn is_success(status: u16) -> bool {
    200 <= status < 300
}

/// Whether an answer of the upstream is translated.
pub open spec fn is_translated(api: UpstreamWireApi, status: u16) -> bool {
    api == UpstreamWireApi::ChatCompletions && is_success(status)
}

/// Whether the token counts of an answer can be added up, where it is translated.
pub open spec fn answer_counts_fit(
    api: UpstreamWireApi,
    status: u16,
    stream: bool,
    body: Seq<u8>,
) -> bool {
    is_translated(api, status) ==> if stream {
        stream_counts_fit(body)
    } else {
        response_counts_fit(body)
    }
}

/// The body of a client's response and the type of content that is forced: what the upstream
/// answers passes as it is, unless it is a chat's answer to a request that succeeded.
pub open spec fn client_body(
    api: UpstreamWireApi,
    status: u16,
    stream: bool,
    body: Seq<u8>,
) -> Result<(Seq<u8>, Option<Seq<char>>), TranslateFailure> {
    if is_translated(api, status) {
        if stream {
            match mapped_stream(body) {
                Ok(translated) => Ok((translated, Some("text/event-stream"@))),
                Err(failure) => Err(failure),
            }
        } else {
            match mapped_response(body) {
                Ok(translated) => Ok((translated, Some("application/json"@))),
                Err(failure) => Err(failure),
            }
        }
    } else {
        Ok((body, None))
    }
}

/// Whether an answer can be read, where it is translated.
pub open spec fn is_readable(
    api: UpstreamWireApi,
    status: u16,
    stream: bool,
    body: Seq<u8>,
) -> bool {
    is_translated(api, status) ==> if stream {
        valid_utf8(body)
    } else {
        parsed_slice(body) is Ok
    }
}

/// What the client gets says what the upstream's answer says: it is that answer, or reads back as
/// the response or the events that it becomes.
pub open spec fn is_answer_of(
    api: UpstreamWireApi,
    status: u16,
    stream: bool,
    sent: Seq<u8>,
    body: Seq<u8>,
) -> bool {
    if !is_translated(api, status) {
        sent == body
    } else if stream {
        is_stream_of(sent, body)
    } else {
        is_response_of(sent, body)
    }
}

/// The body of a client's response.
pub struct MappedResponseBody {
    pub body: Vec<u8>,
    pub content_type: Option<&'static str>,
}

/// The characters of a forced type of content.
pub open spec fn forced_view(content_type: Option<&'static str>) -> Option<Seq<char>> {
    match content_type {
        Some(content_type) => Some(content_type@),
        None => None,
    }
}

/// The body of a client's response and the type of content that is forced; `None` where the token
/// counts of the upstream's answer cannot be added up.
pub fn map_response_body(api: UpstreamWireApi, status: u16, stream: bool, body: Vec<u8>) -> (mapped:
    Option<Result<MappedResponseBody, TranslateError>>)
    ensures
        mapped is Some <==> answer_counts_fit(api, status, stream, body@),
        mapped matches Some(mapped) ==> match client_body(api, status, stream, body@) {
            Ok((sent, forced)) => mapped matches Ok(mapped) && mapped.body@ == sent && forced_view(
                mapped.content_type,
            ) == forced,
            Err(failure) => mapped matches Err(error) && error@ == failure,
        },
        mapped matches Some(mapped) ==> (mapped is Ok <==> is_readable(api, status, stream, body@)),
        mapped matches Some(Ok(mapped)) ==> is_answer_of(
            api,
            status,
            stream,
            mapped.body@,
            body@,
        ),
{
    let translated = match api {
        UpstreamWireApi::Responses => false,
        UpstreamWireApi::ChatCompletions => 200 <= status && status < 300,
    };
    if !translated {
        return Some(Ok(MappedResponseBody { body, content_type: None }));
    }
    let answer = if stream {
        checked_chat_sse_to_responses_sse(body.as_slice())
    } else {
        checked_chat_json_to_responses_json(body.as_slice())
    };
    let content_type = if stream {
        "text/event-stream"
    } else {
        "application/json"
    };
    match answer {
        Some(Ok(body)) => Some(
            Ok(MappedResponseBody { body, content_type: Some(content_type) }),
        ),
        Some(Err(error)) => Some(Err(error)),
        None => None,
    }
}

/// What is returned to the client.
pub struct ClientResponse {
    pub status: u16,
    pub headers: Vec<HeaderLine>,
    pub body: Vec<u8>,
}

/// What is returned to the client of the upstream's answer: the same status, the headers that pass,
/// and the body; `None` where the token counts of the answer cannot be added up.
pub fn prepare_response(
    api: UpstreamWireApi,
    stream: bool,
    status: u16,
    headers: &Vec<HeaderLine>,
    body: Vec<u8>,
) -> (prepared: Option<Result<ClientResponse, TranslateError>>)
    ensures
        prepared is Some <==> answer_counts_fit(api, status, stream, body@),
        prepared matches Some(prepared) ==> match client_body(api, status, stream, body@) {
            Ok((sent, forced)) => {
                &&& prepared matches Ok(response)
                &&& response.status == status
                &&& lines_view(response.headers@) == response_lines(lines_view(headers@), forced)
                &&& response.body@ == sent
            },
            Err(failure) => prepared matches Err(error) && error@ == failure,
        },
        prepared matches Some(prepared) ==> (prepared is Ok <==> is_readable(
            api,
            status,
            stream,
            body@,
        )),
        prepared matches Some(Ok(response)) ==> is_answer_of(
            api,
            status,
            stream,
            response.body@,
            body@,
        ),
{
    let mapped = match map_response_body(api, status, stream, body) {
        Some(Ok(mapped)) => mapped,
        Some(Err(error)) => return Some(Err(error)),
        None => return None,
    };
    let headers = response_headers(headers, mapped.content_type);
    Some(Ok(ClientResponse { status, headers, body: mapped.body }))
}

impl ClientResponse {
    /// The headers that a dump of the response shows.
    pub fn dumped_headers(&self) -> (dumped: Vec<HeaderLine>)
        ensures
            lines_view(dumped@) == valid_lines(lines_view(self.headers@)),
    {
        valid_headers(&self.headers)
    }
}

}
