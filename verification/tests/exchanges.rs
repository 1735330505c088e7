//! What the proxy does with a request, from its route to what the client gets.

use responses_api_proxy::config::{
    forward_config, host_header_of, listen_on, Args, ForwardConfig, UpstreamWireApi, UrlParts,
    DEFAULT_UPSTREAM_URL,
};
use responses_api_proxy::error::{ConfigContext, ConfigError, TranslateContext};
use responses_api_proxy::headers::{forward_headers, response_headers, valid_headers, HeaderLine};
use responses_api_proxy::proxy::{
    map_request_body, map_response_body, prepare_request, prepare_response, route, Route,
};

fn line(name: &str, value: &str) -> HeaderLine {
    HeaderLine {
        name: name.to_string(),
        value: value.as_bytes().to_vec(),
    }
}

fn shown(lines: &[HeaderLine]) -> Vec<(String, String)> {
    lines
        .iter()
        .map(|line| (line.name.clone(), String::from_utf8(line.value.clone()).unwrap()))
        .collect()
}

fn pairs(lines: &[(&str, &str)]) -> Vec<(String, String)> {
    lines
        .iter()
        .map(|(name, value)| (name.to_string(), value.to_string()))
        .collect()
}

fn args(upstream_url: &str) -> Args {
    Args {
        port: None,
        server_info: None,
        http_shutdown: false,
        upstream_url: upstream_url.to_string(),
        upstream_wire_api: UpstreamWireApi::ChatCompletions,
        dump_dir: None,
    }
}

fn config(upstream_wire_api: UpstreamWireApi) -> ForwardConfig {
    ForwardConfig {
        upstream_url: "https://example.com/v1".to_string(),
        host_header: b"example.com".to_vec(),
        upstream_wire_api,
    }
}

fn host(upstream_url: &str) -> Result<String, ConfigError> {
    forward_config(&args(upstream_url))
        .map(|config| String::from_utf8(config.host_header).unwrap())
}

#[test]
fn only_responses_are_forwarded() {
    assert_eq!(route(false, "POST", "/v1/responses"), Route::Forward);
    assert_eq!(route(true, "POST", "/v1/responses"), Route::Forward);
    assert_eq!(route(false, "POST", "/v1/responses?x=1"), Route::Refuse);
    assert_eq!(route(false, "POST", "/v1/responses/"), Route::Refuse);
    assert_eq!(route(false, "GET", "/v1/responses"), Route::Refuse);
    assert_eq!(route(false, "post", "/v1/responses"), Route::Refuse);
    assert_eq!(Route::Forward.status(), None);
    assert_eq!(Route::Refuse.status(), Some(403));
}

#[test]
fn shutdown_has_to_be_enabled() {
    assert_eq!(route(true, "GET", "/shutdown"), Route::Shutdown);
    assert_eq!(route(false, "GET", "/shutdown"), Route::Refuse);
    assert_eq!(route(true, "POST", "/shutdown"), Route::Refuse);
    assert_eq!(route(true, "GET", "/shutdown?now"), Route::Refuse);
    assert_eq!(Route::Shutdown.status(), Some(200));
}

#[test]
fn credentials_and_host_stay_behind() {
    let sent = forward_headers(&vec![
        line("Authorization", "Bearer x"),
        line("X-One", "1"),
        line("HOST", "localhost"),
        line("Accept", "*/*"),
        line("x-one", "2"),
    ]);
    assert_eq!(shown(&sent), pairs(&[("x-one", "1"), ("accept", "*/*"), ("x-one", "2")]));
}

#[test]
fn headers_that_cannot_be_sent_are_left_out() {
    let sent = forward_headers(&vec![
        line("", "empty"),
        line("a b", "space"),
        line("caf\u{e9}", "letter"),
        line("bad-value", "a\nb"),
        line("bad-delete", "a\u{7f}"),
        line("good", "a\tb ~"),
        line("Wide", "caf\u{e9}"),
        line("!#$%&'*+-.^_`|~09", ""),
    ]);
    assert_eq!(
        shown(&sent),
        pairs(&[("good", "a\tb ~"), ("wide", "caf\u{e9}"), ("!#$%&'*+-.^_`|~09", "")]),
    );
}

#[test]
fn header_names_are_limited_in_length() {
    let longest = "x".repeat(65535);
    let sent = valid_headers(&vec![line(&longest, "1"), line(&format!("{longest}x"), "2")]);
    assert_eq!(sent.len(), 1);
    assert_eq!(sent[0].name, longest);
}

#[test]
fn every_byte_is_judged_as_a_header_takes_it() {
    for byte in 0..=255u8 {
        let sent = valid_headers(&vec![HeaderLine {
            name: "x".to_string(),
            value: vec![byte],
        }]);
        let taken = (byte >= 32 && byte != 127) || byte == 9;
        assert_eq!(sent.len() == 1, taken);
        if taken {
            assert_eq!(sent[0].value, vec![byte]);
        }
    }
}

#[test]
fn managed_headers_are_dropped() {
    let lines = vec![
        line("content-length", "3"),
        line("x-a", "1"),
        line("transfer-encoding", "chunked"),
        line("connection", "close"),
        line("trailer", "x"),
        line("upgrade", "h2c"),
        line("content-type", "text/plain"),
        line("x-b", "caf\u{e9}"),
    ];
    let plain = pairs(&[("x-a", "1"), ("content-type", "text/plain")]);
    assert_eq!(shown(&response_headers(&lines, None)), plain);
}

#[test]
fn a_forced_content_type_prevails() {
    let lines = vec![
        line("content-type", "text/plain"),
        line("x-a", "1"),
        line("Content-Type", "text/html"),
    ];
    assert_eq!(
        shown(&response_headers(&lines, Some("application/json"))),
        pairs(&[
            ("content-type", "application/json"),
            ("x-a", "1"),
            ("content-type", "application/json"),
        ]),
    );
    assert_eq!(
        shown(&response_headers(&vec![line("x-a", "1")], Some("text/event-stream"))),
        pairs(&[("x-a", "1"), ("content-type", "text/event-stream")]),
    );
}

#[test]
fn the_host_is_that_of_the_upstream() {
    assert_eq!(host(DEFAULT_UPSTREAM_URL), Ok("api.openai.com".to_string()));
    assert_eq!(host("http://LOCALHOST:8080/v1"), Ok("localhost:8080".to_string()));
    assert_eq!(host("http://localhost:80/v1"), Ok("localhost".to_string()));
    assert_eq!(host("http://[::1]:65535/"), Ok("[::1]:65535".to_string()));
    let config = forward_config(&args("http://localhost:8080/v1")).unwrap();
    assert_eq!(config.upstream_url, "http://localhost:8080/v1");
    assert_eq!(config.upstream_wire_api, UpstreamWireApi::ChatCompletions);
}

#[test]
fn upstreams_without_a_host_are_refused() {
    let failure = |context: ConfigContext, cause: Option<&str>| ConfigError {
        context,
        cause: cause.map(str::to_string),
    };
    let unreadable = |cause: &str| failure(ConfigContext::ParseUpstreamUrl, Some(cause));
    assert_eq!(host("nonsense"), Err(unreadable("relative URL without a base")));
    assert_eq!(host("http://"), Err(unreadable("empty host")));
    assert_eq!(host("http://h:99999/"), Err(unreadable("invalid port number")));
    let no_host = || failure(ConfigContext::NoUpstreamHost, None);
    assert_eq!(host("data:text/plain,x"), Err(no_host()));
    let of = |host: Option<&str>, port: Option<u16>| {
        host_header_of(&UrlParts {
            host: host.map(str::to_string),
            port,
        })
    };
    assert_eq!(of(Some("h"), None), Ok(b"h".to_vec()));
    assert_eq!(of(Some("h"), Some(0)), Ok(b"h:0".to_vec()));
    assert_eq!(of(Some("h"), Some(8080)), Ok(b"h:8080".to_vec()));
    assert_eq!(of(None, Some(1)), Err(no_host()));
    assert_eq!(
        of(Some("a\nb"), Some(1)),
        Err(failure(ConfigContext::HostHeader, Some("failed to parse header value"))),
    );
    assert_eq!(ConfigContext::ParseUpstreamUrl.message(), "parsing --upstream-url");
    assert_eq!(ConfigContext::NoUpstreamHost.message(), "upstream URL must include a host");
    assert_eq!(
        ConfigContext::HostHeader.message(),
        "constructing Host header from upstream URL",
    );
}

#[test]
fn the_proxy_listens_on_the_loopback() {
    assert_eq!(listen_on(Some(8080)), ([127, 0, 0, 1], 8080));
    assert_eq!(listen_on(None), ([127, 0, 0, 1], 0));
}

#[test]
fn responses_bodies_go_upstream_unchanged() {
    let streams = |body: &[u8]| {
        let mapped = map_request_body(UpstreamWireApi::Responses, body.to_vec())
            .ok()
            .unwrap();
        assert_eq!(mapped.body, body);
        mapped.stream
    };
    assert!(streams(b"{\"stream\": true}"));
    assert!(!streams(b"{\"stream\": false}"));
    assert!(!streams(b"{\"stream\": 1}"));
    assert!(!streams(b"{}"));
    assert!(!streams(b"not json"));
}

#[test]
fn requests_are_prepared() {
    let headers = vec![line("Authorization", "Bearer client"), line("X-A", "1")];
    let body = b"{\"stream\":true}".to_vec();
    let prepared = prepare_request(
        &config(UpstreamWireApi::ChatCompletions),
        "Bearer proxy",
        &headers,
        body.clone(),
    )
    .ok()
    .unwrap();
    assert_eq!(prepared.url, "https://example.com/v1");
    assert_eq!(shown(&prepared.forwarded), pairs(&[("x-a", "1")]));
    assert_eq!(prepared.authorization, "Bearer proxy");
    assert_eq!(prepared.host, b"example.com");
    assert!(prepared.stream);
    assert_eq!(
        String::from_utf8(prepared.body).unwrap(),
        "{\"messages\":[],\"model\":\"gpt-4o-mini\",\"parallel_tool_calls\":true,\"stream\":true,\
         \"stream_options\":{\"include_usage\":true},\"tool_choice\":\"auto\",\"tools\":[]}",
    );
    let same = prepare_request(
        &config(UpstreamWireApi::Responses),
        "Bearer proxy",
        &headers,
        body.clone(),
    )
    .ok()
    .unwrap();
    assert_eq!(same.body, body);
    let refused = prepare_request(
        &config(UpstreamWireApi::ChatCompletions),
        "Bearer proxy",
        &headers,
        b"{".to_vec(),
    );
    assert_eq!(refused.err().unwrap().context, TranslateContext::ParseRequest);
}

#[test]
fn only_chat_successes_are_translated() {
    let answer = |api: UpstreamWireApi, status: u16, stream: bool| {
        let mapped = map_response_body(api, status, stream, b"{}".to_vec())
            .unwrap()
            .ok()
            .unwrap();
        (mapped.body != b"{}", mapped.content_type)
    };
    let chat = UpstreamWireApi::ChatCompletions;
    assert_eq!(answer(chat, 200, false), (true, Some("application/json")));
    assert_eq!(answer(chat, 299, true), (true, Some("text/event-stream")));
    assert_eq!(answer(chat, 199, false), (false, None));
    assert_eq!(answer(chat, 300, true), (false, None));
    assert_eq!(answer(chat, 500, false), (false, None));
    assert_eq!(answer(UpstreamWireApi::Responses, 200, true), (false, None));
}

#[test]
fn answers_are_prepared() {
    let headers = vec![
        line("content-type", "application/json; charset=utf-8"),
        line("content-length", "2"),
        line("x-request-id", "7"),
    ];
    let chat = UpstreamWireApi::ChatCompletions;
    let response = prepare_response(chat, true, 201, &headers, Vec::new())
        .unwrap()
        .ok()
        .unwrap();
    assert_eq!(response.status, 201);
    assert_eq!(
        shown(&response.headers),
        pairs(&[("content-type", "text/event-stream"), ("x-request-id", "7")]),
    );
    assert!(response.body.starts_with(b"data: {\"response\":"));
    let failure = prepare_response(chat, true, 429, &headers, b"slow down".to_vec())
        .unwrap()
        .ok()
        .unwrap();
    assert_eq!(failure.status, 429);
    assert_eq!(failure.body, b"slow down");
    assert_eq!(
        shown(&failure.headers),
        pairs(&[("content-type", "application/json; charset=utf-8"), ("x-request-id", "7")]),
    );
    let refused = prepare_response(chat, false, 200, &headers, b"<html>".to_vec()).unwrap();
    let error = refused.err().unwrap();
    assert_eq!(error.context, TranslateContext::ParseResponse);
    assert_eq!(error.cause, "expected value at line 1 column 1");
    let large = b"{\"usage\":{\"prompt_tokens\":9223372036854775807,\"completion_tokens\":1}}";
    assert!(prepare_response(chat, false, 200, &headers, large.to_vec()).is_none());
    assert!(prepare_response(chat, false, 500, &headers, large.to_vec()).is_some());
}

#[test]
fn dumps_show_valid_headers() {
    let headers = vec![line("X-A", "1"), line("a b", "2"), line("x-c", "\u{1}")];
    let response = prepare_response(UpstreamWireApi::Responses, false, 200, &headers, Vec::new())
        .unwrap()
        .ok()
        .unwrap();
    assert_eq!(response.headers.len(), 3);
    assert_eq!(shown(&response.dumped_headers()), pairs(&[("x-a", "1")]));
}
