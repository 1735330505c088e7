//! Streamed answers on their way to the client.

use responses_api_proxy::codec::{parse_str, to_string};
use responses_api_proxy::error::{TranslateContext, TranslateError};
use responses_api_proxy::json::Json;
use responses_api_proxy::response::chat_response_to_response;
use responses_api_proxy::sse::{push_sse, read_chunks, stream_payloads, write_events};
use responses_api_proxy::stream::{
    chat_completions_sse_to_responses_sse, checked_chat_sse_to_responses_sse, chunks_to_events,
    StreamTranslator, ToolCallState,
};

fn json(text: &str) -> Json {
    parse_str(text).unwrap()
}

fn stream(chunks: &[&str]) -> String {
    chunks
        .iter()
        .map(|chunk| format!("data: {chunk}\n\n"))
        .collect()
}

fn translated(body: &str) -> String {
    String::from_utf8(chat_completions_sse_to_responses_sse(body.as_bytes()).unwrap()).unwrap()
}

fn created(id: &str) -> String {
    format!("{{\"response\":{{\"id\":\"{id}\"}},\"type\":\"response.created\"}}")
}

fn delta(content: &str) -> String {
    format!("{{\"delta\":\"{content}\",\"type\":\"response.output_text.delta\"}}")
}

fn message(text: &str) -> String {
    format!(
        "{{\"item\":{{\"content\":[{{\"text\":\"{text}\",\"type\":\"output_text\"}}],\
         \"role\":\"assistant\",\"type\":\"message\"}},\"type\":\"response.output_item.done\"}}",
    )
}

fn call(name: &str, arguments: &str, id: &str) -> String {
    format!(
        "{{\"item\":{{\"arguments\":\"{arguments}\",\"call_id\":\"{id}\",\"name\":\"{name}\",\
         \"type\":\"function_call\"}},\"type\":\"response.output_item.done\"}}",
    )
}

fn completed(id: &str, input: i64, output: i64, total: i64) -> String {
    format!(
        "{{\"response\":{{\"id\":\"{id}\",\"usage\":{{\"input_tokens\":{input},\
         \"input_tokens_details\":{{\"cached_tokens\":0}},\"output_tokens\":{output},\
         \"output_tokens_details\":{{\"reasoning_tokens\":0}},\"total_tokens\":{total}}}}},\
         \"type\":\"response.completed\"}}",
    )
}

fn events(expected: &[String]) -> String {
    expected
        .iter()
        .map(|event| format!("data: {event}\n\n"))
        .collect()
}

fn said(content: &str) -> String {
    format!("{{\"choices\":[{{\"delta\":{{\"content\":\"{content}\"}}}}]}}")
}

fn called(deltas: &str) -> String {
    format!("{{\"choices\":[{{\"delta\":{{\"tool_calls\":[{deltas}]}}}}]}}")
}

fn finished(reason: &str) -> String {
    format!("{{\"choices\":[{{\"finish_reason\":\"{reason}\"}}]}}")
}

#[test]
fn map_chat_stream_to_responses_stream() {
    let sse = [
        "data: {\"id\":\"chatcmpl_1\",\"choices\":[{\"delta\":{\"content\":\"Hi\"},\"index\":0,\"finish_reason\":null}]}\n\n",
        "data: {\"id\":\"chatcmpl_1\",\"choices\":[{\"delta\":{\"tool_calls\":[{\"index\":0,\"id\":\"call_1\",\"type\":\"function\",\"function\":{\"name\":\"foo\",\"arguments\":\"{\\\"a\\\":\"}}]},\"index\":0,\"finish_reason\":null}]}\n\n",
        "data: {\"id\":\"chatcmpl_1\",\"choices\":[{\"delta\":{\"tool_calls\":[{\"index\":0,\"function\":{\"arguments\":\"1}\"}}]},\"index\":0,\"finish_reason\":\"tool_calls\"}],\"usage\":{\"prompt_tokens\":5,\"completion_tokens\":2,\"total_tokens\":7}}\n\n",
        "data: [DONE]\n\n",
    ]
    .concat();
    let mapped = chat_completions_sse_to_responses_sse(sse.as_bytes()).unwrap();
    let mapped_text = String::from_utf8(mapped).unwrap();
    assert!(mapped_text.contains("\"type\":\"response.created\""));
    assert!(mapped_text.contains("\"type\":\"response.output_text.delta\""));
    assert!(mapped_text.contains("\"type\":\"response.output_item.done\""));
    assert!(mapped_text.contains("\"type\":\"function_call\""));
    assert!(mapped_text.contains("\"call_id\":\"call_1\""));
    assert!(mapped_text.contains("\"type\":\"response.completed\""));
    assert_eq!(
        mapped_text,
        events(&[
            created("chatcmpl_1"),
            delta("Hi"),
            message("Hi"),
            call("foo", "{\\\"a\\\":1}", "call_1"),
            completed("chatcmpl_1", 5, 2, 7),
        ]),
    );
}

#[test]
fn an_empty_stream_is_opened_and_completed() {
    let expected = events(&[created("chatcmpl-proxy"), completed("chatcmpl-proxy", 0, 0, 0)]);
    assert_eq!(translated(""), expected);
    assert_eq!(translated("\n\n\n\n"), expected);
    assert_eq!(translated("data: [DONE]\n\n"), expected);
    assert_eq!(translated("event: ping\n\ndata:{}\n\n"), expected);
}

#[test]
fn other_payloads_change_nothing() {
    let plain = translated(&stream(&[&said("a"), &said("b"), &finished("stop")]));
    let noisy = format!(
        ": comment\ndata:  [DONE]\t\n\ndata: {}\r\ndata: nope\n\n\ndata: {}\n\ndata: [DONE]\n\nid: 3\ndata: {}",
        said("a"),
        said("b"),
        finished("stop"),
    );
    assert_eq!(translated(&noisy), plain);
    assert_eq!(
        plain,
        events(&[
            created("chatcmpl-proxy"),
            delta("a"),
            delta("b"),
            message("ab"),
            completed("chatcmpl-proxy", 0, 0, 0),
        ]),
    );
}

#[test]
fn other_lines_change_nothing_wherever_they_stand() {
    let text = format!(
        "data: {}\r\n\ndata: {}\r\ndata: {}\n\n\ndata: {}\n",
        said("a"),
        said("b"),
        finished("stop"),
        said("c"),
    );
    let plain = translated(&text);
    let starts: Vec<usize> = (0..=text.len())
        .filter(|&at| at == 0 || text.as_bytes()[at - 1] == b'\n')
        .collect();
    assert_eq!(starts.len(), 8);
    for at in starts {
        let (first, second) = text.split_at(at);
        for line in [
            "", "\r", ": note", "event: x\r", "data:{}", "data: [DONE]", "data:  [DONE]\r",
            "data: {", "data: {\r", "data: \"\r",
        ] {
            assert_eq!(translated(&format!("{first}{line}\n{second}")), plain);
        }
    }
}

#[test]
fn payloads_are_found_on_data_lines() {
    let found = |text: &str| stream_payloads(text);
    assert_eq!(found("data: a\ndata: b\n\ndata: c"), vec!["a", "b", "c"]);
    assert_eq!(found("data: a\r\ndata: b\r"), vec!["a", "b\r"]);
    assert_eq!(found("data: a\r\n\r\ndata: b\n"), vec!["a", "b"]);
    assert_eq!(found("data: \n"), vec![""]);
    assert_eq!(found("data:a\n data: b\nDATA: c\ndata"), Vec::<String>::new());
    assert_eq!(found("data: \u{e9}\n\n\n\ndata: data: x"), vec!["\u{e9}", "data: x"]);
}

#[test]
fn calls_come_in_the_order_of_their_positions() {
    let body = stream(&[
        &called("{\"index\":10,\"id\":\"c10\",\"function\":{\"name\":\"k\",\"arguments\":\"x\"}}"),
        &called(
            "{\"index\":2,\"id\":\"c2\",\"function\":{\"name\":\"g\",\"arguments\":\"[\"}},\
             {\"id\":\"c0\",\"function\":{\"name\":\"f\"}}",
        ),
        &called("{\"index\":2,\"function\":{\"arguments\":\"]\"}},{\"index\":-1,\"id\":\"c\"}"),
        &finished("length"),
    ]);
    assert_eq!(
        translated(&body),
        events(&[
            created("chatcmpl-proxy"),
            call("f", "", "c"),
            call("g", "[]", "c2"),
            call("k", "x", "c10"),
            completed("chatcmpl-proxy", 0, 0, 0),
        ]),
    );
}

#[test]
fn it_does_not_matter_how_deltas_are_split() {
    let first = "{\"index\":1,\"id\":\"c\",\"function\":{\"name\":\"f\",\"arguments\":\"a\"}}";
    let second = "{\"index\":1,\"function\":{\"name\":\"g\",\"arguments\":\"b\"}}";
    let together = stream(&[&called(&format!("{first},{second}")), &finished("tool_calls")]);
    let apart = stream(&[&called(first), &called(second), &finished("tool_calls")]);
    assert_eq!(translated(&together), translated(&apart));
    assert!(translated(&apart).contains(&call("g", "ab", "c")));
}

#[test]
fn calls_take_in_deltas() {
    let mut state = ToolCallState::new();
    state.take_in(&json("{\"id\":\"a\",\"function\":{\"arguments\":\"x\"}}"));
    state.take_in(&json("{\"id\":\"b\",\"function\":{\"name\":\"f\",\"arguments\":\"y\"}}"));
    state.take_in(&json("{\"id\":1,\"function\":{\"name\":2,\"arguments\":3}}"));
    state.take_in(&json("[]"));
    assert_eq!(state.id, "b");
    assert_eq!(state.name, "f");
    assert_eq!(state.arguments, "xy");
}

#[test]
fn items_are_given_once_and_only_when_finished() {
    let body = stream(&[
        &said("a"),
        &finished("content_filter"),
        &finished("stop"),
        &finished("stop"),
        &said("b"),
        &finished("length"),
        &said("c"),
    ]);
    assert_eq!(
        translated(&body),
        events(&[
            created("chatcmpl-proxy"),
            delta("a"),
            message("a"),
            delta("b"),
            message("b"),
            delta("c"),
            completed("chatcmpl-proxy", 0, 0, 0),
        ]),
    );
}

#[test]
fn the_last_identifier_and_usage_count() {
    let body = stream(&[
        "{\"usage\":{\"prompt_tokens\":9}}",
        "{\"id\":\"x\",\"choices\":[]}",
        "{\"id\":\"y\",\"usage\":{\"prompt_tokens\":1,\"completion_tokens\":2}}",
        "[]",
    ]);
    assert_eq!(
        translated(&body),
        events(&[created("chatcmpl-proxy"), completed("y", 1, 2, 3)]),
    );
    let body = stream(&["{\"id\":\"x\",\"usage\":{\"prompt_tokens\":9}}", "{\"usage\":null}"]);
    assert_eq!(translated(&body), events(&[created("x"), completed("x", 0, 0, 0)]));
}

#[test]
fn only_the_first_choice_is_followed() {
    let body = stream(&[
        "{\"choices\":[{\"delta\":{\"content\":\"a\"}},{\"delta\":{\"content\":\"b\"}}]}",
        "{\"choices\":[{},{\"finish_reason\":\"stop\"}]}",
        "{\"choices\":[{\"delta\":{\"content\":null},\"finish_reason\":\"stop\"}]}",
    ]);
    assert_eq!(
        translated(&body),
        events(&[
            created("chatcmpl-proxy"),
            delta("a"),
            message("a"),
            completed("chatcmpl-proxy", 0, 0, 0),
        ]),
    );
}

#[test]
fn empty_content_is_a_delta_but_no_message() {
    let body = stream(&["{\"choices\":[{\"delta\":{\"content\":\"\"},\"finish_reason\":\"stop\"}]}"]);
    assert_eq!(
        translated(&body),
        events(&[created("chatcmpl-proxy"), delta(""), completed("chatcmpl-proxy", 0, 0, 0)]),
    );
}

#[test]
fn streamed_items_are_those_of_a_whole_answer() {
    let calls = "[{\"index\":0,\"id\":\"c\",\"function\":{\"name\":\"f\",\"arguments\":\"1\"}},\
                 {\"index\":1,\"id\":\"d\",\"function\":{\"name\":\"g\",\"arguments\":\"2\"}}]";
    let inner = format!("{{\"content\":\"Hi\",\"tool_calls\":{calls}}}");
    let chunk = json(&format!(
        "{{\"choices\":[{{\"delta\":{inner},\"finish_reason\":\"stop\"}}]}}",
    ));
    let whole = chat_response_to_response(&json(&format!(
        "{{\"choices\":[{{\"message\":{inner}}}]}}",
    )));
    let streamed: Vec<String> = chunks_to_events(&vec![chunk])
        .iter()
        .filter_map(|event| event.get("item"))
        .map(|item| to_string(item).unwrap())
        .collect();
    let items: Vec<String> = whole
        .list_at("output")
        .unwrap()
        .iter()
        .map(|item| to_string(item).unwrap())
        .collect();
    assert_eq!(items.len(), 3);
    assert_eq!(streamed, items);
}

#[test]
fn no_text_is_lost() {
    let chunks = vec![
        json(&said("a")),
        json(&said("b")),
        json(&finished("stop")),
        json(&said("c")),
        json(&finished("stop")),
    ];
    let all = chunks_to_events(&chunks);
    let added: String = all.iter().filter_map(|event| event.text_at("delta")).collect();
    let given: String = all
        .iter()
        .filter_map(|event| event.get("item"))
        .map(|item| item.list_at("content").unwrap()[0].text_at("text").unwrap())
        .collect();
    assert_eq!(added, "abc");
    assert_eq!(given, "abc");
}

#[test]
fn a_carriage_return_behind_a_payload_changes_nothing() {
    for payload in ["{}", "{", "1", "1.", "-", "tru", "true", "\"a", "\"a\"", "\"\\", "\"\\u00", "", " ", "[1] "] {
        let plain = parse_str(payload).map(|json| to_string(&json).unwrap()).ok();
        let longer = parse_str(&format!("{payload}\r"))
            .map(|json| to_string(&json).unwrap())
            .ok();
        assert_eq!(plain, longer);
    }
    let body = stream(&[&said("a"), &finished("stop")]);
    assert_eq!(translated(&body.replace("\n\n", "\r\n\r\n")), translated(&body));
    assert_eq!(translated(&body.replace("\n\n", "\r\n\n")), translated(&body));
}

#[test]
fn events_between_the_ends_tell_of_the_output() {
    let chunks = vec![
        json(&said("a")),
        json(&called("{\"id\":\"c\"}")),
        json(&said("")),
        json(&finished("stop")),
        json(&finished("stop")),
    ];
    let all = chunks_to_events(&chunks);
    let types: Vec<&str> = all.iter().map(|event| event.text_at("type").unwrap()).collect();
    assert_eq!(
        types,
        vec![
            "response.created",
            "response.output_text.delta",
            "response.output_text.delta",
            "response.output_item.done",
            "response.output_item.done",
            "response.completed",
        ],
    );
    let deltas: Vec<&str> = all.iter().filter_map(|event| event.text_at("delta")).collect();
    assert_eq!(deltas, vec!["a", ""]);
}

#[test]
fn streams_read_back() {
    let body = stream(&[
        "{\"id\":\"\\n\\n\",\"choices\":[{\"delta\":{\"content\":\"a\\r\\ndata: b\"}}]}",
        &finished("stop"),
    ]);
    let expected: Vec<String> = chunks_to_events(&read_chunks(&body))
        .iter()
        .map(|event| to_string(event).unwrap())
        .collect();
    let read: Vec<String> = read_chunks(&translated(&body))
        .iter()
        .map(|event| to_string(event).unwrap())
        .collect();
    assert_eq!(read.len(), 4);
    assert_eq!(read, expected);
}

#[test]
fn events_are_framed() {
    let mut out = String::from("x");
    assert_eq!(push_sse(&mut out, &json("{\"b\": 1, \"a\": [2]}")), Ok(()));
    assert_eq!(out, "xdata: {\"a\":[2],\"b\":1}\n\n");
    assert_eq!(
        write_events(&vec![Json::object(), Json::Null]).unwrap(),
        "data: {}\n\ndata: null\n\n",
    );
    assert_eq!(
        TranslateContext::SerializeEvent.message(),
        "serializing mapped sse event",
    );
}

#[test]
fn streams_that_are_no_utf_8_are_refused() {
    assert_eq!(
        chat_completions_sse_to_responses_sse(b"data: \xff\n\n"),
        Err(TranslateError {
            context: TranslateContext::DecodeStream,
            cause: "invalid utf-8 sequence of 1 bytes from index 6".to_string(),
        }),
    );
    assert_eq!(
        checked_chat_sse_to_responses_sse(b"\xc3").unwrap(),
        Err(TranslateError {
            context: TranslateContext::DecodeStream,
            cause: "incomplete utf-8 byte sequence from index 0".to_string(),
        }),
    );
    assert_eq!(
        TranslateContext::DecodeStream.message(),
        "reading chat completions sse as utf-8",
    );
}

#[test]
fn stream_counts_that_do_not_fit_are_told() {
    let large = "{\"usage\":{\"prompt_tokens\":9223372036854775807,\"completion_tokens\":1}}";
    assert!(checked_chat_sse_to_responses_sse(stream(&[large]).as_bytes()).is_none());
    let body = stream(&[large, "{\"usage\":{\"prompt_tokens\":1}}"]);
    assert_eq!(
        checked_chat_sse_to_responses_sse(body.as_bytes()).unwrap().unwrap(),
        events(&[created("chatcmpl-proxy"), completed("chatcmpl-proxy", 1, 0, 1)]).into_bytes(),
    );
    let mut translator = StreamTranslator::new();
    assert!(translator.counts_fit());
    translator.take_in(&json(large));
    assert!(!translator.counts_fit());
    translator.take_in(&json("{\"usage\":{}}"));
    assert!(translator.counts_fit());
    assert_eq!(translator.finish().len(), 2);
}
