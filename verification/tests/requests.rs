//! Requests on their way upstream.

use responses_api_proxy::codec::{parse_slice, parse_str, to_string};
use responses_api_proxy::error::{TranslateContext, TranslateError};
use responses_api_proxy::json::Json;
use responses_api_proxy::request::{
    function_call_output_to_text, input_item_to_chat_message, message_content_to_chat_content,
    request_to_chat_request, responses_to_chat_completions_request,
};
use serde_json::Value;

fn object(members: Vec<(&str, Value)>) -> Value {
    Value::Object(
        members
            .into_iter()
            .map(|(key, value)| (key.to_string(), value))
            .collect(),
    )
}

fn json(text: &str) -> Json {
    parse_str(text).unwrap()
}

fn written(json: &Json) -> String {
    to_string(json).unwrap()
}

fn mapped(request: &str) -> String {
    let mapped = responses_to_chat_completions_request(request.as_bytes())
        .ok()
        .unwrap();
    String::from_utf8(mapped.body).unwrap()
}

fn message(item: &str) -> Option<String> {
    input_item_to_chat_message(&json(item)).map(|message| written(&message))
}

fn content(items: &str) -> String {
    written(&message_content_to_chat_content(Some(&json(items))))
}

fn output(value: &str) -> String {
    function_call_output_to_text(Some(&json(value)))
}

#[test]
fn map_responses_request_to_chat_completions() {
    let request = object(vec![
        ("model", Value::from("gpt-4.1")),
        ("instructions", Value::from("Be brief")),
        ("stream", Value::from(true)),
        ("tool_choice", Value::from("auto")),
        ("parallel_tool_calls", Value::from(true)),
        (
            "tools",
            Value::from(vec![object(vec![
                ("type", Value::from("function")),
                (
                    "function",
                    object(vec![
                        ("name", Value::from("foo")),
                        ("description", Value::from("bar")),
                        (
                            "parameters",
                            object(vec![
                                ("type", Value::from("object")),
                                ("properties", object(vec![])),
                            ]),
                        ),
                    ]),
                ),
            ])]),
        ),
        (
            "input",
            Value::from(vec![
                object(vec![
                    ("type", Value::from("message")),
                    ("role", Value::from("user")),
                    (
                        "content",
                        Value::from(vec![object(vec![
                            ("type", Value::from("input_text")),
                            ("text", Value::from("Hello")),
                        ])]),
                    ),
                ]),
                object(vec![
                    ("type", Value::from("function_call_output")),
                    ("call_id", Value::from("call_1")),
                    ("output", Value::from("done")),
                ]),
            ]),
        ),
    ]);
    let mapped = responses_to_chat_completions_request(
        serde_json::to_string(&request).unwrap().as_bytes(),
    )
    .unwrap();

    let body: Value = serde_json::from_slice(&mapped.body).unwrap();
    assert!(mapped.stream);
    assert_eq!(body["model"], "gpt-4.1");
    assert!(body["stream"].as_bool().unwrap());
    assert!(body["stream_options"]["include_usage"].as_bool().unwrap());
    assert_eq!(body["messages"][0]["role"], "system");
    assert_eq!(body["messages"][1]["role"], "user");
    assert_eq!(body["messages"][2]["role"], "tool");
    assert_eq!(body["messages"][2]["tool_call_id"], "call_1");
}

#[test]
fn missing_members_get_their_defaults() {
    let defaults = "{\"messages\":[],\"model\":\"gpt-4o-mini\",\"parallel_tool_calls\":true,\
                    \"stream\":false,\"tool_choice\":\"auto\",\"tools\":[]}";
    assert_eq!(mapped("{}"), defaults);
    assert_eq!(mapped("[]"), defaults);
    assert_eq!(mapped("3"), defaults);
    assert_eq!(
        mapped("{\"model\":7,\"stream\":\"yes\",\"instructions\":1,\"input\":\"Hi\"}"),
        defaults,
    );
    assert_eq!(mapped("{\"instructions\":\"\",\"text\":{\"format\":{}}}"), defaults);
}

#[test]
fn given_members_are_kept() {
    assert_eq!(
        mapped(
            "{\"model\":\"m\",\"stream\":true,\"tools\":null,\"tool_choice\":{\"a\":1.5},\
             \"parallel_tool_calls\":false,\"instructions\":\"Be brief\"}",
        ),
        "{\"messages\":[{\"content\":\"Be brief\",\"role\":\"system\"}],\"model\":\"m\",\
         \"parallel_tool_calls\":false,\"stream\":true,\
         \"stream_options\":{\"include_usage\":true},\"tool_choice\":{\"a\":1.5},\"tools\":null}",
    );
}

#[test]
fn numbers_are_carried_through() {
    let request = "{\"tools\":[18446744073709551615,-9223372036854775808,0,-1,0.1,1e300,-0.0]}";
    let body: Value = serde_json::from_str(&mapped(request)).unwrap();
    let expected: Value = serde_json::from_str(request).unwrap();
    assert_eq!(body["tools"], expected["tools"]);
    assert!(mapped(request).contains("[18446744073709551615,-9223372036854775808,0,-1,0.1,1e"));
}

#[test]
fn the_later_of_two_equal_keys_counts() {
    assert!(mapped("{\"model\":\"a\",\"model\":\"b\"}").contains("\"model\":\"b\""));
    assert!(mapped("{\"model\":\"a\",\"model\":3}").contains("\"model\":\"gpt-4o-mini\""));
    let twice = Json::object()
        .with("model", Json::text("a"))
        .with("model", Json::text("b"));
    assert_eq!(written(&twice), "{\"model\":\"b\"}");
    assert_eq!(twice.text_at("model"), Some("b"));
}

#[test]
fn schemas_become_response_formats() {
    let body = mapped("{\"text\":{\"format\":{\"schema\":{\"type\":\"object\"}}}}");
    assert!(body.contains(
        "\"response_format\":{\"json_schema\":{\"name\":\"response_format\",\
         \"schema\":{\"type\":\"object\"},\"strict\":true},\"type\":\"json_schema\"}",
    ));
    let body = mapped(
        "{\"text\":{\"format\":{\"schema\":null,\"name\":\"answer\",\"strict\":false}}}",
    );
    assert!(body.contains(
        "\"response_format\":{\"json_schema\":{\"name\":\"answer\",\"schema\":null,\
         \"strict\":false},\"type\":\"json_schema\"}",
    ));
    assert!(!mapped("{\"text\":{\"format\":{\"name\":\"answer\"}}}").contains("response_format"));
    assert!(!mapped("{\"text\":\"format\"}").contains("response_format"));
}

#[test]
fn messages_take_their_roles() {
    let text = "\"content\":[{\"type\":\"input_text\",\"text\":\"Hi\"}]";
    let with_role = |role: &str| message(&format!("{{\"type\":\"message\",{role}{text}}}"));
    assert_eq!(
        with_role("\"role\":\"assistant\",").unwrap(),
        "{\"content\":\"Hi\",\"role\":\"assistant\"}",
    );
    assert_eq!(
        with_role("\"role\":\"developer\",").unwrap(),
        "{\"content\":\"Hi\",\"role\":\"system\"}",
    );
    assert_eq!(with_role("").unwrap(), "{\"content\":\"Hi\",\"role\":\"user\"}");
    assert_eq!(with_role("\"role\":5,").unwrap(), "{\"content\":\"Hi\",\"role\":\"user\"}");
}

#[test]
fn other_items_are_passed_over() {
    assert_eq!(message("{\"type\":\"reasoning\"}"), None);
    assert_eq!(message("{\"role\":\"user\"}"), None);
    assert_eq!(message("{\"type\":1}"), None);
    assert_eq!(message("\"message\""), None);
}

#[test]
fn messages_keep_the_order_of_the_input() {
    let body = mapped(
        "{\"instructions\":\"0\",\"input\":[\
         {\"type\":\"message\",\"content\":[{\"type\":\"input_text\",\"text\":\"1\"}]},\
         {\"type\":\"reasoning\"},\
         {\"type\":\"function_call_output\",\"call_id\":\"c\",\"output\":\"2\"},\
         {\"type\":\"message\",\"content\":[{\"type\":\"output_text\",\"text\":\"3\"}]}]}",
    );
    let body: Value = serde_json::from_str(&body).unwrap();
    let contents: Vec<&str> = body["messages"]
        .as_array()
        .unwrap()
        .iter()
        .map(|message| message["content"].as_str().unwrap())
        .collect();
    assert_eq!(contents, vec!["0", "1", "2", "3"]);
}

#[test]
fn a_single_text_stands_alone() {
    assert_eq!(content("[{\"type\":\"input_text\",\"text\":\"Hi\"}]"), "\"Hi\"");
    assert_eq!(
        content("[{\"type\":\"refusal\"},{\"type\":\"output_text\",\"text\":\"Hi\"},{}]"),
        "\"Hi\"",
    );
}

#[test]
fn several_parts_make_a_list() {
    assert_eq!(
        content(
            "[{\"type\":\"input_text\",\"text\":\"a\"},{\"type\":\"output_text\",\"text\":\"b\"}]",
        ),
        "[{\"text\":\"a\",\"type\":\"text\"},{\"text\":\"b\",\"type\":\"text\"}]",
    );
    assert_eq!(
        content("[{\"type\":\"input_image\",\"image_url\":\"u\"}]"),
        "[{\"image_url\":{\"url\":\"u\"},\"type\":\"image_url\"}]",
    );
    assert_eq!(
        content(
            "[{\"type\":\"input_image\",\"image_url\":\"u\"},\
             {\"type\":\"input_text\",\"text\":\"a\"}]",
        ),
        "[{\"image_url\":{\"url\":\"u\"},\"type\":\"image_url\"},{\"text\":\"a\",\"type\":\"text\"}]",
    );
}

#[test]
fn content_without_parts_is_empty() {
    assert_eq!(written(&message_content_to_chat_content(None)), "\"\"");
    assert_eq!(content("\"Hi\""), "\"\"");
    assert_eq!(content("[]"), "\"\"");
    assert_eq!(
        content("[{\"type\":\"input_text\"},{\"type\":\"input_image\",\"image_url\":{}},7]"),
        "\"\"",
    );
}

#[test]
fn outputs_become_text() {
    assert_eq!(function_call_output_to_text(None), "");
    assert_eq!(output("\"done\""), "done");
    assert_eq!(output("[]"), "");
    assert_eq!(output("[{\"text\":\"a\"},{\"text\":3},7,{\"text\":\"b\"}]"), "a\nb");
    assert_eq!(output("[{\"text\":\"\"},{\"text\":\"b\"}]"), "\nb");
    assert_eq!(output("{\"b\":[1, 2],\"a\":null}"), "{\"a\":null,\"b\":[1,2]}");
    assert_eq!(output("null"), "null");
    assert_eq!(output("1.5"), "1.5");
}

#[test]
fn outputs_sent_as_json_read_back() {
    for value in ["null", "{\"a\":[1,{\"b\":\"\\n\"}]}", "-3", "true"] {
        assert_eq!(written(&json(&output(value))), written(&json(value)));
    }
    for value in ["\"x\"", "[1,\"\\r\"]", "{}"] {
        let item = format!("{{\"type\":\"mcp_tool_call_output\",\"output\":{value}}}");
        let sent = input_item_to_chat_message(&json(&item)).unwrap();
        assert_eq!(written(&json(sent.text_at("content").unwrap())), written(&json(value)));
    }
}

#[test]
fn outputs_answer_their_calls() {
    assert_eq!(
        message("{\"type\":\"function_call_output\",\"call_id\":\"c\",\"output\":\"x\"}").unwrap(),
        "{\"content\":\"x\",\"role\":\"tool\",\"tool_call_id\":\"c\"}",
    );
    assert_eq!(
        message("{\"type\":\"custom_tool_call_output\",\"output\":[{\"text\":\"x\"}]}").unwrap(),
        "{\"content\":\"x\",\"role\":\"tool\",\"tool_call_id\":\"\"}",
    );
    assert_eq!(
        message("{\"type\":\"mcp_tool_call_output\",\"call_id\":\"c\",\"output\":\"x\"}").unwrap(),
        "{\"content\":\"\\\"x\\\"\",\"role\":\"tool\",\"tool_call_id\":\"c\"}",
    );
    assert_eq!(
        message("{\"type\":\"mcp_tool_call_output\",\"call_id\":\"c\"}").unwrap(),
        "{\"content\":\"null\",\"role\":\"tool\",\"tool_call_id\":\"c\"}",
    );
}

#[test]
fn calls_are_the_assistants() {
    assert_eq!(
        message(
            "{\"type\":\"function_call\",\"call_id\":\"c\",\"name\":\"f\",\"arguments\":\"{1}\"}",
        )
        .unwrap(),
        "{\"content\":\"\",\"role\":\"assistant\",\"tool_calls\":[{\"function\":\
         {\"arguments\":\"{1}\",\"name\":\"f\"},\"id\":\"c\",\"type\":\"function\"}]}",
    );
    assert_eq!(
        message("{\"type\":\"function_call\"}").unwrap(),
        "{\"content\":\"\",\"role\":\"assistant\",\"tool_calls\":[{\"function\":\
         {\"arguments\":\"{}\",\"name\":\"tool_call\"},\"id\":\"\",\"type\":\"function\"}]}",
    );
}

#[test]
fn what_is_no_json_is_refused() {
    for (body, cause) in [
        ("", "EOF while parsing a value at line 1 column 0"),
        ("{", "EOF while parsing an object at line 1 column 1"),
        ("nope", "expected ident at line 1 column 2"),
        ("{}\n {}", "trailing characters at line 2 column 2"),
    ] {
        let error = responses_to_chat_completions_request(body.as_bytes()).err();
        assert_eq!(
            error,
            Some(TranslateError {
                context: TranslateContext::ParseRequest,
                cause: cause.to_string(),
            }),
        );
    }
    assert!(responses_to_chat_completions_request(&[0x22, 0xff, 0x22]).is_err());
    assert_eq!(
        TranslateContext::ParseRequest.message(),
        "parsing responses request json",
    );
    assert_eq!(
        TranslateContext::SerializeRequest.message(),
        "serializing chat completions request",
    );
}

#[test]
fn chat_requests_read_back() {
    let request = "{\"input\":[{\"type\":\"function_call\"}],\"tools\":[[[\"\\n\\u0000\\\"\"]]],\
                   \"text\":{\"format\":{\"schema\":{\"a\":{\"b\":[]}}}}}";
    let expected = written(&request_to_chat_request(&json(request)));
    let sent = responses_to_chat_completions_request(request.as_bytes()).unwrap();
    assert_eq!(written(&parse_slice(&sent.body).unwrap()), expected);
    assert!(!sent.stream);
}

#[test]
fn what_is_not_sent_need_not_read_back() {
    let deep = format!("{}{}", "[".repeat(126), "]".repeat(126));
    let request = format!("{{\"temperature\":0.7,\"metadata\":{deep},\"model\":\"m\"}}");
    let expected = written(&request_to_chat_request(&json(&request)));
    let sent = responses_to_chat_completions_request(request.as_bytes()).unwrap();
    assert_eq!(written(&parse_slice(&sent.body).unwrap()), expected);
    assert_eq!(expected, mapped("{\"model\":\"m\"}"));
}

#[test]
fn nesting_is_limited() {
    let nested = |depth: usize| {
        format!("{{\"tools\":{}{}}}", "[".repeat(depth), "]".repeat(depth))
    };
    let sent = responses_to_chat_completions_request(nested(126).as_bytes()).unwrap();
    assert!(parse_slice(&sent.body).is_ok());
    let error = responses_to_chat_completions_request(nested(127).as_bytes())
        .err()
        .unwrap();
    assert_eq!(error.context, TranslateContext::ParseRequest);
    assert!(error.cause.starts_with("recursion limit exceeded"));
}
