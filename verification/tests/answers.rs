//! Whole answers on their way to the client.

use responses_api_proxy::codec::{parse_slice, parse_str, to_string};
use responses_api_proxy::error::{TranslateContext, TranslateError};
use responses_api_proxy::json::Json;
use responses_api_proxy::request::input_item_to_chat_message;
use responses_api_proxy::response::{
    call_output_item, chat_completions_json_to_responses_json, chat_message_text,
    chat_response_to_response, checked_chat_json_to_responses_json, message_output_item,
    report_usage, token_counts_fit,
};
use serde_json::Value;

fn json(text: &str) -> Json {
    parse_str(text).unwrap()
}

fn translated(chat: &str) -> String {
    String::from_utf8(chat_completions_json_to_responses_json(chat.as_bytes()).unwrap()).unwrap()
}

fn output(message: &str) -> Value {
    let chat = format!("{{\"choices\":[{{\"message\":{message}}}]}}");
    let response: Value = serde_json::from_str(&translated(&chat)).unwrap();
    response["output"].clone()
}

fn text(content: &str) -> String {
    chat_message_text(Some(&json(content)))
}

fn usage(report: &str) -> String {
    to_string(&report_usage(Some(&json(report)))).unwrap()
}

#[test]
fn an_answer_becomes_a_response() {
    assert_eq!(
        translated(
            "{\"id\":\"r\",\"model\":\"m\",\"choices\":[{\"message\":{\"content\":\"Hi\",\
             \"tool_calls\":[{\"id\":\"c\",\"function\":{\"name\":\"f\",\"arguments\":\"{1}\"}}]}}],\
             \"usage\":{\"prompt_tokens\":5,\"completion_tokens\":2,\"total_tokens\":9}}",
        ),
        "{\"id\":\"r\",\"model\":\"m\",\"object\":\"response\",\"output\":[{\"content\":\
         [{\"text\":\"Hi\",\"type\":\"output_text\"}],\"role\":\"assistant\",\"type\":\"message\"},\
         {\"arguments\":\"{1}\",\"call_id\":\"c\",\"name\":\"f\",\"type\":\"function_call\"}],\
         \"status\":\"completed\",\"usage\":{\"input_tokens\":5,\"input_tokens_details\":\
         {\"cached_tokens\":0},\"output_tokens\":2,\"output_tokens_details\":\
         {\"reasoning_tokens\":0},\"total_tokens\":9}}",
    );
}

#[test]
fn an_empty_answer_becomes_an_empty_response() {
    let empty = "{\"id\":\"chatcmpl-proxy\",\"model\":\"\",\"object\":\"response\",\"output\":[],\
                 \"status\":\"completed\",\"usage\":{\"input_tokens\":0,\"input_tokens_details\":\
                 {\"cached_tokens\":0},\"output_tokens\":0,\"output_tokens_details\":\
                 {\"reasoning_tokens\":0},\"total_tokens\":0}}";
    assert_eq!(translated("{}"), empty);
    assert_eq!(translated("null"), empty);
    assert_eq!(translated("{\"choices\":[]}"), empty);
    assert_eq!(translated("{\"choices\":[{}],\"id\":1,\"model\":2,\"usage\":3}"), empty);
}

#[test]
fn only_the_first_choice_counts() {
    let response = translated(
        "{\"choices\":[{\"message\":{\"content\":\"a\"}},{\"message\":{\"content\":\"b\"}}]}",
    );
    assert!(response.contains("\"text\":\"a\""));
    assert!(!response.contains("\"text\":\"b\""));
}

#[test]
fn nothing_said_is_no_item() {
    assert_eq!(output("{\"content\":\"\"}"), Value::from(Vec::<Value>::new()));
    assert_eq!(output("{\"content\":null}"), Value::from(Vec::<Value>::new()));
    assert_eq!(output("{}"), Value::from(Vec::<Value>::new()));
}

#[test]
fn calls_get_their_defaults() {
    let expected: Value = serde_json::from_str(
        "[{\"type\":\"function_call\",\"name\":\"tool_call\",\"arguments\":\"{}\",\"call_id\":\"\"},\
         {\"type\":\"function_call\",\"name\":\"tool_call\",\"arguments\":\"{}\",\"call_id\":\"c\"}]",
    )
    .unwrap();
    assert_eq!(
        output("{\"tool_calls\":[7,{\"id\":\"c\",\"function\":{\"name\":1,\"arguments\":2}}]}"),
        expected,
    );
}

#[test]
fn the_texts_of_parts_are_joined() {
    assert_eq!(chat_message_text(None), "");
    assert_eq!(text("\"Hi\""), "Hi");
    assert_eq!(text("7"), "");
    assert_eq!(text("{\"text\":\"Hi\"}"), "");
    assert_eq!(
        text(
            "[{\"type\":\"text\",\"text\":\"a\"},{\"type\":\"other\",\"text\":\"b\"},\
             {\"type\":\"other\",\"text\":{\"value\":\"c\"}},{\"text\":{\"value\":\"d\"}},\
             {\"type\":\"text\",\"text\":{\"value\":\"e\"}},8]",
        ),
        "acd",
    );
}

#[test]
fn totals_are_added_up_where_they_are_missing() {
    assert_eq!(
        usage("{\"prompt_tokens\":5,\"completion_tokens\":-2}"),
        "{\"input_tokens\":5,\"input_tokens_details\":{\"cached_tokens\":0},\"output_tokens\":-2,\
         \"output_tokens_details\":{\"reasoning_tokens\":0},\"total_tokens\":3}",
    );
    assert!(usage("{\"total_tokens\":4}").ends_with("\"total_tokens\":4}"));
    assert!(usage("{\"prompt_tokens\":1.5,\"completion_tokens\":18446744073709551615}")
        .ends_with("\"total_tokens\":0}"));
    assert!(to_string(&report_usage(None)).unwrap().ends_with("\"total_tokens\":0}"));
}

#[test]
fn counts_that_do_not_fit_are_told() {
    let usage = "{\"prompt_tokens\":9223372036854775807,\"completion_tokens\":1,\"total_tokens\":5}";
    assert!(!token_counts_fit(Some(&json(usage))));
    assert!(token_counts_fit(Some(&json("{\"prompt_tokens\":9223372036854775807}"))));
    assert!(!token_counts_fit(Some(&json(
        "{\"prompt_tokens\":-9223372036854775808,\"completion_tokens\":-1}",
    ))));
    assert!(token_counts_fit(None));
    let chat = format!("{{\"usage\":{usage}}}");
    assert!(checked_chat_json_to_responses_json(chat.as_bytes()).is_none());
    assert_eq!(
        checked_chat_json_to_responses_json(b"{}").unwrap().unwrap(),
        translated("{}").into_bytes(),
    );
    assert_eq!(
        checked_chat_json_to_responses_json(b"{").unwrap(),
        Err(TranslateError {
            context: TranslateContext::ParseResponse,
            cause: "EOF while parsing an object at line 1 column 1".to_string(),
        }),
    );
}

#[test]
fn answers_that_are_no_json_are_refused() {
    assert_eq!(
        chat_completions_json_to_responses_json(b"<html>"),
        Err(TranslateError {
            context: TranslateContext::ParseResponse,
            cause: "expected value at line 1 column 1".to_string(),
        }),
    );
    assert_eq!(
        TranslateContext::ParseResponse.message(),
        "parsing chat completions response json",
    );
    assert_eq!(
        TranslateContext::SerializeResponse.message(),
        "serializing mapped responses json",
    );
}

#[test]
fn responses_read_back() {
    let chat = "{\"id\":\"\\u2028\\n\",\"choices\":[{\"message\":{\"content\":\"\\\"\\\\\"}}]}";
    let response = chat_response_to_response(&json(chat));
    let sent = chat_completions_json_to_responses_json(chat.as_bytes()).unwrap();
    assert_eq!(
        to_string(&parse_slice(&sent).unwrap()).unwrap(),
        to_string(&response).unwrap(),
    );
}

#[test]
fn calls_survive_the_way_back() {
    let item = call_output_item("f", "{\"a\":1}", "c");
    let message = input_item_to_chat_message(&item).unwrap();
    let chat = Json::object().with(
        "choices",
        Json::list(vec![Json::object().with("message", message)]),
    );
    let response = chat_response_to_response(&chat);
    let items = response.list_at("output").unwrap();
    assert_eq!(items.len(), 1);
    assert_eq!(to_string(&items[0]).unwrap(), to_string(&item).unwrap());
}

#[test]
fn messages_survive_the_way_back() {
    let item = message_output_item("Hi");
    let message = input_item_to_chat_message(&item).unwrap();
    assert_eq!(
        to_string(&message).unwrap(),
        "{\"content\":\"Hi\",\"role\":\"assistant\"}",
    );
    let chat = Json::object().with(
        "choices",
        Json::list(vec![Json::object().with("message", message)]),
    );
    let response = chat_response_to_response(&chat);
    let items = response.list_at("output").unwrap();
    assert_eq!(items.len(), 1);
    assert_eq!(to_string(&items[0]).unwrap(), to_string(&item).unwrap());
}
