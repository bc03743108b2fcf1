use claw::json::tool_input_from_json;
use claw::message::Message;

#[test]
fn tool_input_is_normalised_or_empty_object() {
    assert_eq!(tool_input_from_json("{ \"a\" : 1 ,\"b\":[ true ] }"), "{\"a\":1,\"b\":[true]}");
    assert_eq!(tool_input_from_json("{not valid json at all}}}"), "{}");
    assert_eq!(tool_input_from_json(""), "{}");
    assert_eq!(tool_input_from_json("  42 "), "42");
}

#[test]
fn message_constructors() {
    let m = Message::user("hi".to_string());
    let r = m.to_request_message();
    assert_eq!(r.role, "user");
    let m = Message::assistant_text("yo".to_string());
    assert_eq!(m.to_request_message().role, "assistant");
}
