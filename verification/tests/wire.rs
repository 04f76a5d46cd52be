use deepseek_api::message::{Assistant, Function, Message, System, Tool, ToolCall, User};
use deepseek_api::message::{clone_calls, clone_messages, clone_text};
use deepseek_api::request::{ResponseFormat, ResponseFormatType, Thinking, ThinkingType};
use deepseek_api::request::Tool as Descriptor;
use deepseek_api::ToolCallType;

fn double(arguments: String) -> String {
    format!("{arguments}{arguments}")
}

fn sample_call(id: &str) -> ToolCall {
    ToolCall {
        kind: ToolCallType::Function,
        id: id.to_string(),
        function: Function { name: "f".to_string(), arguments: "{}".to_string() },
    }
}

#[test]
fn thinking_enabled_and_disabled() {
    assert_eq!(Thinking::enabled(), Thinking { kind: ThinkingType::Enabled });
    assert_eq!(Thinking::disabled(), Thinking { kind: ThinkingType::Disabled });
    assert_ne!(Thinking::enabled(), Thinking::disabled());
}

#[test]
fn response_format_from_its_type() {
    assert_eq!(
        ResponseFormat::from(ResponseFormatType::JsonObject),
        ResponseFormat { kind: ResponseFormatType::JsonObject }
    );
    assert_eq!(ResponseFormat::from(ResponseFormatType::Text).kind, ResponseFormatType::Text);
}

#[test]
fn messages_from_their_parts() {
    let system: Message = System { name: Some("s".to_string()), content: "be brief".to_string() }.into();
    assert!(matches!(&system, Message::System(m)
        if m.name.as_deref() == Some("s") && m.content == "be brief"));
    let user: Message = User { name: None, content: "hi".to_string() }.into();
    assert!(matches!(&user, Message::User(m) if m.name.is_none() && m.content == "hi"));
    let assistant: Message = Assistant {
        name: None,
        content: "yo".to_string(),
        reasoning_content: Some("r".to_string()),
        tool_calls: Some(vec![sample_call("c1")]),
    }
    .into();
    assert!(matches!(&assistant, Message::Assistant(m)
        if m.content == "yo" && m.reasoning_content.as_deref() == Some("r")
            && m.tool_calls.as_ref().unwrap()[0].id == "c1"));
    let tool: Message = Tool { tool_call_id: "c1".to_string(), content: "out".to_string() }.into();
    assert!(matches!(&tool, Message::Tool(m) if m.tool_call_id == "c1" && m.content == "out"));
}

#[test]
fn descriptor_from_a_registered_tool() {
    let tool = deepseek_api::Function {
        name: "double".to_string(),
        description: "says it twice".to_string(),
        parameters: schemars::Schema::from(true),
        call: double as fn(String) -> String,
    };
    let described = tool.descriptor();
    let Descriptor::Function { name, description, parameters } = &described;
    assert_eq!(name, "double");
    assert_eq!(description, "says it twice");
    assert_eq!(parameters, &schemars::Schema::from(true));
    assert_eq!((tool.call)("ab".to_string()), "abab");
    let Descriptor::Function { name, description, parameters } = Descriptor::from(tool);
    assert_eq!(name, "double");
    assert_eq!(description, "says it twice");
    assert_eq!(parameters, schemars::Schema::from(true));
}

#[test]
fn descriptor_keeps_an_object_schema() {
    let mut map = serde_json::Map::new();
    map.insert("type".to_string(), serde_json::Value::String("object".to_string()));
    let schema = schemars::Schema::from(map);
    let tool = deepseek_api::Function {
        name: "t".to_string(),
        description: String::new(),
        parameters: schema.clone(),
        call: double as fn(String) -> String,
    };
    let Descriptor::Function { parameters, .. } = tool.descriptor();
    assert_eq!(parameters, schema);
    assert_ne!(parameters, schemars::Schema::from(true));
}

#[test]
fn copies_hold_the_same_text() {
    assert_eq!(clone_text(&None), None);
    assert_eq!(clone_text(&Some("abc".to_string())), Some("abc".to_string()));
    let calls = vec![sample_call("a"), sample_call("b")];
    let copied = clone_calls(&calls);
    assert_eq!(copied.len(), 2);
    assert_eq!(copied[0].id, "a");
    assert_eq!(copied[1].id, "b");
    assert_eq!(copied[1].function.name, "f");
    assert_eq!(copied[1].function.arguments, "{}");
    assert!(clone_calls(&Vec::new()).is_empty());
}

#[test]
fn messages_are_copied_from_a_position() {
    let messages = vec![
        Message::System(System { name: None, content: "s".to_string() }),
        Message::User(User { name: Some("u".to_string()), content: "q".to_string() }),
        Message::Assistant(Assistant {
            name: None,
            content: "a".to_string(),
            reasoning_content: None,
            tool_calls: Some(vec![sample_call("c")]),
        }),
        Message::Tool(Tool { tool_call_id: "c".to_string(), content: "r".to_string() }),
    ];
    let all = clone_messages(&messages, 0);
    assert_eq!(all.len(), 4);
    assert!(matches!(&all[0], Message::System(m) if m.content == "s"));
    assert!(matches!(&all[1], Message::User(m) if m.name.as_deref() == Some("u")));
    let tail = clone_messages(&messages, 2);
    assert_eq!(tail.len(), 2);
    assert!(matches!(&tail[0], Message::Assistant(m)
        if m.tool_calls.as_ref().unwrap()[0].id == "c"));
    assert!(matches!(&tail[1], Message::Tool(m) if m.content == "r"));
    assert!(clone_messages(&messages, 4).is_empty());
    let one = messages[2].clone();
    assert!(matches!(&one, Message::Assistant(m) if m.content == "a"));
}
