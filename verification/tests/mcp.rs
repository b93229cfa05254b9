use agent_doctor::mcp::{
    decode_message, route, tool_specs, Decoded, McpReply, ParamKind, ToolParam, METHOD_NOT_FOUND, PARSE_ERROR, PROTOCOL_VERSION,
};

#[test]
fn requests_are_routed_by_method() {
    assert_eq!(route("initialize", true), McpReply::Initialize);
    assert_eq!(route("tools/list", true), McpReply::ListTools);
    assert_eq!(route("tools/call", true), McpReply::CallTool);
    assert_eq!(route("ping", true), McpReply::Pong);
    assert_eq!(route("resources/list", true), McpReply::MethodNotFound);
    assert_eq!(route("", true), McpReply::MethodNotFound);
}

#[test]
fn notifications_get_no_reply() {
    assert_eq!(route("notifications/initialized", false), McpReply::NoReply);
    assert_eq!(route("initialize", false), McpReply::NoReply);
}

#[test]
fn protocol_constants() {
    assert_eq!(PROTOCOL_VERSION, "2024-11-05");
    assert_eq!(PARSE_ERROR, -32700);
    assert_eq!(METHOD_NOT_FOUND, -32601);
}

fn reply(reply: McpReply, method: &str) -> Decoded {
    Decoded::Reply(reply, method.to_string())
}

#[test]
fn message_lines_decode_to_their_replies() {
    assert_eq!(
        decode_message(r#"{"jsonrpc":"2.0","id":1,"method":"initialize","params":{}}"#),
        reply(McpReply::Initialize, "initialize")
    );
    assert_eq!(decode_message(r#"{"jsonrpc":"2.0","id":2,"method":"tools/list"}"#), reply(McpReply::ListTools, "tools/list"));
    assert_eq!(decode_message(r#"{"id":"x","method":"tools/call"}"#), reply(McpReply::CallTool, "tools/call"));
    assert_eq!(decode_message(r#"{"id":null,"method":"ping"}"#), reply(McpReply::Pong, "ping"));
    assert_eq!(
        decode_message(r#"{"jsonrpc":"2.0","method":"notifications/initialized"}"#),
        reply(McpReply::NoReply, "notifications/initialized")
    );
    assert_eq!(decode_message(r#"{"id":3,"method":7}"#), reply(McpReply::MethodNotFound, ""));
    assert_eq!(decode_message(r#"{"id":3}"#), reply(McpReply::MethodNotFound, ""));
    assert_eq!(decode_message("[1, 2]"), reply(McpReply::NoReply, ""));
    assert_eq!(decode_message("{not json"), Decoded::ParseError);
    assert_eq!(decode_message(""), Decoded::ParseError);
}

#[test]
fn tool_surface() {
    let tools = tool_specs();
    let names: Vec<&str> = tools.iter().map(|t| t.name).collect();
    assert_eq!(names, vec!["symbol_exists", "impact", "gate", "context_pack"]);
    assert_eq!(tools[0].required, vec!["name"]);
    assert_eq!(tools[0].params, vec![ToolParam { name: "name", kind: ParamKind::Text, description: None }]);
    for tool in &tools[1..] {
        assert_eq!(tool.required, vec!["changed"]);
        assert_eq!(
            tool.params[0],
            ToolParam { name: "changed", kind: ParamKind::TextList, description: Some("Changed file paths (repo-relative)") }
        );
    }
    assert_eq!(tools[1].params[1].name, "always_run");
    assert_eq!(tools[1].params[1].kind, ParamKind::TextList);
    assert_eq!(tools[2].params[1], ToolParam { name: "actor", kind: ParamKind::Text, description: None });
    assert_eq!(tools[2].description, "Policy/ACL/lease violations the change would cause (deterministic deny).");
}
