//! The decisions of the MCP (Model Context Protocol) adapter: which reply a
//! JSON-RPC message line gets, decoded from the line itself. Running the tools
//! and writing the JSON envelope are the caller's.
use vstd::prelude::*;

use crate::json::{
    has_member, json_has_member, json_member_string, json_parses, member_string, parses_as_json,
};
use crate::strings::str_eq;

verus! {

/// The MCP protocol revision the adapter speaks.
pub const PROTOCOL_VERSION: &'static str = "2024-11-05";

/// The reply a message gets.
#[derive(Debug, Clone, Copy, PartialEq, Eq, Structural)]
pub enum McpReply {
    /// A notification (no `id`): no reply at all.
    NoReply,
    /// `initialize`: the protocol version and server info.
    Initialize,
    /// `tools/list`: the tool definitions.
    ListTools,
    /// `tools/call`: the result of running the named tool.
    CallTool,
    /// `ping`: an empty result.
    Pong,
    /// Any other method: a "method not found" error (code -32601).
    MethodNotFound,
}

/// The reply owed to a message with method `method` (the empty string when
/// it has none), which carries an `id` exactly when `has_id`.
pub open spec fn reply_for(method: Seq<char>, has_id: bool) -> McpReply {
    if !has_id {
        McpReply::NoReply
    } else if method == "initialize"@ {
        McpReply::Initialize
    } else if method == "tools/list"@ {
        McpReply::ListTools
    } else if method == "tools/call"@ {
        McpReply::CallTool
    } else if method == "ping"@ {
        McpReply::Pong
    } else {
        McpReply::MethodNotFound
    }
}

/// Decide the reply to one decoded MCP message.
pub fn route(method: &str, has_id: bool) -> (res: McpReply)
    ensures
        res == reply_for(method@, has_id),
{
    if !has_id {
        McpReply::NoReply
    } else if str_eq(method, "initialize") {
        McpReply::Initialize
    } else if str_eq(method, "tools/list") {
        McpReply::ListTools
    } else if str_eq(method, "tools/call") {
        McpReply::CallTool
    } else if str_eq(method, "ping") {
        McpReply::Pong
    } else {
        McpReply::MethodNotFound
    }
}

/// The JSON-RPC error code for a message that is not JSON.
pub const PARSE_ERROR: i32 = -32700;

/// The JSON-RPC error code for an unknown method.
pub const METHOD_NOT_FOUND: i32 = -32601;

/// What a message line decodes to.
#[derive(Debug, Clone, PartialEq, Eq)]
pub enum Decoded {
    /// The line is not JSON: a parse error (code -32700) is owed.
    ParseError,
    /// The reply owed, and the message's method (empty when it has none).
    Reply(McpReply, String),
}

/// The method of a message: its string member `method`, or the empty string.
pub open spec fn method_of(line: Seq<char>) -> Seq<char> {
    match json_member_string(line, "method"@) {
        Some(m) => m,
        None => Seq::empty(),
    }
}

/// Decode one MCP message line and decide its reply: a parse error when the
/// line is not JSON; else the reply its method and `id` call for.
pub fn decode_message(line: &str) -> (res: Decoded)
    ensures
        !json_parses(line@) <==> res is ParseError,
        json_parses(line@) ==> (res matches Decoded::Reply(r, m) && r == reply_for(
            method_of(line@),
            json_has_member(line@, "id"@),
        ) && m@ == method_of(line@)),
{
    if !parses_as_json(line) {
        return Decoded::ParseError;
    }
    let method = match member_string(line, "method") {
        Some(m) => m,
        None => String::new(),
    };
    let has_id = has_member(line, "id");
    Decoded::Reply(route(method.as_str(), has_id), method)
}

/// The JSON type of a tool parameter.
#[derive(Debug, Clone, Copy, PartialEq, Eq, Structural)]
pub enum ParamKind {
    /// A string.
    Text,
    /// An array of strings.
    TextList,
}

/// One parameter of a tool's input schema.
#[derive(Debug, Clone, Copy, PartialEq, Eq)]
pub struct ToolParam {
    pub name: &'static str,
    pub kind: ParamKind,
    pub description: Option<&'static str>,
}

/// One tool the adapter advertises: its name, what it answers, its
/// parameters and which of them are required.
#[derive(Debug, Clone)]
pub struct ToolSpec {
    pub name: &'static str,
    pub description: &'static str,
    pub params: Vec<ToolParam>,
    pub required: Vec<&'static str>,
}

/// A parameter as plain values: name, kind, description.
pub open spec fn param_view(p: ToolParam) -> (Seq<char>, ParamKind, Option<Seq<char>>) {
    (p.name@, p.kind, match p.description {
        Some(d) => Some(d@),
        None => None,
    })
}

/// `t` is the tool with these name, description, parameters and required
/// parameters.
pub open spec fn is_tool(
    t: ToolSpec,
    name: Seq<char>,
    description: Seq<char>,
    params: Seq<(Seq<char>, ParamKind, Option<Seq<char>>)>,
    required: Seq<Seq<char>>,
) -> bool {
    &&& t.name@ == name
    &&& t.description@ == description
    &&& t.params@.map_values(|p: ToolParam| param_view(p)) == params
    &&& t.required@.map_values(|r: &str| r@) == required
}

/// The parameter listing the changed files.
pub open spec fn changed_param() -> (Seq<char>, ParamKind, Option<Seq<char>>) {
    ("changed"@, ParamKind::TextList, Some("Changed file paths (repo-relative)"@))
}

fn changed() -> (res: ToolParam)
    ensures
        param_view(res) == changed_param(),
{
    ToolParam { name: "changed", kind: ParamKind::TextList, description: Some("Changed file paths (repo-relative)") }
}

fn text_param(name: &'static str) -> (res: ToolParam)
    ensures
        param_view(res) == (name@, ParamKind::Text, None::<Seq<char>>),
{
    ToolParam { name, kind: ParamKind::Text, description: None }
}

fn tool(name: &'static str, description: &'static str, params: Vec<ToolParam>, required: &'static str) -> (res: ToolSpec)
    ensures
        res.name == name,
        res.description == description,
        res.params@ == params@,
        res.required@.map_values(|r: &str| r@) == seq![required@],
{
    let mut req: Vec<&'static str> = Vec::new();
    req.push(required);
    assert(req@.map_values(|r: &str| r@) =~= seq![required@]);
    ToolSpec { name, description, params, required: req }
}

/// The MCP tool surface — only the kernel's ground-truth queries.
pub fn tool_specs() -> (res: Vec<ToolSpec>)
    ensures
        res@.len() == 4,
        is_tool(
            res@[0],
            "symbol_exists"@,
            "Does a symbol/helper with this name already exist? (avoids reinvention) — returns its file, kind, and line."@,
            seq![("name"@, ParamKind::Text, None)],
            seq!["name"@],
        ),
        is_tool(
            res@[1],
            "impact"@,
            "Which tests reach the given changed files (impact-based selection)."@,
            seq![changed_param(), ("always_run"@, ParamKind::TextList, None)],
            seq!["changed"@],
        ),
        is_tool(
            res@[2],
            "gate"@,
            "Policy/ACL/lease violations the change would cause (deterministic deny)."@,
            seq![changed_param(), ("actor"@, ParamKind::Text, None)],
            seq!["changed"@],
        ),
        is_tool(
            res@[3],
            "context_pack"@,
            "Minimal task context: impacted tests, gate preview, and reusable existing symbols."@,
            seq![changed_param(), ("actor"@, ParamKind::Text, None)],
            seq!["changed"@],
        ),
{
    let mut p0: Vec<ToolParam> = Vec::new();
    p0.push(text_param("name"));
    assert(p0@.map_values(|p: ToolParam| param_view(p)) =~= seq![("name"@, ParamKind::Text, None)]);
    let mut p1: Vec<ToolParam> = Vec::new();
    p1.push(changed());
    p1.push(ToolParam { name: "always_run", kind: ParamKind::TextList, description: None });
    assert(p1@.map_values(|p: ToolParam| param_view(p)) =~= seq![changed_param(), ("always_run"@, ParamKind::TextList, None)]);
    let mut p2: Vec<ToolParam> = Vec::new();
    p2.push(changed());
    p2.push(text_param("actor"));
    assert(p2@.map_values(|p: ToolParam| param_view(p)) =~= seq![changed_param(), ("actor"@, ParamKind::Text, None)]);
    let mut p3: Vec<ToolParam> = Vec::new();
    p3.push(changed());
    p3.push(text_param("actor"));
    assert(p3@.map_values(|p: ToolParam| param_view(p)) =~= seq![changed_param(), ("actor"@, ParamKind::Text, None)]);
    let mut specs: Vec<ToolSpec> = Vec::new();
    specs.push(tool(
        "symbol_exists",
        "Does a symbol/helper with this name already exist? (avoids reinvention) — returns its file, kind, and line.",
        p0,
        "name",
    ));
    specs.push(tool("impact", "Which tests reach the given changed files (impact-based selection).", p1, "changed"));
    specs.push(tool("gate", "Policy/ACL/lease violations the change would cause (deterministic deny).", p2, "changed"));
    specs.push(tool(
        "context_pack",
        "Minimal task context: impacted tests, gate preview, and reusable existing symbols.",
        p3,
        "changed",
    ));
    specs
}

} // verus!
