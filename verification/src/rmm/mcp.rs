//! The request handler of the Model Context Protocol server (newline-delimited
//! JSON-RPC 2.0), by which local agents drive the tooling. Read tools are
//! always available; tools that change state require the `rmm-agent-write`
//! option, which the agent cannot set itself.
//!
//! Handling a request is a decision: either a response, or a tool action that
//! the surrounding program performs and then completes with
//! `complete_tool_call`.
use vstd::prelude::*;
use crate::json::{
    parse_json, parsed_json, json_error_text, empty_object, get, jstr, lookup, json_str, push_field, push_item, str_of, view_fields, view_items, Json,
    JsonView,
};
use crate::text::{concat, is_prefix, starts_with, str_eq, trim, trimmed};
use crate::rmm::monitor::{merged_alerts, recent_alerts, stored_alerts, texts};
use crate::rmm::{find_option, option_value, options_view};

verus! {

/// The option that opens the write tools to the agent.
pub open spec fn agent_write_option() -> Seq<char> {
    "rmm-agent-write"@
}

/// The protocol version the server answers with when the client names none.
pub open spec fn default_protocol_version() -> Seq<char> {
    "2025-06-18"@
}

/// The prefix of the options that the tooling owns.
pub open spec fn rmm_prefix() -> Seq<char> {
    "rmm-"@
}

/// An action that answering a tool call needs from the host.
pub enum ToolAction {
    /// The machine's RustDesk ID and version.
    GetStatus,
    /// The hardware and software inventory.
    GetInventory,
    /// Monitoring settings and recent alerts.
    GetAlerts,
    /// The scripts of the script library.
    ListScripts,
    /// The peers this machine has connected to.
    ListPeers,
    /// Run the named script and answer with its output.
    RunScript(String),
    /// Set the named option to the value.
    SetOption(String, String),
}

/// The model of a tool action.
pub enum ToolActionView {
    GetStatus,
    GetInventory,
    GetAlerts,
    ListScripts,
    ListPeers,
    RunScript(Seq<char>),
    SetOption(Seq<char>, Seq<char>),
}

impl View for ToolAction {
    type V = ToolActionView;

    open spec fn view(&self) -> ToolActionView {
        match self {
            ToolAction::GetStatus => ToolActionView::GetStatus,
            ToolAction::GetInventory => ToolActionView::GetInventory,
            ToolAction::GetAlerts => ToolActionView::GetAlerts,
            ToolAction::ListScripts => ToolActionView::ListScripts,
            ToolAction::ListPeers => ToolActionView::ListPeers,
            ToolAction::RunScript(name) => ToolActionView::RunScript(name@),
            ToolAction::SetOption(name, value) => ToolActionView::SetOption(name@, value@),
        }
    }
}

/// Whether an action changes the state of the machine.
pub open spec fn is_write_action(a: ToolActionView) -> bool {
    a is RunScript || a is SetOption
}

/// What a request leads to.
pub enum Handled {
    /// Send this response.
    Respond(Json),
    /// Perform the action, then answer the request with this id by
    /// `complete_tool_call`.
    Perform(Json, ToolAction),
}

/// The model of what a request leads to.
pub enum HandledView {
    Respond(JsonView),
    Perform(JsonView, ToolActionView),
}

impl View for Handled {
    type V = HandledView;

    open spec fn view(&self) -> HandledView {
        match self {
            Handled::Respond(j) => HandledView::Respond(j@),
            Handled::Perform(id, a) => HandledView::Perform(id@, a@),
        }
    }
}

pub open spec fn handled_view(h: Option<Handled>) -> Option<HandledView> {
    match h {
        Some(h) => Some(h@),
        None => None,
    }
}

/// A successful JSON-RPC response.
pub open spec fn result_response(id: JsonView, result: JsonView) -> JsonView {
    JsonView::Object(seq![("jsonrpc"@, jstr("2.0"@)), ("id"@, id), ("result"@, result)])
}

/// A JSON-RPC error response.
pub open spec fn error_response(id: JsonView, code: int, message: Seq<char>) -> JsonView {
    JsonView::Object(
        seq![
            ("jsonrpc"@, jstr("2.0"@)),
            ("id"@, id),
            ("error"@, JsonView::Object(seq![("code"@, JsonView::Int(code)), ("message"@, jstr(message))])),
        ],
    )
}

/// The answer to a tool call: its text, and whether it reports an error.
pub open spec fn tool_response(id: JsonView, text: Seq<char>, is_error: bool) -> JsonView {
    result_response(
        id,
        JsonView::Object(
            seq![
                ("content"@, JsonView::Array(seq![JsonView::Object(seq![("type"@, jstr("text"@)), ("text"@, jstr(text))])])),
                ("isError"@, JsonView::Bool(is_error)),
            ],
        ),
    )
}

/// The description of one tool.
pub open spec fn tool_spec(
    name: Seq<char>,
    description: Seq<char>,
    properties: JsonView,
    required: Seq<Seq<char>>,
) -> JsonView {
    JsonView::Object(
        seq![
            ("name"@, jstr(name)),
            ("description"@, jstr(description)),
            ("inputSchema"@, JsonView::Object(
                seq![
                    ("type"@, jstr("object"@)),
                    ("properties"@, properties),
                    ("required"@, JsonView::Array(required.map_values(|r: Seq<char>| jstr(r)))),
                ],
            )),
        ],
    )
}

/// The schema of one string argument.
pub open spec fn string_type() -> JsonView {
    JsonView::Object(seq![("type"@, jstr("string"@))])
}

/// The tools the server offers.
pub open spec fn tools() -> Seq<JsonView> {
    seq![
        tool_spec("get_status"@, "RustDesk ID and version of this machine."@, empty_object(), seq![]),
        tool_spec("get_inventory"@, "Hardware, OS and installed software on this machine."@, empty_object(), seq![]),
        tool_spec("get_alerts"@, "Monitoring thresholds and the 20 most recent alerts."@, empty_object(), seq![]),
        tool_spec("list_scripts"@, "Scripts in the local script library."@, empty_object(), seq![]),
        tool_spec("list_peers"@, "Remote peers this machine has connected to."@, empty_object(), seq![]),
        tool_spec(
            "run_script"@,
            "Run a script from the local library and return its output. Requires the rmm-agent-write option."@,
            JsonView::Object(seq![("name"@, string_type())]),
            seq!["name"@],
        ),
        tool_spec(
            "set_option"@,
            "Set an rmm-* option, e.g. rmm-monitor-enabled=Y or rmm-cpu-threshold=90. Requires the rmm-agent-write option."@,
            JsonView::Object(seq![("name"@, string_type()), ("value"@, string_type())]),
            seq!["name"@, "value"@],
        ),
    ]
}

/// The refusal of a write tool while the write tools are closed.
pub open spec fn write_disabled_message() -> Seq<char> {
    "Write tools are disabled. A human must run: rustdesk --option rmm-agent-write Y"@
}

/// The refusal of an option that the agent may not set.
pub open spec fn option_refused_message() -> Seq<char> {
    "Only rmm-* options other than rmm-agent-write can be set"@
}

/// The refusal of a call that lacks a string argument.
pub open spec fn missing_argument_message(key: Seq<char>) -> Seq<char> {
    "Missing string argument '"@ + key + "'"@
}

/// The string argument `key` of a tool call.
pub open spec fn string_argument(args: JsonView, key: Seq<char>) -> Result<Seq<char>, Seq<char>> {
    match str_of(get(args, key)) {
        Some(s) => Ok(s),
        None => Err(missing_argument_message(key)),
    }
}

/// Whether the agent may set the option `key`: one of the tooling's own
/// options, other than the one that opens the write tools.
pub open spec fn agent_may_set(key: Seq<char>) -> bool {
    is_prefix(rmm_prefix(), key) && key != agent_write_option()
}

/// What a call of the tool `name` leads to: the action that answers it, or
/// the error text it is refused with.
pub open spec fn tool_outcome(name: Seq<char>, args: JsonView, write_allowed: bool) -> Result<
    ToolActionView,
    Seq<char>,
> {
    if name == "get_status"@ {
        Ok(ToolActionView::GetStatus)
    } else if name == "get_inventory"@ {
        Ok(ToolActionView::GetInventory)
    } else if name == "get_alerts"@ {
        Ok(ToolActionView::GetAlerts)
    } else if name == "list_scripts"@ {
        Ok(ToolActionView::ListScripts)
    } else if name == "list_peers"@ {
        Ok(ToolActionView::ListPeers)
    } else if name == "run_script"@ {
        if !write_allowed {
            Err(write_disabled_message())
        } else {
            match string_argument(args, "name"@) {
                Ok(script) => Ok(ToolActionView::RunScript(script)),
                Err(e) => Err(e),
            }
        }
    } else if name == "set_option"@ {
        if !write_allowed {
            Err(write_disabled_message())
        } else {
            match string_argument(args, "name"@) {
                Err(e) => Err(e),
                Ok(key) => if !agent_may_set(key) {
                    Err(option_refused_message())
                } else {
                    match string_argument(args, "value"@) {
                        Ok(value) => Ok(ToolActionView::SetOption(key, value)),
                        Err(e) => Err(e),
                    }
                },
            }
        }
    } else {
        Err("Unknown tool: "@ + name)
    }
}

/// The result of `initialize`.
pub open spec fn initialize_result(params: JsonView, version: Seq<char>) -> JsonView {
    let requested = match str_of(get(params, "protocolVersion"@)) {
        Some(v) => v,
        None => default_protocol_version(),
    };
    JsonView::Object(
        seq![
            ("protocolVersion"@, jstr(requested)),
            ("capabilities"@, JsonView::Object(seq![("tools"@, empty_object())])),
            ("serverInfo"@, JsonView::Object(seq![("name"@, jstr("rustdesk"@)), ("version"@, jstr(version))])),
        ],
    )
}

/// What the server does with a request. A request without an id is a
/// notification and gets no response.
pub open spec fn handle_spec(req: JsonView, write_allowed: bool, version: Seq<char>) -> Option<
    HandledView,
> {
    match get(req, "id"@) {
        None => None,
        Some(id) => {
            let params = match get(req, "params"@) {
                Some(p) => p,
                None => JsonView::Null,
            };
            let method = match str_of(get(req, "method"@)) {
                Some(m) => m,
                None => ""@,
            };
            Some(
                if method == "initialize"@ {
                    HandledView::Respond(result_response(id, initialize_result(params, version)))
                } else if method == "ping"@ {
                    HandledView::Respond(result_response(id, empty_object()))
                } else if method == "tools/list"@ {
                    HandledView::Respond(
                        result_response(id, JsonView::Object(seq![("tools"@, JsonView::Array(tools()))])),
                    )
                } else if method == "tools/call"@ {
                    let name = match str_of(get(params, "name"@)) {
                        Some(n) => n,
                        None => ""@,
                    };
                    let args = match get(params, "arguments"@) {
                        Some(a) => a,
                        None => empty_object(),
                    };
                    match tool_outcome(name, args, write_allowed) {
                        Ok(action) => HandledView::Perform(id, action),
                        Err(text) => HandledView::Respond(tool_response(id, text, true)),
                    }
                } else {
                    HandledView::Respond(error_response(id, -32601, "Method not found: "@ + method))
                },
            )
        },
    }
}

/// A successful response to the request with this id.
pub fn result(id: Json, value: Json) -> (r: Json)
    ensures
        r@ == result_response(id@, value@),
{
    let mut fields: Vec<(String, Json)> = Vec::new();
    push_field(&mut fields, "jsonrpc", json_str("2.0"));
    push_field(&mut fields, "id", id);
    push_field(&mut fields, "result", value);
    let r = Json::Object(fields);
    assert(view_fields(fields@) =~= seq![("jsonrpc"@, jstr("2.0"@)), ("id"@, id@), ("result"@, value@)]);
    r
}

/// An error response to the request with this id.
pub fn error(id: Json, code: i32, message: &str) -> (r: Json)
    ensures
        r@ == error_response(id@, code as int, message@),
{
    let mut inner: Vec<(String, Json)> = Vec::new();
    push_field(&mut inner, "code", Json::Int(code as i128));
    push_field(&mut inner, "message", json_str(message));
    assert(view_fields(inner@) =~= seq![("code"@, JsonView::Int(code as int)), ("message"@, jstr(message@))]);
    let mut fields: Vec<(String, Json)> = Vec::new();
    push_field(&mut fields, "jsonrpc", json_str("2.0"));
    push_field(&mut fields, "id", id);
    push_field(&mut fields, "error", Json::Object(inner));
    assert(view_fields(fields@) =~= seq![
        ("jsonrpc"@, jstr("2.0"@)),
        ("id"@, id@),
        ("error"@, JsonView::Object(view_fields(inner@))),
    ]);
    Json::Object(fields)
}

/// The response sent for a line that is not JSON.
pub fn parse_error(detail: &str) -> (r: Json)
    ensures
        r@ == error_response(JsonView::Null, -32700, "Parse error: "@ + detail@),
{
    let message = concat("Parse error: ", detail);
    error(Json::Null, -32700, message.as_str())
}

/// The description of one tool.
pub fn tool(name: &str, description: &str, properties: Json, required: &Vec<&str>) -> (r: Json)
    ensures
        r@ == tool_spec(
            name@,
            description@,
            properties@,
            required@.map_values(|s: &str| s@),
        ),
{
    let mut names: Vec<Json> = Vec::new();
    let mut i: usize = 0;
    while i < required.len()
        invariant
            i <= required@.len(),
            view_items(names@) == required@.take(i as int).map_values(|s: &str| jstr(s@)),
        decreases required@.len() - i,
    {
        push_item(&mut names, json_str(required[i]));
        assert(required@.take(i + 1).map_values(|s: &str| jstr(s@)) =~= required@.take(
            i as int,
        ).map_values(|s: &str| jstr(s@)).push(jstr(required@[i as int]@)));
        i = i + 1;
    }
    assert(required@.take(required@.len() as int) =~= required@);
    assert(required@.map_values(|s: &str| jstr(s@)) =~= required@.map_values(|s: &str| s@).map_values(
        |r: Seq<char>| jstr(r),
    ));
    let mut schema: Vec<(String, Json)> = Vec::new();
    push_field(&mut schema, "type", json_str("object"));
    push_field(&mut schema, "properties", properties);
    push_field(&mut schema, "required", Json::Array(names));
    let mut fields: Vec<(String, Json)> = Vec::new();
    push_field(&mut fields, "name", json_str(name));
    push_field(&mut fields, "description", json_str(description));
    push_field(&mut fields, "inputSchema", Json::Object(schema));
    assert(view_fields(schema@) =~= seq![
        ("type"@, jstr("object"@)),
        ("properties"@, properties@),
        ("required"@, JsonView::Array(required@.map_values(|s: &str| s@).map_values(|r: Seq<char>| jstr(r)))),
    ]);
    assert(view_fields(fields@) =~= seq![
        ("name"@, jstr(name@)),
        ("description"@, jstr(description@)),
        ("inputSchema"@, JsonView::Object(view_fields(schema@))),
    ]);
    Json::Object(fields)
}

fn string_type_json() -> (r: Json)
    ensures
        r@ == string_type(),
{
    let mut fields: Vec<(String, Json)> = Vec::new();
    push_field(&mut fields, "type", json_str("string"));
    assert(view_fields(fields@) =~= seq![("type"@, jstr("string"@))]);
    Json::Object(fields)
}

fn empty_object_json() -> (r: Json)
    ensures
        r@ == empty_object(),
{
    let fields: Vec<(String, Json)> = Vec::new();
    assert(view_fields(fields@) =~= Seq::empty());
    Json::Object(fields)
}

/// The tools the server offers.
pub fn tool_list() -> (r: Vec<Json>)
    ensures
        view_items(r@) == tools(),
        r@.len() == 7,
{
    let none: Vec<&str> = Vec::new();
    assert(none@.map_values(|s: &str| s@) =~= Seq::<Seq<char>>::empty());
    let mut out: Vec<Json> = Vec::new();
    let t = tool("get_status", "RustDesk ID and version of this machine.", empty_object_json(), &none);
    assert(t@ == tools()[0]);
    push_item(&mut out, t);
    let t = tool(
        "get_inventory",
        "Hardware, OS and installed software on this machine.",
        empty_object_json(),
        &none,
    );
    assert(t@ == tools()[1]);
    push_item(&mut out, t);
    let t = tool(
        "get_alerts",
        "Monitoring thresholds and the 20 most recent alerts.",
        empty_object_json(),
        &none,
    );
    assert(t@ == tools()[2]);
    push_item(&mut out, t);
    let t = tool("list_scripts", "Scripts in the local script library.", empty_object_json(), &none);
    assert(t@ == tools()[3]);
    push_item(&mut out, t);
    let t = tool("list_peers", "Remote peers this machine has connected to.", empty_object_json(), &none);
    assert(t@ == tools()[4]);
    push_item(&mut out, t);
    let mut run_props: Vec<(String, Json)> = Vec::new();
    push_field(&mut run_props, "name", string_type_json());
    assert(view_fields(run_props@) =~= seq![("name"@, string_type())]);
    let mut run_required: Vec<&str> = Vec::new();
    run_required.push("name");
    assert(run_required@.map_values(|s: &str| s@) =~= seq!["name"@]);
    let t = tool(
        "run_script",
        "Run a script from the local library and return its output. Requires the rmm-agent-write option.",
        Json::Object(run_props),
        &run_required,
    );
    assert(t@ == tools()[5]);
    push_item(&mut out, t);
    let mut set_props: Vec<(String, Json)> = Vec::new();
    push_field(&mut set_props, "name", string_type_json());
    push_field(&mut set_props, "value", string_type_json());
    assert(view_fields(set_props@) =~= seq![("name"@, string_type()), ("value"@, string_type())]);
    let mut set_required: Vec<&str> = Vec::new();
    set_required.push("name");
    set_required.push("value");
    assert(set_required@.map_values(|s: &str| s@) =~= seq!["name"@, "value"@]);
    let t = tool(
        "set_option",
        "Set an rmm-* option, e.g. rmm-monitor-enabled=Y or rmm-cpu-threshold=90. Requires the rmm-agent-write option.",
        Json::Object(set_props),
        &set_required,
    );
    assert(t@ == tools()[6]);
    push_item(&mut out, t);
    assert(view_items(out@) =~= tools());
    proof {
        crate::json::lemma_view_items(out@);
    }
    out
}

/// The string argument `key` of a tool call, or the error naming it.
pub fn str_arg(args: &Json, key: &str) -> (r: Result<String, String>)
    ensures
        match r {
            Ok(s) => string_argument(args@, key@) == Ok::<Seq<char>, Seq<char>>(s@),
            Err(e) => string_argument(args@, key@) == Err::<Seq<char>, Seq<char>>(e@),
        },
{
    match args.get(key) {
        Some(v) => match v.as_str() {
            Some(s) => Ok(s.clone()),
            None => Err(concat(concat("Missing string argument '", key).as_str(), "'")),
        },
        None => Err(concat(concat("Missing string argument '", key).as_str(), "'")),
    }
}

/// Whether the agent may use the write tools: never when the command-line
/// settings are disabled, and otherwise only when the option that opens
/// them is set to exactly `Y`.
pub fn write_allowed(cli_settings_disabled: bool, options: &Vec<(String, String)>) -> (r: bool)
    ensures
        r == (!cli_settings_disabled && option_value(options_view(options@), agent_write_option())
            == Some("Y"@)),
{
    if cli_settings_disabled {
        return false;
    }
    match find_option(options, "rmm-agent-write") {
        Some(v) => str_eq(v.as_str(), "Y"),
        None => false,
    }
}

/// Passes when the write tools are open, and otherwise gives the refusal
/// that tells a human how to open them.
pub fn require_write(write_allowed: bool) -> (r: Result<(), String>)
    ensures
        write_allowed ==> r is Ok,
        !write_allowed ==> r is Err && r->Err_0@ == write_disabled_message(),
{
    if write_allowed {
        Ok(())
    } else {
        Err("Write tools are disabled. A human must run: rustdesk --option rmm-agent-write Y".to_owned())
    }
}

/// What a call of the tool `name` leads to: the action that answers it, or
/// the error text it is refused with. Write tools are refused unless
/// `write_allowed`, and `set_option` only touches the tooling's own options
/// other than the one that opens the write tools.
pub fn call_tool(name: &str, args: &Json, write_allowed: bool) -> (r: Result<ToolAction, String>)
    ensures
        match r {
            Ok(a) => tool_outcome(name@, args@, write_allowed) == Ok::<ToolActionView, Seq<char>>(a@),
            Err(e) => tool_outcome(name@, args@, write_allowed) == Err::<ToolActionView, Seq<char>>(e@),
        },
        r matches Ok(a) && is_write_action(a@) ==> write_allowed,
        r matches Ok(ToolAction::SetOption(key, _)) ==> agent_may_set(key@),
{
    if str_eq(name, "get_status") {
        Ok(ToolAction::GetStatus)
    } else if str_eq(name, "get_inventory") {
        Ok(ToolAction::GetInventory)
    } else if str_eq(name, "get_alerts") {
        Ok(ToolAction::GetAlerts)
    } else if str_eq(name, "list_scripts") {
        Ok(ToolAction::ListScripts)
    } else if str_eq(name, "list_peers") {
        Ok(ToolAction::ListPeers)
    } else if str_eq(name, "run_script") {
        require_write(write_allowed)?;
        let script = str_arg(args, "name")?;
        Ok(ToolAction::RunScript(script))
    } else if str_eq(name, "set_option") {
        require_write(write_allowed)?;
        let key = str_arg(args, "name")?;
        if !starts_with(key.as_str(), "rmm-") || str_eq(key.as_str(), "rmm-agent-write") {
            return Err("Only rmm-* options other than rmm-agent-write can be set".to_owned());
        }
        let value = str_arg(args, "value")?;
        Ok(ToolAction::SetOption(key, value))
    } else {
        Err(concat("Unknown tool: ", name))
    }
}

/// The answer to a tool call, from the text that the tool gave or the error
/// it failed with.
pub fn complete_tool_call(id: Json, outcome: Result<String, String>) -> (r: Json)
    ensures
        r@ == match outcome {
            Ok(text) => tool_response(id@, text@, false),
            Err(text) => tool_response(id@, text@, true),
        },
{
    let (text, is_error) = match outcome {
        Ok(text) => (text, false),
        Err(text) => (text, true),
    };
    let mut part: Vec<(String, Json)> = Vec::new();
    push_field(&mut part, "type", json_str("text"));
    push_field(&mut part, "text", Json::Str(text));
    let mut content: Vec<Json> = Vec::new();
    push_item(&mut content, Json::Object(part));
    let mut fields: Vec<(String, Json)> = Vec::new();
    push_field(&mut fields, "content", Json::Array(content));
    push_field(&mut fields, "isError", Json::Bool(is_error));
    assert(view_fields(part@) =~= seq![("type"@, jstr("text"@)), ("text"@, jstr(text@))]);
    assert(view_items(content@) =~= seq![JsonView::Object(view_fields(part@))]);
    assert(view_fields(fields@) =~= seq![
        ("content"@, JsonView::Array(view_items(content@))),
        ("isError"@, JsonView::Bool(is_error)),
    ]);
    result(id, Json::Object(fields))
}

/// What the server does with a request: nothing for a notification, and
/// otherwise a response or a tool action to perform.
pub fn handle(req: &Json, write_allowed: bool, version: &str) -> (r: Option<Handled>)
    ensures
        handled_view(r) == handle_spec(req@, write_allowed, version@),
        get(req@, "id"@) is None <==> r is None,
{
    let id = match req.get("id") {
        None => return None,
        Some(id) => id.copy(),
    };
    let params = match req.get("params") {
        Some(p) => p.copy(),
        None => Json::Null,
    };
    let method = match req.get("method") {
        Some(m) => match m.as_str() {
            Some(s) => s.clone(),
            None => "".to_owned(),
        },
        None => "".to_owned(),
    };
    let m = method.as_str();
    let response = if str_eq(m, "initialize") {
        let requested = match params.get("protocolVersion") {
            Some(v) => match v.as_str() {
                Some(s) => s.clone(),
                None => "2025-06-18".to_owned(),
            },
            None => "2025-06-18".to_owned(),
        };
        let mut caps: Vec<(String, Json)> = Vec::new();
        push_field(&mut caps, "tools", empty_object_json());
        let mut info: Vec<(String, Json)> = Vec::new();
        push_field(&mut info, "name", json_str("rustdesk"));
        push_field(&mut info, "version", json_str(version));
        let mut fields: Vec<(String, Json)> = Vec::new();
        push_field(&mut fields, "protocolVersion", Json::Str(requested));
        push_field(&mut fields, "capabilities", Json::Object(caps));
        push_field(&mut fields, "serverInfo", Json::Object(info));
        assert(view_fields(caps@) =~= seq![("tools"@, empty_object())]);
        assert(view_fields(info@) =~= seq![("name"@, jstr("rustdesk"@)), ("version"@, jstr(version@))]);
        assert(view_fields(fields@) =~= seq![
            ("protocolVersion"@, jstr(requested@)),
            ("capabilities"@, JsonView::Object(view_fields(caps@))),
            ("serverInfo"@, JsonView::Object(view_fields(info@))),
        ]);
        Handled::Respond(result(id, Json::Object(fields)))
    } else if str_eq(m, "ping") {
        Handled::Respond(result(id, empty_object_json()))
    } else if str_eq(m, "tools/list") {
        let mut fields: Vec<(String, Json)> = Vec::new();
        push_field(&mut fields, "tools", Json::Array(tool_list()));
        assert(view_fields(fields@) =~= seq![("tools"@, JsonView::Array(tools()))]);
        Handled::Respond(result(id, Json::Object(fields)))
    } else if str_eq(m, "tools/call") {
        let name = match params.get("name") {
            Some(n) => match n.as_str() {
                Some(s) => s.clone(),
                None => "".to_owned(),
            },
            None => "".to_owned(),
        };
        let args = match params.get("arguments") {
            Some(a) => a.copy(),
            None => empty_object_json(),
        };
        match call_tool(name.as_str(), &args, write_allowed) {
            Ok(action) => Handled::Perform(id, action),
            Err(text) => Handled::Respond(complete_tool_call(id, Err(text))),
        }
    } else {
        let message = concat("Method not found: ", m);
        Handled::Respond(error(id, -32601, message.as_str()))
    };
    Some(response)
}

/// Whether a request calls one of the write tools: the only requests whose
/// answer depends on whether the write tools are open.
pub open spec fn calls_write_tool(req: JsonView) -> bool {
    let name = match str_of(get(
        match get(req, "params"@) {
            Some(p) => p,
            None => JsonView::Null,
        },
        "name"@,
    )) {
        Some(n) => n,
        None => ""@,
    };
    &&& get(req, "id"@) is Some
    &&& str_of(get(req, "method"@)) == Some("tools/call"@)
    &&& (name == "run_script"@ || name == "set_option"@)
}

/// Whether a request calls one of the write tools, so that the host need
/// consult the write gate only for those.
pub fn calls_write_tools(req: &Json) -> (r: bool)
    ensures
        r == calls_write_tool(req@),
{
    if req.get("id").is_none() {
        return false;
    }
    let is_call = match req.get("method") {
        Some(m) => match m.as_str() {
            Some(s) => str_eq(s.as_str(), "tools/call"),
            None => false,
        },
        None => false,
    };
    if !is_call {
        return false;
    }
    let name = match req.get("params") {
        Some(p) => match p.get("name") {
            Some(n) => match n.as_str() {
                Some(s) => s.clone(),
                None => "".to_owned(),
            },
            None => "".to_owned(),
        },
        None => "".to_owned(),
    };
    str_eq(name.as_str(), "run_script") || str_eq(name.as_str(), "set_option")
}

/// Whether an input line is blank (only white space): the server skips
/// such lines.
pub fn is_blank(line: &str) -> (r: bool)
    ensures
        r == (trimmed(line@).len() == 0),
{
    trim(line).as_str().is_empty()
}

/// What the server makes of one input line: nothing for a blank line; the
/// request it holds; or, when it is not JSON, the parse-error response.
pub fn read_request(line: &str) -> (r: Option<Result<Json, Json>>)
    ensures
        (r is None) == (trimmed(line@).len() == 0),
        r matches Some(Ok(q)) ==> parsed_json(line@) == Some(q@),
        r matches Some(Err(resp)) ==> parsed_json(line@) is None && resp@ == error_response(
            JsonView::Null,
            -32700,
            "Parse error: "@ + json_error_text(line@),
        ),
{
    if is_blank(line) {
        return None;
    }
    match parse_json(line) {
        Ok(req) => Some(Ok(req)),
        Err(e) => Some(Err(parse_error(e.as_str()))),
    }
}

/// The text of the answer to a `set_option` call once the option is set.
pub open spec fn option_set_reply() -> Seq<char> {
    "Done!"@
}

/// The text of the answer to a `set_option` call once the host has set the
/// option.
pub fn option_set_text() -> (r: String)
    ensures
        r@ == option_set_reply(),
{
    "Done!".to_owned()
}

/// The result of the `get_status` tool.
pub fn status_json(id: &str, version: &str) -> (r: Json)
    ensures
        r@ == JsonView::Object(seq![("id"@, jstr(id@)), ("version"@, jstr(version@))]),
{
    let mut fields: Vec<(String, Json)> = Vec::new();
    push_field(&mut fields, "id", json_str(id));
    push_field(&mut fields, "version", json_str(version));
    assert(view_fields(fields@) =~= seq![("id"@, jstr(id@)), ("version"@, jstr(version@))]);
    Json::Object(fields)
}

/// The tooling's own options, as the members of a JSON object of strings.
pub open spec fn rmm_config(options: Seq<(Seq<char>, Seq<char>)>) -> Seq<(Seq<char>, JsonView)>
    decreases options.len(),
{
    if options.len() == 0 {
        Seq::empty()
    } else {
        let rest = rmm_config(options.drop_last());
        if is_prefix(rmm_prefix(), options.last().0) {
            rest.push((options.last().0, jstr(options.last().1)))
        } else {
            rest
        }
    }
}

/// The recent alerts that the monitor mirrors into the option store, newest
/// first; none when the option is unset or unreadable.
pub open spec fn mirrored_alerts(options: Seq<(Seq<char>, Seq<char>)>) -> Seq<Seq<char>> {
    match option_value(options, "rmm-recent-alerts"@) {
        Some(t) => stored_alerts(t),
        None => Seq::empty(),
    }
}

/// The first 20 items of a list (all of them when it has fewer).
pub open spec fn first_twenty(s: Seq<Seq<char>>) -> Seq<Seq<char>> {
    if s.len() <= 20 {
        s
    } else {
        s.take(20)
    }
}

/// The result of the `get_alerts` tool: the tooling's options and the 20
/// most recent alerts, newest first, as the monitor records them in the
/// option store.
pub open spec fn alerts_report(options: Seq<(Seq<char>, Seq<char>)>) -> JsonView {
    JsonView::Object(
        seq![
            ("config"@, JsonView::Object(rmm_config(options))),
            ("recent_alerts"@, JsonView::Array(first_twenty(mirrored_alerts(options)).map_values(|l: Seq<char>| jstr(l)))),
        ],
    )
}

/// The result of the `get_alerts` tool, from the option store.
pub fn alerts_json(options: &Vec<(String, String)>) -> (r: Json)
    ensures
        r@ == alerts_report(options_view(options@)),
{
    let ghost opts = options_view(options@);
    let mut config: Vec<(String, Json)> = Vec::new();
    let mut i: usize = 0;
    while i < options.len()
        invariant
            i <= options@.len(),
            opts == options_view(options@),
            view_fields(config@) == rmm_config(opts.take(i as int)),
        decreases options@.len() - i,
    {
        assert(opts.take(i + 1).drop_last() =~= opts.take(i as int));
        assert(opts.take(i + 1).last() == opts[i as int]);
        if starts_with(options[i].0.as_str(), "rmm-") {
            push_field(&mut config, options[i].0.as_str(), json_str(options[i].1.as_str()));
        }
        i = i + 1;
    }
    assert(opts.take(options@.len() as int) =~= opts);
    let all = match find_option(options, "rmm-recent-alerts") {
        Some(v) => recent_alerts(Some(v.as_str())),
        None => recent_alerts(None),
    };
    let ghost views = texts(all@);
    assert(views == mirrored_alerts(opts));
    let count: usize = if all.len() < 20 {
        all.len()
    } else {
        20
    };
    let mut recent: Vec<Json> = Vec::new();
    let mut k: usize = 0;
    while k < count
        invariant
            count == (if all@.len() < 20 { all@.len() } else { 20 }),
            views == texts(all@),
            views.len() == all@.len(),
            k <= count,
            view_items(recent@) == views.take(k as int).map_values(|l: Seq<char>| jstr(l)),
        decreases count - k,
    {
        let line = json_str(all[k].as_str());
        assert(views[k as int] == all@[k as int]@);
        push_item(&mut recent, line);
        assert(views.take(k + 1).map_values(|l: Seq<char>| jstr(l)) =~= views.take(k as int).map_values(
            |l: Seq<char>| jstr(l),
        ).push(line@));
        k = k + 1;
    }
    assert(first_twenty(views) =~= views.take(count as int));
    let mut fields: Vec<(String, Json)> = Vec::new();
    push_field(&mut fields, "config", Json::Object(config));
    push_field(&mut fields, "recent_alerts", Json::Array(recent));
    assert(view_fields(fields@) =~= seq![
        ("config"@, JsonView::Object(rmm_config(opts))),
        ("recent_alerts"@, JsonView::Array(first_twenty(views).map_values(|l: Seq<char>| jstr(l)))),
    ]);
    Json::Object(fields)
}

/// What the `list_peers` tool reports of one peer.
pub struct Peer {
    pub id: String,
    pub username: String,
    pub hostname: String,
    pub platform: String,
}

/// The report of one peer.
pub open spec fn peer_report(p: Peer) -> JsonView {
    JsonView::Object(
        seq![
            ("id"@, jstr(p.id@)),
            ("username"@, jstr(p.username@)),
            ("hostname"@, jstr(p.hostname@)),
            ("platform"@, jstr(p.platform@)),
        ],
    )
}

/// The result of the `list_peers` tool: one report per peer, in order.
pub fn peers_json(peers: &Vec<Peer>) -> (r: Json)
    ensures
        r@ == JsonView::Array(peers@.map_values(|p: Peer| peer_report(p))),
{
    let mut out: Vec<Json> = Vec::new();
    let mut i: usize = 0;
    while i < peers.len()
        invariant
            i <= peers@.len(),
            view_items(out@) == peers@.take(i as int).map_values(|p: Peer| peer_report(p)),
        decreases peers@.len() - i,
    {
        let p = &peers[i];
        let mut fields: Vec<(String, Json)> = Vec::new();
        push_field(&mut fields, "id", json_str(p.id.as_str()));
        push_field(&mut fields, "username", json_str(p.username.as_str()));
        push_field(&mut fields, "hostname", json_str(p.hostname.as_str()));
        push_field(&mut fields, "platform", json_str(p.platform.as_str()));
        assert(view_fields(fields@) =~= seq![
            ("id"@, jstr(p.id@)),
            ("username"@, jstr(p.username@)),
            ("hostname"@, jstr(p.hostname@)),
            ("platform"@, jstr(p.platform@)),
        ]);
        push_item(&mut out, Json::Object(fields));
        assert(peers@.take(i + 1).map_values(|p: Peer| peer_report(p)) =~= peers@.take(
            i as int,
        ).map_values(|p: Peer| peer_report(p)).push(peer_report(peers@[i as int])));
        i = i + 1;
    }
    assert(peers@.take(peers@.len() as int) =~= peers@);
    Json::Array(out)
}

/// Every response carries the protocol version `2.0` and the id of the
/// request it answers, and so does the answer to a tool call that the host
/// completes; a request with an id always gets an answer.
pub proof fn law_responses_answer_their_request(
    req: JsonView,
    write_allowed: bool,
    version: Seq<char>,
    id: JsonView,
    outcome: Result<Seq<char>, Seq<char>>,
)
    requires
        get(req, "id"@) == Some(id),
    ensures
        handle_spec(req, write_allowed, version) is Some,
        match handle_spec(req, write_allowed, version) {
            Some(HandledView::Respond(resp)) => get(resp, "jsonrpc"@) == Some(jstr("2.0"@)) && get(
                resp,
                "id"@,
            ) == Some(id),
            Some(HandledView::Perform(call_id, _)) => {
                let resp = match outcome {
                    Ok(text) => tool_response(call_id, text, false),
                    Err(text) => tool_response(call_id, text, true),
                };
                call_id == id && get(resp, "jsonrpc"@) == Some(jstr("2.0"@)) && get(resp, "id"@)
                    == Some(id)
            },
            None => false,
        },
{
    match handle_spec(req, write_allowed, version) {
        Some(HandledView::Respond(resp)) => {
            if resp == result_response(id, resp->Object_0[2].1) {
                lemma_response_names_request(id, resp->Object_0[2].1);
            } else {
                lemma_error_names_request(id, resp->Object_0[2].1);
            }
        },
        Some(HandledView::Perform(call_id, _)) => {
            let result = match outcome {
                Ok(text) => tool_response(call_id, text, false)->Object_0[2].1,
                Err(text) => tool_response(call_id, text, true)->Object_0[2].1,
            };
            lemma_response_names_request(call_id, result);
        },
        None => {},
    }
}

proof fn lemma_response_names_request(id: JsonView, value: JsonView)
    ensures
        get(result_response(id, value), "jsonrpc"@) == Some(jstr("2.0"@)),
        get(result_response(id, value), "id"@) == Some(id),
{
    reveal_strlit("jsonrpc");
    reveal_strlit("id");
    assert("jsonrpc"@.len() == 7);
    let fields = result_response(id, value)->Object_0;
    assert(fields.drop_first()[0] == ("id"@, id));
    reveal_with_fuel(crate::json::lookup, 2);
}

proof fn lemma_error_names_request(id: JsonView, err: JsonView)
    requires
        err is Object && err->Object_0.len() == 2,
    ensures
        get(
            JsonView::Object(seq![("jsonrpc"@, jstr("2.0"@)), ("id"@, id), ("error"@, err)]),
            "jsonrpc"@,
        ) == Some(jstr("2.0"@)),
        get(JsonView::Object(seq![("jsonrpc"@, jstr("2.0"@)), ("id"@, id), ("error"@, err)]), "id"@)
            == Some(id),
{
    reveal_strlit("jsonrpc");
    reveal_strlit("id");
    assert("jsonrpc"@.len() == 7);
    let fields = seq![("jsonrpc"@, jstr("2.0"@)), ("id"@, id), ("error"@, err)];
    assert(fields.drop_first()[0] == ("id"@, id));
    reveal_with_fuel(crate::json::lookup, 2);
}

/// No request makes the server run a script or set an option unless the
/// write tools are open.
pub proof fn law_write_tools_need_the_gate(req: JsonView, version: Seq<char>)
    ensures
        !(handle_spec(req, false, version) matches Some(HandledView::Perform(_, action))
            && is_write_action(action)),
{
}

/// The agent cannot open its own gate nor touch options other than the
/// tooling's own: the only option a request can set is an `rmm-*` option
/// other than the one that opens the write tools.
pub proof fn law_agent_cannot_open_its_own_gate(
    req: JsonView,
    write_allowed: bool,
    version: Seq<char>,
)
    ensures
        handle_spec(req, write_allowed, version) matches Some(
            HandledView::Perform(_, ToolActionView::SetOption(key, _)),
        ) ==> is_prefix(rmm_prefix(), key) && key != agent_write_option(),
{
}

/// The read tools answer whether or not the write tools are open.
pub proof fn law_read_tools_always_available(name: Seq<char>, args: JsonView, write_allowed: bool)
    requires
        name == "get_status"@ || name == "get_inventory"@ || name == "get_alerts"@ || name
            == "list_scripts"@ || name == "list_peers"@,
    ensures
        tool_outcome(name, args, write_allowed) is Ok,
        tool_outcome(name, args, write_allowed) == tool_outcome(name, args, !write_allowed),
        !is_write_action(tool_outcome(name, args, write_allowed)->Ok_0),
{
}

/// A request for a method the server does not know is answered with the
/// JSON-RPC error `-32601` that names the method.
pub proof fn law_unknown_method_is_an_error(
    req: JsonView,
    write_allowed: bool,
    version: Seq<char>,
    id: JsonView,
    method: Seq<char>,
)
    requires
        get(req, "id"@) == Some(id),
        str_of(get(req, "method"@)) == Some(method),
        method != "initialize"@,
        method != "ping"@,
        method != "tools/list"@,
        method != "tools/call"@,
    ensures
        handle_spec(req, write_allowed, version) == Some(
            HandledView::Respond(error_response(id, -32601, "Method not found: "@ + method)),
        ),
{
}

/// Only a call of a write tool depends on the write gate: for every other
/// request, an open gate and a closed one lead to one and the same answer.
pub proof fn law_gate_consulted_only_for_write_tools(req: JsonView, version: Seq<char>)
    requires
        !calls_write_tool(req),
    ensures
        handle_spec(req, true, version) == handle_spec(req, false, version),
{
    reveal_strlit("");
    reveal_strlit("tools/call");
    assert(""@ != "tools/call"@);
}

/// The alert report shows only the tooling's own options, each with its
/// value.
pub proof fn law_alert_report_shows_only_rmm_options(options: Seq<(Seq<char>, Seq<char>)>)
    ensures
        forall|i: int|
            0 <= i < rmm_config(options).len() ==> is_prefix(rmm_prefix(), #[trigger] rmm_config(options)[i].0)
                && rmm_config(options)[i].1 is Str,
    decreases options.len(),
{
    if options.len() > 0 {
        law_alert_report_shows_only_rmm_options(options.drop_last());
    }
}

/// A call of `run_script` runs the named script only when the write tools
/// are open and the call names it by a string; without a name it is refused
/// with the missing-argument error.
pub proof fn law_run_script_needs_gate_and_name(args: JsonView, write_allowed: bool)
    ensures
        !write_allowed ==> tool_outcome("run_script"@, args, write_allowed) == Err::<
            ToolActionView,
            Seq<char>,
        >(write_disabled_message()),
        write_allowed && str_of(get(args, "name"@)) is None ==> tool_outcome(
            "run_script"@,
            args,
            write_allowed,
        ) == Err::<ToolActionView, Seq<char>>(missing_argument_message("name"@)),
        write_allowed && str_of(get(args, "name"@)) is Some ==> tool_outcome(
            "run_script"@,
            args,
            write_allowed,
        ) == Ok::<ToolActionView, Seq<char>>(
            ToolActionView::RunScript(str_of(get(args, "name"@))->Some_0),
        ),
{
    reveal_strlit("run_script");
    reveal_strlit("get_status");
    reveal_strlit("get_inventory");
    reveal_strlit("get_alerts");
    reveal_strlit("list_scripts");
    reveal_strlit("list_peers");
    assert("run_script"@[0] != "get_status"@[0]);
    assert("run_script"@ != "get_status"@);
    assert("run_script"@[0] != "get_inventory"@[0]);
    assert("run_script"@ != "get_inventory"@);
    assert("run_script"@[0] != "get_alerts"@[0]);
    assert("run_script"@ != "get_alerts"@);
    assert("run_script"@[0] != "list_scripts"@[0]);
    assert("run_script"@ != "list_scripts"@);
    assert("run_script"@[0] != "list_peers"@[0]);
    assert("run_script"@ != "list_peers"@);
}

/// After a poll records its alerts in the option store, the alert report
/// lists exactly the recorded alerts: the 20 most recent, newest first.
pub proof fn law_alert_report_after_poll(
    options: Seq<(Seq<char>, Seq<char>)>,
    stored: Seq<char>,
    earlier: Seq<Seq<char>>,
    now: int,
    alerts: Seq<Seq<char>>,
)
    requires
        option_value(options, "rmm-recent-alerts"@) == Some(stored),
        stored_alerts(stored) == merged_alerts(earlier, now, alerts),
    ensures
        get(alerts_report(options), "recent_alerts"@) == Some(
            JsonView::Array(merged_alerts(earlier, now, alerts).map_values(|l: Seq<char>| jstr(l))),
        ),
{
    reveal_strlit("config");
    reveal_strlit("recent_alerts");
    assert("config"@.len() == 6);
    let fields = alerts_report(options)->Object_0;
    assert(fields.drop_first()[0].0 == "recent_alerts"@);
    reveal_with_fuel(crate::json::lookup, 2);
}

/// The names of the tools, in the order they are listed.
pub open spec fn tool_names() -> Seq<Seq<char>> {
    seq!["get_status"@, "get_inventory"@, "get_alerts"@, "list_scripts"@, "list_peers"@, "run_script"@, "set_option"@]
}

/// The properties of each tool's arguments, in the order listed.
pub open spec fn tool_properties() -> Seq<JsonView> {
    seq![
        empty_object(),
        empty_object(),
        empty_object(),
        empty_object(),
        empty_object(),
        JsonView::Object(seq![("name"@, string_type())]),
        JsonView::Object(seq![("name"@, string_type()), ("value"@, string_type())]),
    ]
}

/// The arguments each tool requires, in the order listed.
pub open spec fn tool_required() -> Seq<Seq<Seq<char>>> {
    seq![seq![], seq![], seq![], seq![], seq![], seq!["name"@], seq!["name"@, "value"@]]
}

/// Every listed tool is described by its name, an object schema with its
/// properties, and the arguments it requires, each of which is one of those
/// properties; the five read tools take no arguments. Every listed tool is
/// one that `call_tool` knows: calling it is never refused as unknown.
pub proof fn law_listed_tools_are_callable(args: JsonView, write_allowed: bool)
    ensures
        tools().len() == 7,
        forall|i: int|
            0 <= i < 7 ==> exists|d: Seq<char>| #[trigger] tools()[i] == tool_spec(
                tool_names()[i],
                d,
                tool_properties()[i],
                tool_required()[i],
            ),
        forall|i: int, k: int|
            0 <= i < 7 && 0 <= k < tool_required()[i].len() ==> get(
                #[trigger] tool_properties()[i],
                #[trigger] tool_required()[i][k],
            ) is Some,
        forall|i: int| 0 <= i < 5 ==> #[trigger] tool_properties()[i] == empty_object() && tool_required()[i].len() == 0,
        forall|i: int|
            0 <= i < 7 ==> !(#[trigger] tool_outcome(tool_names()[i], args, write_allowed) matches Err(
                e,
            ) && is_prefix("Unknown tool: "@, e)),
{
    let names = tool_names();
    assert forall|i: int|
        0 <= i < 7 implies exists|d: Seq<char>| #[trigger] tools()[i] == tool_spec(
            tool_names()[i],
            d,
            tool_properties()[i],
            tool_required()[i],
        ) by {
        assert(seq!["name"@].map_values(|r: Seq<char>| jstr(r)) =~= seq![jstr("name"@)]);
        assert(seq!["name"@, "value"@].map_values(|r: Seq<char>| jstr(r)) =~= seq![jstr("name"@), jstr("value"@)]);
        assert(Seq::<Seq<char>>::empty().map_values(|r: Seq<char>| jstr(r)) =~= Seq::<JsonView>::empty());
        if i == 0 {
            assert(tools()[i] == tool_spec(names[i], "RustDesk ID and version of this machine."@, tool_properties()[i], tool_required()[i]));
        } else if i == 1 {
            assert(tools()[i] == tool_spec(names[i], "Hardware, OS and installed software on this machine."@, tool_properties()[i], tool_required()[i]));
        } else if i == 2 {
            assert(tools()[i] == tool_spec(names[i], "Monitoring thresholds and the 20 most recent alerts."@, tool_properties()[i], tool_required()[i]));
        } else if i == 3 {
            assert(tools()[i] == tool_spec(names[i], "Scripts in the local script library."@, tool_properties()[i], tool_required()[i]));
        } else if i == 4 {
            assert(tools()[i] == tool_spec(names[i], "Remote peers this machine has connected to."@, tool_properties()[i], tool_required()[i]));
        } else if i == 5 {
            assert(tools()[i] == tool_spec(names[i], "Run a script from the local library and return its output. Requires the rmm-agent-write option."@, tool_properties()[i], tool_required()[i]));
        } else {
            assert(tools()[i] == tool_spec(names[i], "Set an rmm-* option, e.g. rmm-monitor-enabled=Y or rmm-cpu-threshold=90. Requires the rmm-agent-write option."@, tool_properties()[i], tool_required()[i]));
        }
    }
    reveal_strlit("name");
    reveal_strlit("value");
    assert("name"@ != "value"@);
    reveal_with_fuel(crate::json::lookup, 2);
    assert(get(tool_properties()[6], "value"@) is Some) by {
        assert(tool_properties()[6]->Object_0.drop_first()[0].0 == "value"@);
    }
    reveal_strlit("Unknown tool: ");
    reveal_strlit("Write tools are disabled. A human must run: rustdesk --option rmm-agent-write Y");
    reveal_strlit("Missing string argument '");
    reveal_strlit("Only rmm-* options other than rmm-agent-write can be set");
    assert forall|i: int|
        0 <= i < 7 implies !(#[trigger] tool_outcome(tool_names()[i], args, write_allowed) matches Err(
            e,
        ) && is_prefix("Unknown tool: "@, e)) by {
        let name = names[i];
        match tool_outcome(name, args, write_allowed) {
            Err(e) => {
                assert(e == write_disabled_message() || e == missing_argument_message("name"@)
                    || e == missing_argument_message("value"@) || e == option_refused_message());
                assert(e.len() > 0 && e[0] != 'U');
                assert(("Unknown tool: "@)[0] == 'U');
                if is_prefix("Unknown tool: "@, e) {
                    assert(e.take(14)[0] == e[0]);
                }
            },
            Ok(_) => {},
        }
    }
}

/// With the write tools open, the agent may set any of the tooling's own
/// options other than the one that opens the write tools: a `set_option`
/// call that names such an option and gives a string value sets exactly
/// that option to exactly that value.
pub proof fn law_agent_sets_its_own_options(args: JsonView, key: Seq<char>, value: Seq<char>)
    requires
        get(args, "name"@) == Some(jstr(key)),
        get(args, "value"@) == Some(jstr(value)),
        is_prefix("rmm-"@, key),
        key != "rmm-agent-write"@,
    ensures
        tool_outcome("set_option"@, args, true) == Ok::<ToolActionView, Seq<char>>(
            ToolActionView::SetOption(key, value),
        ),
{
    reveal_strlit("set_option");
    reveal_strlit("get_status");
    reveal_strlit("get_inventory");
    reveal_strlit("get_alerts");
    reveal_strlit("list_scripts");
    reveal_strlit("list_peers");
    reveal_strlit("run_script");
    assert("set_option"@[0] != "get_status"@[0]);
    assert("set_option"@[0] != "get_inventory"@[0]);
    assert("set_option"@[0] != "get_alerts"@[0]);
    assert("set_option"@[0] != "list_scripts"@[0]);
    assert("set_option"@[0] != "list_peers"@[0]);
    assert("set_option"@[0] != "run_script"@[0]);
}

/// The value that indexing an object's members by `key` gives, when the
/// member `x` is added at the end: the earlier member of that name if there
/// is one, else `x` if it carries the name.
proof fn lemma_lookup_push(fields: Seq<(Seq<char>, JsonView)>, x: (Seq<char>, JsonView), key: Seq<char>)
    ensures
        lookup(fields.push(x), key) == match lookup(fields, key) {
            Some(v) => Some(v),
            None => if x.0 == key {
                Some(x.1)
            } else {
                None
            },
        },
    decreases fields.len(),
{
    let s = fields.push(x);
    if fields.len() > 0 {
        lemma_lookup_push(fields.drop_first(), x, key);
        assert(s.drop_first() =~= fields.drop_first().push(x));
        assert(s[0] == fields[0]);
    } else {
        assert(s.drop_first() =~= Seq::<(Seq<char>, JsonView)>::empty());
        assert(s[0] == x);
        assert(lookup(s.drop_first(), key) is None);
    }
}

proof fn lemma_config_lookup(options: Seq<(Seq<char>, Seq<char>)>, key: Seq<char>, i: int)
    ensures
        (!is_prefix("rmm-"@, key) || forall|m: int| 0 <= m < options.len() ==> options[m].0 != key)
            ==> lookup(rmm_config(options), key) is None,
        (0 <= i < options.len() && options[i].0 == key && is_prefix("rmm-"@, key) && forall|m: int|
            0 <= m < i ==> options[m].0 != key) ==> lookup(rmm_config(options), key) == Some(
            jstr(options[i].1),
        ),
    decreases options.len(),
{
    if options.len() > 0 {
        let init = options.drop_last();
        let last = options.last();
        lemma_config_lookup(init, key, i);
        let rest = rmm_config(init);
        if is_prefix(rmm_prefix(), last.0) {
            lemma_lookup_push(rest, (last.0, jstr(last.1)), key);
        }
        if forall|m: int| 0 <= m < options.len() ==> options[m].0 != key {
            assert forall|m: int| 0 <= m < init.len() implies init[m].0 != key by {
                assert(init[m] == options[m]);
            }
            assert(last == options[options.len() - 1]);
        }
        if !is_prefix("rmm-"@, key) && last.0 == key {
            assert(!is_prefix(rmm_prefix(), last.0));
        }
        if 0 <= i < options.len() && options[i].0 == key && is_prefix("rmm-"@, key) && forall|m: int|
            0 <= m < i ==> options[m].0 != key {
            if i < init.len() {
                assert forall|m: int| 0 <= m < i implies init[m].0 != key by {
                    assert(init[m] == options[m]);
                }
                assert(init[i] == options[i]);
            } else {
                assert forall|m: int| 0 <= m < init.len() implies init[m].0 != key by {
                    assert(init[m] == options[m]);
                }
                lemma_config_lookup(init, key, -1);
            }
        }
    }
}

/// The `get_alerts` report shows each of the tooling's own options with its
/// own value (the first, should a name occur twice), and no other option:
/// indexing its `config` object by an option's name gives that option's
/// value when the name starts with `rmm-`, and nothing otherwise.
pub proof fn law_alerts_report_shows_each_rmm_option(
    options: Seq<(Seq<char>, Seq<char>)>,
    key: Seq<char>,
    i: int,
)
    ensures
        get(alerts_report(options), "config"@) == Some(JsonView::Object(rmm_config(options))),
        (0 <= i < options.len() && options[i].0 == key && is_prefix("rmm-"@, key) && forall|m: int|
            0 <= m < i ==> options[m].0 != key) ==> get(JsonView::Object(rmm_config(options)), key)
            == Some(jstr(options[i].1)),
        (!is_prefix("rmm-"@, key) || forall|m: int| 0 <= m < options.len() ==> options[m].0 != key)
            ==> get(JsonView::Object(rmm_config(options)), key) is None,
{
    lemma_config_lookup(options, key, i);
    reveal_strlit("config");
}

} // verus!
