//! The lines exchanged with the app server: requests, refusals, and what is read of its
//! messages.

use crate::json::{
    array, is_one_line, json_array, json_at, json_error, json_member, json_object, json_string,
    lemma_escaped_first, lemma_member_contains, lemma_member_one_line, lemma_object_contains,
    lemma_parts_one_line, lemma_string_one_line, look_up, member, object, optional_text,
    optional_value, text_member, JsonValue, JsonValueView,
};
use crate::prompt::{
    append_draft, confidence_schema, draft_section, response_schema, string_schema,
    transform_response_schema,
};
use crate::protocol::TransformRequest;
use crate::search::{
    contains, join, law_contains, lemma_contains_inside, lemma_contains_through,
    lemma_join_contains, lemma_join_starts,
};
use crate::text::{same_text, texts};
use vstd::prelude::*;

verus! {

/// What the prompt says before the draft.
pub open spec fn instructions() -> Seq<char> {
    "Convert the following romaji, typo-heavy, or unconverted Japanese draft into natural Japanese.\n\nRules:\n- Return only one JSON object matching this schema: {\"converted\": string, \"refined\": string, \"confidence\": number}.\n- Do not use tools, shell commands, file reads, or network browsing.\n- Treat Raw as typed romaji input, not a free semantic prompt.\n- Prefer the Kana candidate as the phonetic anchor when it is present.\n- Preserve intended meaning from the phonetic input. Use memory terms when they clearly apply.\n- \"converted\" may be a direct conversion. \"refined\" should be natural, polished Japanese.\n- \"confidence\" must be between 0 and 1.\n\nRaw:\n"@
}

/// The prompt for a request.
pub fn codex_prompt(request: &TransformRequest) -> (prompt: String)
    ensures
        prompt@ == instructions() + draft_section(
            request.raw@,
            optional_text(request.kana_candidate),
            request.memory@,
        ),
{
    let mut prompt = "Convert the following romaji, typo-heavy, or unconverted Japanese draft into natural Japanese.\n\nRules:\n- Return only one JSON object matching this schema: {\"converted\": string, \"refined\": string, \"confidence\": number}.\n- Do not use tools, shell commands, file reads, or network browsing.\n- Treat Raw as typed romaji input, not a free semantic prompt.\n- Prefer the Kana candidate as the phonetic anchor when it is present.\n- Preserve intended meaning from the phonetic input. Use memory terms when they clearly apply.\n- \"converted\" may be a direct conversion. \"refined\" should be natural, polished Japanese.\n- \"confidence\" must be between 0 and 1.\n\nRaw:\n".to_owned();
    append_draft(&mut prompt, request);
    prompt
}

/// A JSON-RPC request.
pub open spec fn rpc_request(id: Seq<char>, method: Seq<char>, params: Seq<char>) -> Seq<char> {
    json_object(
        seq![
            json_member("id"@, id),
            json_member("jsonrpc"@, json_string("2.0"@)),
            json_member("method"@, json_string(method)),
            json_member("params"@, params),
        ],
    )
}

fn request_line(id: &str, method: &str, params: &str) -> (line: String)
    ensures
        line@ == rpc_request(id@, method@, params@),
{
    let members: Vec<String> = vec![
        member("id", id),
        text_member("jsonrpc", "2.0"),
        text_member("method", method),
        member("params", params),
    ];
    assert(texts(members@) =~= seq![
        json_member("id"@, id@),
        json_member("jsonrpc"@, json_string("2.0"@)),
        json_member("method"@, json_string(method@)),
        json_member("params"@, params@),
    ]);
    object(&members)
}

/// What the client asks of the app server.
pub open spec fn capabilities() -> Seq<char> {
    json_object(
        seq![
            json_member("experimentalApi"@, "true"@),
            json_member("optOutNotificationMethods"@, "[]"@),
            json_member("requestAttestation"@, "false"@),
        ],
    )
}

/// Who the client is.
pub open spec fn client_info(version: Seq<char>) -> Seq<char> {
    json_object(
        seq![
            json_member("name"@, json_string("romajiagent"@)),
            json_member("version"@, json_string(version)),
        ],
    )
}

/// The first request: introduces the client.
pub open spec fn initialize_request(version: Seq<char>) -> Seq<char> {
    rpc_request(
        "1"@,
        "initialize"@,
        json_object(
            seq![
                json_member("capabilities"@, capabilities()),
                json_member("clientInfo"@, client_info(version)),
            ],
        ),
    )
}

/// The first request: introduces the client.
pub fn initialize_line(version: &str) -> (line: String)
    ensures
        line@ == initialize_request(version@),
{
    let wanted: Vec<String> = vec![
        member("experimentalApi", "true"),
        member("optOutNotificationMethods", "[]"),
        member("requestAttestation", "false"),
    ];
    assert(texts(wanted@) =~= seq![
        json_member("experimentalApi"@, "true"@),
        json_member("optOutNotificationMethods"@, "[]"@),
        json_member("requestAttestation"@, "false"@),
    ]);
    let client: Vec<String> = vec![
        text_member("name", "romajiagent"),
        text_member("version", version),
    ];
    assert(texts(client@) =~= seq![
        json_member("name"@, json_string("romajiagent"@)),
        json_member("version"@, json_string(version@)),
    ]);
    let wanted = object(&wanted);
    let client = object(&client);
    let params: Vec<String> = vec![
        member("capabilities", wanted.as_str()),
        member("clientInfo", client.as_str()),
    ];
    assert(texts(params@) =~= seq![
        json_member("capabilities"@, capabilities()),
        json_member("clientInfo"@, client_info(version@)),
    ]);
    let params = object(&params);
    request_line("1", "initialize", params.as_str())
}

/// What the app server is told to be.
pub open spec fn base_instructions() -> Seq<char> {
    "You are a Japanese text conversion service for Romaji Agent. Never use tools, shell commands, file reads, or network browsing. Return only valid JSON for the requested schema."@
}

/// The members of a thread's parameters before the model's.
pub open spec fn thread_members_before(workdir: Seq<char>) -> Seq<Seq<char>> {
    seq![
        json_member("approvalPolicy"@, json_string("never"@)),
        json_member("baseInstructions"@, json_string(base_instructions())),
        json_member("cwd"@, json_string(workdir)),
        json_member("ephemeral"@, "true"@),
    ]
}

/// The members of a thread's parameters behind the model's.
pub open spec fn thread_members_after() -> Seq<Seq<char>> {
    seq![
        json_member("runtimeWorkspaceRoots"@, "[]"@),
        json_member("sandbox"@, json_string("read-only"@)),
    ]
}

/// The member that names a model; none where no model is given or its name is empty.
pub open spec fn model_member(model: Option<Seq<char>>) -> Seq<Seq<char>> {
    match model {
        Some(name) => if name.len() > 0 {
            seq![json_member("model"@, json_string(name))]
        } else {
            seq![]
        },
        None => seq![],
    }
}

/// The members of a thread's parameters.
pub open spec fn thread_members(workdir: Seq<char>, model: Option<Seq<char>>) -> Seq<Seq<char>> {
    thread_members_before(workdir) + model_member(model) + thread_members_after()
}

/// The parameters of a thread: it is ephemeral, asks for no approval, and can only read. A
/// model is named where one is configured and not empty.
pub open spec fn thread_params(workdir: Seq<char>, model: Option<Seq<char>>) -> Seq<char> {
    json_object(thread_members(workdir, model))
}

/// The second request: starts a thread.
pub open spec fn thread_start_request(workdir: Seq<char>, model: Option<Seq<char>>) -> Seq<char> {
    rpc_request("2"@, "thread/start"@, thread_params(workdir, model))
}

/// The second request: starts a thread.
pub fn thread_start_line(workdir: &str, model: &Option<String>) -> (line: String)
    ensures
        line@ == thread_start_request(workdir@, optional_text(*model)),
{
    let mut members: Vec<String> = vec![
        text_member("approvalPolicy", "never"),
        text_member("baseInstructions", "You are a Japanese text conversion service for Romaji Agent. Never use tools, shell commands, file reads, or network browsing. Return only valid JSON for the requested schema."),
        text_member("cwd", workdir),
        member("ephemeral", "true"),
    ];
    assert(texts(members@) =~= thread_members_before(workdir@));
    let ghost before = texts(members@);
    if let Some(name) = model {
        if !name.as_str().is_empty() {
            members.push(text_member("model", name.as_str()));
        }
    }
    assert(texts(members@) =~= before + model_member(optional_text(*model)));
    let ghost front = texts(members@);
    members.push(member("runtimeWorkspaceRoots", "[]"));
    members.push(text_member("sandbox", "read-only"));
    assert(texts(members@) =~= front + thread_members_after());
    let params = object(&members);
    request_line("2", "thread/start", params.as_str())
}

/// The only item of a turn's input: the prompt.
pub open spec fn input_item(prompt: Seq<char>) -> Seq<char> {
    json_object(
        seq![
            json_member("text"@, json_string(prompt)),
            json_member("text_elements"@, "[]"@),
            json_member("type"@, json_string("text"@)),
        ],
    )
}

/// The parameters of a turn.
pub open spec fn turn_params(thread_id: Seq<char>, prompt: Seq<char>) -> Seq<char> {
    json_object(
        seq![
            json_member("input"@, json_array(seq![input_item(prompt)])),
            json_member("outputSchema"@, response_schema()),
            json_member("threadId"@, json_string(thread_id)),
        ],
    )
}

/// The third request: starts a turn of a thread with a prompt, and asks for an answer of the
/// given shape.
pub open spec fn turn_start_request(thread_id: Seq<char>, prompt: Seq<char>) -> Seq<char> {
    rpc_request("3"@, "turn/start"@, turn_params(thread_id, prompt))
}

/// The third request: starts a turn.
pub fn turn_start_line(thread_id: &str, prompt: &str) -> (line: String)
    ensures
        line@ == turn_start_request(thread_id@, prompt@),
{
    let item: Vec<String> = vec![
        text_member("text", prompt),
        member("text_elements", "[]"),
        text_member("type", "text"),
    ];
    assert(texts(item@) =~= seq![
        json_member("text"@, json_string(prompt@)),
        json_member("text_elements"@, "[]"@),
        json_member("type"@, json_string("text"@)),
    ]);
    let input: Vec<String> = vec![object(&item)];
    assert(texts(input@) =~= seq![input_item(prompt@)]);
    let input = array(&input);
    let schema = transform_response_schema();
    let params: Vec<String> = vec![
        member("input", input.as_str()),
        member("outputSchema", schema.as_str()),
        text_member("threadId", thread_id),
    ];
    assert(texts(params@) =~= seq![
        json_member("input"@, input@),
        json_member("outputSchema"@, schema@),
        json_member("threadId"@, json_string(thread_id@)),
    ]);
    let params = object(&params);
    request_line("3", "turn/start", params.as_str())
}

/// The error that refuses a request of the app server.
pub open spec fn refusal_error() -> Seq<char> {
    json_object(
        seq![
            json_member("code"@, "-32601"@),
            json_member(
                "message"@,
                json_string("Romaji Agent does not allow app-server initiated actions"@),
            ),
        ],
    )
}

/// The refusal of the app server's request with the given id.
pub open spec fn refusal(id: Seq<char>) -> Seq<char> {
    json_object(
        seq![
            json_member("error"@, refusal_error()),
            json_member("id"@, id),
            json_member("jsonrpc"@, json_string("2.0"@)),
        ],
    )
}

fn refusal_line(id: &str) -> (line: String)
    ensures
        line@ == refusal(id@),
{
    let error: Vec<String> = vec![
        member("code", "-32601"),
        text_member("message", "Romaji Agent does not allow app-server initiated actions"),
    ];
    assert(texts(error@) =~= seq![
        json_member("code"@, "-32601"@),
        json_member(
            "message"@,
            json_string("Romaji Agent does not allow app-server initiated actions"@),
        ),
    ]);
    let error = object(&error);
    let members: Vec<String> = vec![
        member("error", error.as_str()),
        member("id", id),
        text_member("jsonrpc", "2.0"),
    ];
    assert(texts(members@) =~= seq![
        json_member("error"@, refusal_error()),
        json_member("id"@, id@),
        json_member("jsonrpc"@, json_string("2.0"@)),
    ]);
    object(&members)
}

/// What is read of a message of the app server. `text` is the whole message, `error` and
/// `result` are the members of that name, all as compact JSON text; the other fields are
/// strings at their places in the message.
#[derive(Debug, Clone, PartialEq, Eq)]
pub struct ServerMessage {
    pub text: String,
    pub id: Option<JsonValue>,
    pub method: Option<String>,
    pub error: Option<String>,
    pub result: Option<String>,
    /// `/result/thread/id`
    pub new_thread_id: Option<String>,
    /// `/result/turn/id`
    pub new_turn_id: Option<String>,
    /// `/params/turnId`
    pub turn_id: Option<String>,
    /// `/params/delta`
    pub delta: Option<String>,
    /// `/params/item/type`
    pub item_type: Option<String>,
    /// `/params/item/text`
    pub item_text: Option<String>,
    /// `/params/turn/id`
    pub completed_turn_id: Option<String>,
}

/// What a [`ServerMessage`] holds.
pub struct MessageView {
    pub text: Seq<char>,
    pub id: Option<JsonValueView>,
    pub method: Option<Seq<char>>,
    pub error: Option<Seq<char>>,
    pub result: Option<Seq<char>>,
    pub new_thread_id: Option<Seq<char>>,
    pub new_turn_id: Option<Seq<char>>,
    pub turn_id: Option<Seq<char>>,
    pub delta: Option<Seq<char>>,
    pub item_type: Option<Seq<char>>,
    pub item_text: Option<Seq<char>>,
    pub completed_turn_id: Option<Seq<char>>,
}

impl View for ServerMessage {
    type V = MessageView;

    open spec fn view(&self) -> MessageView {
        MessageView {
            text: self.text@,
            id: optional_value(self.id),
            method: optional_text(self.method),
            error: optional_text(self.error),
            result: optional_text(self.result),
            new_thread_id: optional_text(self.new_thread_id),
            new_turn_id: optional_text(self.new_turn_id),
            turn_id: optional_text(self.turn_id),
            delta: optional_text(self.delta),
            item_type: optional_text(self.item_type),
            item_text: optional_text(self.item_text),
            completed_turn_id: optional_text(self.completed_turn_id),
        }
    }
}

impl ServerMessage {
    /// The id of a message stays within one line.
    pub open spec fn is_valid(self) -> bool {
        self.id matches Some(id) ==> is_one_line(id.text@)
    }
}

/// The JSON text at a place in a document.
pub open spec fn text_at(document: Seq<char>, pointer: Seq<char>) -> Option<Seq<char>> {
    match json_at(document, pointer) {
        Some(value) => Some(value.text),
        None => None,
    }
}

/// The string at a place in a document, where there is one.
pub open spec fn string_at(document: Seq<char>, pointer: Seq<char>) -> Option<Seq<char>> {
    match json_at(document, pointer) {
        Some(value) => value.string,
        None => None,
    }
}

/// What is read of a line that is a JSON document.
pub open spec fn message_on(line: Seq<char>) -> MessageView {
    MessageView {
        text: match json_at(line, ""@) {
            Some(value) => value.text,
            None => seq![],
        },
        id: json_at(line, "/id"@),
        method: string_at(line, "/method"@),
        error: text_at(line, "/error"@),
        result: text_at(line, "/result"@),
        new_thread_id: string_at(line, "/result/thread/id"@),
        new_turn_id: string_at(line, "/result/turn/id"@),
        turn_id: string_at(line, "/params/turnId"@),
        delta: string_at(line, "/params/delta"@),
        item_type: string_at(line, "/params/item/type"@),
        item_text: string_at(line, "/params/item/text"@),
        completed_turn_id: string_at(line, "/params/turn/id"@),
    }
}

fn found_text(found: &Option<JsonValue>) -> (text: Option<String>)
    ensures
        optional_text(text) == match optional_value(*found) {
            Some(value) => Some(value.text),
            None => None,
        },
{
    match found {
        Some(value) => Some(value.text.clone()),
        None => None,
    }
}

fn found_string(found: &Option<JsonValue>) -> (text: Option<String>)
    ensures
        optional_text(text) == match optional_value(*found) {
            Some(value) => value.string,
            None => None,
        },
{
    match found {
        Some(value) => match &value.string {
            Some(text) => Some(text.clone()),
            None => None,
        },
        None => None,
    }
}

fn found_value(found: &Option<JsonValue>) -> (value: Option<JsonValue>)
    ensures
        optional_value(value) == optional_value(*found),
        value is Some ==> value->0.text@ == found->0.text@,
{
    match found {
        Some(value) => Some(
            JsonValue {
                text: value.text.clone(),
                string: match &value.string {
                    Some(text) => Some(text.clone()),
                    None => None,
                },
                unsigned: value.unsigned,
            },
        ),
        None => None,
    }
}

/// Reads a line of the app server.
pub fn read_message(line: &str) -> (message: Result<ServerMessage, String>)
    ensures
        match message {
            Ok(m) => json_error(line@) is None && m@ == message_on(line@) && m.is_valid(),
            Err(error) => json_error(line@) == Some(error@),
        },
{
    let pointers: Vec<&str> = vec![
        "",
        "/id",
        "/method",
        "/error",
        "/result",
        "/result/thread/id",
        "/result/turn/id",
        "/params/turnId",
        "/params/delta",
        "/params/item/type",
        "/params/item/text",
        "/params/turn/id",
    ];
    let found = match look_up(line, &pointers) {
        Ok(found) => found,
        Err(error) => {
            return Err(error);
        },
    };
    let message = ServerMessage {
        text: match found_text(&found[0]) {
            Some(text) => text,
            None => String::new(),
        },
        id: found_value(&found[1]),
        method: found_string(&found[2]),
        error: found_text(&found[3]),
        result: found_text(&found[4]),
        new_thread_id: found_string(&found[5]),
        new_turn_id: found_string(&found[6]),
        turn_id: found_string(&found[7]),
        delta: found_string(&found[8]),
        item_type: found_string(&found[9]),
        item_text: found_string(&found[10]),
        completed_turn_id: found_string(&found[11]),
    };
    proof {
        assert(forall|i: int|
            0 <= i < 12 ==> optional_value(#[trigger] found@[i]) == json_at(
                line@,
                pointers@[i]@,
            ));
        assert(message@.text =~= message_on(line@).text);
        assert(message@ == message_on(line@));
    }
    Ok(message)
}

/// The refusal that a message calls for: a request of the app server, which has a method and an
/// id, is refused; anything else is not answered.
pub open spec fn refusal_of(message: MessageView) -> Option<Seq<char>> {
    match (message.method, message.id) {
        (Some(_), Some(id)) => Some(refusal(id.text)),
        _ => None,
    }
}

/// The line that refuses a message of the app server, where it is a request.
pub fn reject_server_request(message: &ServerMessage) -> (line: Option<String>)
    ensures
        optional_text(line) == refusal_of(message@),
{
    match (&message.method, &message.id) {
        (Some(_), Some(id)) => Some(refusal_line(id.text.as_str())),
        _ => None,
    }
}

/// The text that a notification adds to the answer of a turn.
pub open spec fn delta_of(message: MessageView, turn_id: Seq<char>) -> Seq<char> {
    if message.method == Some("item/agentMessage/delta"@) && message.turn_id == Some(turn_id) {
        match message.delta {
            Some(delta) => delta,
            None => seq![],
        }
    } else {
        seq![]
    }
}

/// The whole answer of a turn, where a notification gives it.
pub open spec fn completed_text(message: MessageView, turn_id: Seq<char>) -> Option<Seq<char>> {
    if message.method == Some("item/completed"@) && message.turn_id == Some(turn_id)
        && message.item_type == Some("agentMessage"@) {
        message.item_text
    } else {
        None
    }
}

fn text_is(text: &Option<String>, wanted: &str) -> (r: bool)
    ensures
        r == (optional_text(*text) == Some(wanted@)),
{
    match text {
        Some(text) => same_text(text.as_str(), wanted),
        None => false,
    }
}

/// Reads a notification of a turn: a piece of its answer is added to what was accumulated, and
/// a whole answer is given back.
pub fn text_from_codex_notification(
    message: &ServerMessage,
    turn_id: &str,
    accumulated: &mut String,
) -> (text: Option<String>)
    ensures
        final(accumulated)@ == old(accumulated)@ + delta_of(message@, turn_id@),
        optional_text(text) == completed_text(message@, turn_id@),
{
    proof {
        reveal_strlit("item/agentMessage/delta");
        reveal_strlit("item/completed");
        assert("item/agentMessage/delta"@.len() != "item/completed"@.len());
    }
    let ghost before = accumulated@;
    assert(before + Seq::<char>::empty() =~= before);
    if text_is(&message.method, "item/agentMessage/delta") {
        if text_is(&message.turn_id, turn_id) {
            if let Some(delta) = &message.delta {
                accumulated.append(delta.as_str());
            }
        }
        None
    } else if text_is(&message.method, "item/completed") && text_is(&message.turn_id, turn_id)
        && text_is(&message.item_type, "agentMessage") {
        match &message.item_text {
            Some(text) => Some(text.clone()),
            None => None,
        }
    } else {
        None
    }
}

proof fn lemma_text_member_one_line(name: Seq<char>, value: Seq<char>)
    ensures
        is_one_line(json_member(name, json_string(value))),
{
    lemma_string_one_line(value);
    lemma_member_one_line(name, json_string(value));
}

proof fn lemma_request_one_line(id: Seq<char>, method: Seq<char>, params: Seq<char>)
    requires
        is_one_line(id),
        is_one_line(params),
    ensures
        is_one_line(rpc_request(id, method, params)),
{
    lemma_member_one_line("id"@, id);
    lemma_text_member_one_line("jsonrpc"@, "2.0"@);
    lemma_text_member_one_line("method"@, method);
    lemma_member_one_line("params"@, params);
    lemma_parts_one_line(
        seq![
            json_member("id"@, id),
            json_member("jsonrpc"@, json_string("2.0"@)),
            json_member("method"@, json_string(method)),
            json_member("params"@, params),
        ],
    );
}

/// The request that introduces the client is one line, whatever the version.
pub proof fn law_initialize_one_line(version: Seq<char>)
    ensures
        is_one_line(initialize_request(version)),
{
    reveal_strlit("true");
    reveal_strlit("false");
    reveal_strlit("[]");
    reveal_strlit("1");
    lemma_member_one_line("experimentalApi"@, "true"@);
    lemma_member_one_line("optOutNotificationMethods"@, "[]"@);
    lemma_member_one_line("requestAttestation"@, "false"@);
    lemma_parts_one_line(
        seq![
            json_member("experimentalApi"@, "true"@),
            json_member("optOutNotificationMethods"@, "[]"@),
            json_member("requestAttestation"@, "false"@),
        ],
    );
    lemma_text_member_one_line("name"@, "romajiagent"@);
    lemma_text_member_one_line("version"@, version);
    lemma_parts_one_line(
        seq![
            json_member("name"@, json_string("romajiagent"@)),
            json_member("version"@, json_string(version)),
        ],
    );
    lemma_member_one_line("capabilities"@, capabilities());
    lemma_member_one_line("clientInfo"@, client_info(version));
    let params = seq![
        json_member("capabilities"@, capabilities()),
        json_member("clientInfo"@, client_info(version)),
    ];
    lemma_parts_one_line(params);
    lemma_request_one_line("1"@, "initialize"@, json_object(params));
}

/// The request for a thread is one line, whatever the directory and the model.
pub proof fn law_thread_start_one_line(workdir: Seq<char>, model: Option<Seq<char>>)
    ensures
        is_one_line(thread_start_request(workdir, model)),
{
    reveal_strlit("true");
    reveal_strlit("[]");
    reveal_strlit("2");
    lemma_text_member_one_line("approvalPolicy"@, "never"@);
    lemma_text_member_one_line("baseInstructions"@, base_instructions());
    lemma_text_member_one_line("cwd"@, workdir);
    lemma_member_one_line("ephemeral"@, "true"@);
    lemma_member_one_line("runtimeWorkspaceRoots"@, "[]"@);
    lemma_text_member_one_line("sandbox"@, "read-only"@);
    if let Some(name) = model {
        lemma_text_member_one_line("model"@, name);
    }
    let members = thread_members(workdir, model);
    lemma_parts_one_line(members);
    lemma_request_one_line("2"@, "thread/start"@, json_object(members));
}

proof fn lemma_schema_one_line()
    ensures
        is_one_line(response_schema()),
{
    reveal_strlit("false");
    reveal_strlit("0.0");
    reveal_strlit("1.0");
    lemma_text_member_one_line("type"@, "string"@);
    lemma_parts_one_line(seq![json_member("type"@, json_string("string"@))]);
    lemma_member_one_line("maximum"@, "1.0"@);
    lemma_member_one_line("minimum"@, "0.0"@);
    lemma_text_member_one_line("type"@, "number"@);
    lemma_parts_one_line(
        seq![
            json_member("maximum"@, "1.0"@),
            json_member("minimum"@, "0.0"@),
            json_member("type"@, json_string("number"@)),
        ],
    );
    lemma_member_one_line("confidence"@, confidence_schema());
    lemma_member_one_line("converted"@, string_schema());
    lemma_member_one_line("refined"@, string_schema());
    let properties = seq![
        json_member("confidence"@, confidence_schema()),
        json_member("converted"@, string_schema()),
        json_member("refined"@, string_schema()),
    ];
    lemma_parts_one_line(properties);
    lemma_string_one_line("converted"@);
    lemma_string_one_line("refined"@);
    lemma_string_one_line("confidence"@);
    let required = seq![
        json_string("converted"@),
        json_string("refined"@),
        json_string("confidence"@),
    ];
    lemma_parts_one_line(required);
    lemma_member_one_line("additionalProperties"@, "false"@);
    lemma_member_one_line("properties"@, json_object(properties));
    lemma_member_one_line("required"@, json_array(required));
    lemma_text_member_one_line("type"@, "object"@);
    lemma_parts_one_line(
        seq![
            json_member("additionalProperties"@, "false"@),
            json_member("properties"@, json_object(properties)),
            json_member("required"@, json_array(required)),
            json_member("type"@, json_string("object"@)),
        ],
    );
}

/// The request for a turn is one line, however many lines the prompt has.
pub proof fn law_turn_start_one_line(thread_id: Seq<char>, prompt: Seq<char>)
    ensures
        is_one_line(turn_start_request(thread_id, prompt)),
{
    reveal_strlit("[]");
    reveal_strlit("3");
    lemma_text_member_one_line("text"@, prompt);
    lemma_member_one_line("text_elements"@, "[]"@);
    lemma_text_member_one_line("type"@, "text"@);
    lemma_parts_one_line(
        seq![
            json_member("text"@, json_string(prompt)),
            json_member("text_elements"@, "[]"@),
            json_member("type"@, json_string("text"@)),
        ],
    );
    lemma_parts_one_line(seq![input_item(prompt)]);
    lemma_schema_one_line();
    lemma_member_one_line("input"@, json_array(seq![input_item(prompt)]));
    lemma_member_one_line("outputSchema"@, response_schema());
    lemma_text_member_one_line("threadId"@, thread_id);
    let params = seq![
        json_member("input"@, json_array(seq![input_item(prompt)])),
        json_member("outputSchema"@, response_schema()),
        json_member("threadId"@, json_string(thread_id)),
    ];
    lemma_parts_one_line(params);
    lemma_request_one_line("3"@, "turn/start"@, json_object(params));
}

/// A refusal is one line if the id that it repeats is.
pub proof fn law_refusal_one_line(id: Seq<char>)
    requires
        is_one_line(id),
    ensures
        is_one_line(refusal(id)),
{
    reveal_strlit("-32601");
    lemma_member_one_line("code"@, "-32601"@);
    lemma_text_member_one_line(
        "message"@,
        "Romaji Agent does not allow app-server initiated actions"@,
    );
    lemma_parts_one_line(
        seq![
            json_member("code"@, "-32601"@),
            json_member(
                "message"@,
                json_string("Romaji Agent does not allow app-server initiated actions"@),
            ),
        ],
    );
    lemma_member_one_line("error"@, refusal_error());
    lemma_member_one_line("id"@, id);
    lemma_text_member_one_line("jsonrpc"@, "2.0"@);
    lemma_parts_one_line(
        seq![
            json_member("error"@, refusal_error()),
            json_member("id"@, id),
            json_member("jsonrpc"@, json_string("2.0"@)),
        ],
    );
}

/// Whatever the directory and the model, the thread that is asked for is ephemeral, asks for no
/// approval, and runs in a sandbox that can only read.
pub proof fn law_thread_is_confined(workdir: Seq<char>, model: Option<Seq<char>>)
    ensures
        contains(
            thread_start_request(workdir, model),
            json_member("approvalPolicy"@, json_string("never"@)),
        ),
        contains(thread_start_request(workdir, model), json_member("ephemeral"@, "true"@)),
        contains(
            thread_start_request(workdir, model),
            json_member("sandbox"@, json_string("read-only"@)),
        ),
{
    let members = thread_members(workdir, model);
    lemma_member_of_params(workdir, model, 0);
    lemma_member_of_params(workdir, model, 3);
    lemma_member_of_params(workdir, model, members.len() - 1);
}

proof fn lemma_params_in_request(
    id: Seq<char>,
    method: Seq<char>,
    members: Seq<Seq<char>>,
    i: int,
    pattern: Seq<char>,
)
    requires
        0 <= i < members.len(),
        contains(members[i], pattern),
    ensures
        contains(rpc_request(id, method, json_object(members)), pattern),
{
    let params = json_object(members);
    let parts = seq![
        json_member("id"@, id),
        json_member("jsonrpc"@, json_string("2.0"@)),
        json_member("method"@, json_string(method)),
        json_member("params"@, params),
    ];
    lemma_object_contains(members, i);
    lemma_contains_through(params, members[i], pattern);
    lemma_member_contains("params"@, params, pattern);
    lemma_object_contains(parts, 3);
    lemma_contains_through(json_object(parts), parts[3], pattern);
}

proof fn lemma_contains_itself(s: Seq<char>)
    ensures
        contains(s, s),
{
    law_contains(s, s);
    assert(s =~= Seq::<char>::empty() + s + Seq::<char>::empty());
}

proof fn lemma_member_of_params(workdir: Seq<char>, model: Option<Seq<char>>, i: int)
    requires
        0 <= i < thread_members(workdir, model).len(),
    ensures
        contains(thread_start_request(workdir, model), thread_members(workdir, model)[i]),
{
    let members = thread_members(workdir, model);
    lemma_contains_itself(members[i]);
    lemma_params_in_request("2"@, "thread/start"@, members, i, members[i]);
}

/// The request that introduces the client names its version in full.
pub proof fn law_initialize_names_the_version(version: Seq<char>)
    ensures
        contains(initialize_request(version), json_member("version"@, json_string(version))),
{
    let version_member = json_member("version"@, json_string(version));
    let client = seq![json_member("name"@, json_string("romajiagent"@)), version_member];
    lemma_object_contains(client, 1);
    lemma_member_contains("clientInfo"@, client_info(version), version_member);
    let params = seq![
        json_member("capabilities"@, capabilities()),
        json_member("clientInfo"@, client_info(version)),
    ];
    lemma_params_in_request("1"@, "initialize"@, params, 1, version_member);
}

/// The request for a thread names the directory in full, and the model where its name is not
/// empty; an empty name is as good as none.
pub proof fn law_thread_names_directory_and_model(workdir: Seq<char>, model: Seq<char>)
    ensures
        contains(thread_start_request(workdir, None), json_member("cwd"@, json_string(workdir))),
        contains(
            thread_start_request(workdir, Some(model)),
            json_member("cwd"@, json_string(workdir)),
        ),
        model.len() > 0 ==> contains(
            thread_start_request(workdir, Some(model)),
            json_member("model"@, json_string(model)),
        ),
        model.len() == 0 ==> thread_start_request(workdir, Some(model)) == thread_start_request(
            workdir,
            None,
        ),
{
    lemma_member_of_params(workdir, None, 2);
    lemma_member_of_params(workdir, Some(model), 2);
    if model.len() > 0 {
        lemma_member_of_params(workdir, Some(model), 4);
    }
}

/// The request for a turn holds the whole prompt as its text, the whole id of the thread, and the
/// schema of the answer.
pub proof fn law_turn_holds_prompt_and_thread(thread_id: Seq<char>, prompt: Seq<char>)
    ensures
        contains(turn_start_request(thread_id, prompt), json_member("text"@, json_string(prompt))),
        contains(
            turn_start_request(thread_id, prompt),
            json_member("threadId"@, json_string(thread_id)),
        ),
        contains(
            turn_start_request(thread_id, prompt),
            json_member("outputSchema"@, response_schema()),
        ),
{
    let text = json_member("text"@, json_string(prompt));
    let item = seq![
        text,
        json_member("text_elements"@, "[]"@),
        json_member("type"@, json_string("text"@)),
    ];
    let input = seq![input_item(prompt)];
    let params = seq![
        json_member("input"@, json_array(input)),
        json_member("outputSchema"@, response_schema()),
        json_member("threadId"@, json_string(thread_id)),
    ];
    lemma_object_contains(item, 0);
    assert(json_object(item) == input_item(prompt));
    lemma_join_contains(input, seq![','], 0);
    lemma_contains_through(join(input, seq![',']), input[0], text);
    lemma_contains_inside(seq!['['], join(input, seq![',']), seq![']'], text);
    lemma_member_contains("input"@, json_array(input), text);
    lemma_params_in_request("3"@, "turn/start"@, params, 0, text);
    lemma_contains_itself(params[1]);
    lemma_params_in_request("3"@, "turn/start"@, params, 1, params[1]);
    lemma_contains_itself(params[2]);
    lemma_params_in_request("3"@, "turn/start"@, params, 2, params[2]);
}

/// A refusal repeats the id of the request in full and gives the code for a method that is not
/// there.
pub proof fn law_refusal_repeats_the_id(id: Seq<char>)
    ensures
        contains(refusal(id), json_member("id"@, id)),
        contains(refusal(id), json_member("code"@, "-32601"@)),
{
    let error = seq![
        json_member("code"@, "-32601"@),
        json_member(
            "message"@,
            json_string("Romaji Agent does not allow app-server initiated actions"@),
        ),
    ];
    let members = seq![
        json_member("error"@, refusal_error()),
        json_member("id"@, id),
        json_member("jsonrpc"@, json_string("2.0"@)),
    ];
    lemma_object_contains(members, 1);
    lemma_object_contains(error, 0);
    lemma_member_contains("error"@, refusal_error(), error[0]);
    lemma_object_contains(members, 0);
    lemma_contains_through(refusal(id), members[0], error[0]);
}

/// A message is refused exactly where it has both a method and an id, whatever they are.
pub proof fn law_requests_alone_are_refused(message: MessageView)
    ensures
        refusal_of(message) is Some <==> message.method is Some && message.id is Some,
        refusal_of(message) is Some ==> refusal_of(message)->0 == refusal(message.id->0.text),
{
}

/// A piece of an answer counts in full where the message is for the turn, and not at all
/// otherwise.
pub proof fn law_delta_counts_in_full(message: MessageView, turn_id: Seq<char>, delta: Seq<char>)
    requires
        message.delta == Some(delta),
    ensures
        message.method == Some("item/agentMessage/delta"@) && message.turn_id == Some(turn_id)
            ==> delta_of(message, turn_id) == delta,
        message.method != Some("item/agentMessage/delta"@) || message.turn_id != Some(turn_id)
            ==> delta_of(message, turn_id).len() == 0,
{
}

/// The text of a completed item counts in full where the item is a message of the agent in the
/// turn, and not at all otherwise.
pub proof fn law_completed_text_counts_in_full(
    message: MessageView,
    turn_id: Seq<char>,
    text: Seq<char>,
)
    requires
        message.item_text == Some(text),
    ensures
        message.method == Some("item/completed"@) && message.turn_id == Some(turn_id)
            && message.item_type == Some("agentMessage"@) ==> completed_text(message, turn_id)
            == Some(text),
        message.method != Some("item/completed"@) || message.turn_id != Some(turn_id)
            || message.item_type != Some("agentMessage"@) ==> completed_text(message, turn_id)
            is None,
{
}

/// What a message says is what stands at its places in the line.
pub proof fn law_message_is_read_from_its_places(line: Seq<char>)
    ensures
        json_at(line, ""@) matches Some(v) ==> message_on(line).text == v.text,
        message_on(line).id == json_at(line, "/id"@),
        json_at(line, "/method"@) matches Some(v) ==> message_on(line).method == v.string,
        json_at(line, "/error"@) matches Some(v) ==> message_on(line).error == Some(v.text),
        json_at(line, "/error"@) is None ==> message_on(line).error is None,
        json_at(line, "/result"@) matches Some(v) ==> message_on(line).result == Some(v.text),
        json_at(line, "/result"@) is None ==> message_on(line).result is None,
        json_at(line, "/result/thread/id"@) matches Some(v) ==> message_on(line).new_thread_id
            == v.string,
        json_at(line, "/result/turn/id"@) matches Some(v) ==> message_on(line).new_turn_id
            == v.string,
        json_at(line, "/params/turnId"@) matches Some(v) ==> message_on(line).turn_id == v.string,
        json_at(line, "/params/delta"@) matches Some(v) ==> message_on(line).delta == v.string,
        json_at(line, "/params/item/type"@) matches Some(v) ==> message_on(line).item_type
            == v.string,
        json_at(line, "/params/item/text"@) matches Some(v) ==> message_on(line).item_text
            == v.string,
        json_at(line, "/params/turn/id"@) matches Some(v) ==> message_on(line).completed_turn_id
            == v.string,
{
}

/// Whether a line refuses a request of the app server.
pub open spec fn is_refusal(line: Seq<char>) -> bool {
    exists|id: Seq<char>| line == #[trigger] refusal(id)
}

/// No request to the app server is a refusal.
pub proof fn law_requests_are_no_refusals(id: Seq<char>, method: Seq<char>, params: Seq<char>)
    ensures
        !is_refusal(rpc_request(id, method, params)),
{
    reveal_strlit("id");
    reveal_strlit("error");
    let request = rpc_request(id, method, params);
    let parts = seq![
        json_member("id"@, id),
        json_member("jsonrpc"@, json_string("2.0"@)),
        json_member("method"@, json_string(method)),
        json_member("params"@, params),
    ];
    lemma_escaped_first("id"@);
    assert("id"@[0] == 'i');
    lemma_join_starts(parts, seq![',']);
    assert(parts[0][1] == 'i');
    assert(request[2] == 'i');
    if is_refusal(request) {
        let other = choose|other: Seq<char>| request == #[trigger] refusal(other);
        let members = seq![
            json_member("error"@, refusal_error()),
            json_member("id"@, other),
            json_member("jsonrpc"@, json_string("2.0"@)),
        ];
        lemma_escaped_first("error"@);
        assert("error"@[0] == 'e');
        lemma_join_starts(members, seq![',']);
        assert(members[0][1] == 'e');
        assert(refusal(other)[2] == 'e');
    }
}

/// A request holds its id, its method and its parameters in full.
pub proof fn law_request_holds_its_parts(id: Seq<char>, method: Seq<char>, params: Seq<char>)
    ensures
        contains(rpc_request(id, method, params), json_member("id"@, id)),
        contains(rpc_request(id, method, params), json_member("jsonrpc"@, json_string("2.0"@))),
        contains(rpc_request(id, method, params), json_member("method"@, json_string(method))),
        contains(rpc_request(id, method, params), json_member("params"@, params)),
{
    let parts = seq![
        json_member("id"@, id),
        json_member("jsonrpc"@, json_string("2.0"@)),
        json_member("method"@, json_string(method)),
        json_member("params"@, params),
    ];
    lemma_object_contains(parts, 0);
    lemma_object_contains(parts, 1);
    lemma_object_contains(parts, 2);
    lemma_object_contains(parts, 3);
}

/// The three requests of the opening have their own ids and methods, whatever they ask for.
pub proof fn law_opening_ids_and_methods(
    version: Seq<char>,
    workdir: Seq<char>,
    model: Option<Seq<char>>,
    thread_id: Seq<char>,
    prompt: Seq<char>,
)
    ensures
        contains(initialize_request(version), json_member("id"@, "1"@)),
        contains(initialize_request(version), json_member("method"@, json_string("initialize"@))),
        contains(thread_start_request(workdir, model), json_member("id"@, "2"@)),
        contains(
            thread_start_request(workdir, model),
            json_member("method"@, json_string("thread/start"@)),
        ),
        contains(turn_start_request(thread_id, prompt), json_member("id"@, "3"@)),
        contains(
            turn_start_request(thread_id, prompt),
            json_member("method"@, json_string("turn/start"@)),
        ),
{
    law_request_holds_its_parts("2"@, "thread/start"@, thread_params(workdir, model));
    law_request_holds_its_parts("3"@, "turn/start"@, turn_params(thread_id, prompt));
    law_request_holds_its_parts(
        "1"@,
        "initialize"@,
        json_object(
            seq![
                json_member("capabilities"@, capabilities()),
                json_member("clientInfo"@, client_info(version)),
            ],
        ),
    );
}

} // verus!
