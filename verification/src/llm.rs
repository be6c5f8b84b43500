//! The chat-completions exchange with a model service: the request body the library sends and
//! what it takes from the reply.

use vstd::prelude::*;
use crate::history::{messages_view, uses_view, ChatMessage, MessageView, ToolUse, UseView};
use crate::json::{array_of, jsons_view, members_view, object_of, push_item, push_member, Json, JsonView};
use crate::rule::{copy_string, push, text_of};
use crate::text::{contains_seq, contains_text, join_lines, texts_of};

verus! {

// ---------------------------------------------------------------------------
// Which API a model speaks
// ---------------------------------------------------------------------------

/// The API a model service speaks.
#[derive(Debug, Clone, Copy, PartialEq, Eq, Structural)]
pub enum LlmApiType {
    /// OpenAI-compatible chat completions.
    ChatCompletions,
    /// The responses API.
    Responses,
}

impl LlmApiType {
    /// The API of a service: chat completions when its URL holds `chat/completions`.
    pub fn determine_api_type(base_url: &str) -> (r: LlmApiType)
        ensures
            r == (if contains_seq(base_url@, "chat/completions"@) {
                LlmApiType::ChatCompletions
            } else {
                LlmApiType::Responses
            }),
    {
        if contains_text(base_url, "chat/completions") {
            LlmApiType::ChatCompletions
        } else {
            LlmApiType::Responses
        }
    }
}

/// Token counts of a reply.
#[derive(Debug, Clone, Copy, PartialEq, Eq, Structural)]
pub struct Usage {
    pub completion_tokens: u32,
    pub prompt_tokens: u32,
    pub total_tokens: u32,
}

/// Why the model stopped.
#[derive(Debug, Clone, Copy, PartialEq, Eq, Structural)]
pub enum FinishReason {
    Stop,
    Length,
    ContentFilter,
    ToolCalls,
    InsufficientSystemResources,
}

/// The wire name of a finish reason.
pub open spec fn finish_reason_text(f: FinishReason) -> Seq<char> {
    match f {
        FinishReason::Stop => "stop"@,
        FinishReason::Length => "length"@,
        FinishReason::ContentFilter => "content_filter"@,
        FinishReason::ToolCalls => "tool_calls"@,
        FinishReason::InsufficientSystemResources => "insufficient_system_resources"@,
    }
}

impl FinishReason {
    /// The wire name (see `finish_reason_text`).
    pub fn as_str(&self) -> (r: &'static str)
        ensures
            r@ == finish_reason_text(*self),
    {
        match self {
            FinishReason::Stop => "stop",
            FinishReason::Length => "length",
            FinishReason::ContentFilter => "content_filter",
            FinishReason::ToolCalls => "tool_calls",
            FinishReason::InsufficientSystemResources => "insufficient_system_resources",
        }
    }

    /// The finish reason a wire name names.
    pub fn from_text(s: &str) -> (r: Option<FinishReason>)
        ensures
            match r {
                Some(f) => finish_reason_text(f) == s@,
                None => forall|f: FinishReason| finish_reason_text(f) != s@,
            },
    {
        proof {
            reveal_strlit("stop");
            reveal_strlit("length");
            reveal_strlit("content_filter");
            reveal_strlit("tool_calls");
            reveal_strlit("insufficient_system_resources");
        }
        if crate::text::str_eq(s, "stop") {
            Some(FinishReason::Stop)
        } else if crate::text::str_eq(s, "length") {
            Some(FinishReason::Length)
        } else if crate::text::str_eq(s, "content_filter") {
            Some(FinishReason::ContentFilter)
        } else if crate::text::str_eq(s, "tool_calls") {
            Some(FinishReason::ToolCalls)
        } else if crate::text::str_eq(s, "insufficient_system_resources") {
            Some(FinishReason::InsufficientSystemResources)
        } else {
            None
        }
    }
}

// ---------------------------------------------------------------------------
// The request
// ---------------------------------------------------------------------------

/// A tool as the request offers it: name, description, and its parsed input schema (none when
/// the schema text is not JSON).
#[derive(Debug)]
pub struct ToolSchema {
    pub name: String,
    pub description: String,
    pub parameters: Option<Json>,
}

/// The wire form of a tool call.
pub open spec fn tool_call_json(u: UseView) -> JsonView {
    JsonView::Object(seq![
        ("id"@, JsonView::Str(u.0)),
        ("type"@, JsonView::Str("function"@)),
        ("function"@, JsonView::Object(seq![("name"@, JsonView::Str(u.1)), ("arguments"@, JsonView::Str(u.2))])),
    ])
}

/// The wire form of a message: a user message; an assistant message, with its tool calls when
/// it made some; a tool answer with the call it answers.
pub open spec fn message_json(m: MessageView) -> JsonView {
    match m {
        MessageView::User(c) => JsonView::Object(seq![("role"@, JsonView::Str("user"@)), ("content"@, JsonView::Str(c))]),
        MessageView::Assistant(c, None) => JsonView::Object(
            seq![("role"@, JsonView::Str("assistant"@)), ("content"@, JsonView::Str(c))],
        ),
        MessageView::Assistant(c, Some(us)) => JsonView::Object(seq![
            ("role"@, JsonView::Str("assistant"@)),
            ("content"@, JsonView::Str(c)),
            ("tool_calls"@, JsonView::Array(us.map_values(|u: UseView| tool_call_json(u)))),
        ]),
        MessageView::Tool(c, id, _) => JsonView::Object(seq![
            ("role"@, JsonView::Str("tool"@)),
            ("tool_call_id"@, JsonView::Str(id)),
            ("content"@, JsonView::Str(c)),
        ]),
    }
}

/// The view of a tool schema.
pub open spec fn schema_view(t: ToolSchema) -> (Seq<char>, Seq<char>, Option<JsonView>) {
    (t.name@, t.description@, match t.parameters {
        Some(p) => Some(p@),
        None => None,
    })
}

/// The wire form of an offered tool; an unreadable schema is sent as `{}`.
pub open spec fn tool_json(t: (Seq<char>, Seq<char>, Option<JsonView>)) -> JsonView {
    JsonView::Object(seq![
        ("type"@, JsonView::Str("function"@)),
        ("function"@, JsonView::Object(seq![
            ("name"@, JsonView::Str(t.0)),
            ("description"@, JsonView::Str(t.1)),
            ("parameters"@, match t.2 {
                Some(p) => p,
                None => JsonView::Object(Seq::empty()),
            }),
        ])),
    ])
}

/// The request body, but for `temperature`: the system prompt (its parts joined with `\n`)
/// then the messages, the model and its token limit, fixed sampling settings, and the tools
/// (`null` when none are offered).
pub open spec fn request_json(
    system_prompt: Seq<Seq<char>>,
    messages: Seq<MessageView>,
    model_name: Seq<char>,
    max_tokens: u32,
    tools: Option<Seq<(Seq<char>, Seq<char>, Option<JsonView>)>>,
) -> JsonView {
    JsonView::Object(seq![
        ("messages"@, JsonView::Array(
            seq![JsonView::Object(seq![
                ("role"@, JsonView::Str("system"@)),
                ("content"@, JsonView::Str(join_lines(system_prompt))),
            ])] + messages.map_values(|m: MessageView| message_json(m)),
        )),
        ("model"@, JsonView::Str(model_name)),
        ("frequency_penalty"@, JsonView::PosInt(0)),
        ("max_tokens"@, JsonView::PosInt(max_tokens as u64)),
        ("presence_penalty"@, JsonView::PosInt(0)),
        ("response_format"@, JsonView::Object(seq![("type"@, JsonView::Str("text"@))])),
        ("stop"@, JsonView::Null),
        ("stream"@, JsonView::Bool(false)),
        ("top_p"@, JsonView::PosInt(1)),
        ("tools"@, match tools {
            Some(ts) => JsonView::Array(tools_json(ts)),
            None => JsonView::Null,
        }),
    ])
}

/// The wire forms of messages.
pub open spec fn messages_json(ms: Seq<MessageView>) -> Seq<JsonView> {
    ms.map_values(|m: MessageView| message_json(m))
}

/// The wire forms of offered tools.
pub open spec fn tools_json(ts: Seq<(Seq<char>, Seq<char>, Option<JsonView>)>) -> Seq<JsonView> {
    ts.map_values(|t: (Seq<char>, Seq<char>, Option<JsonView>)| tool_json(t))
}

/// The views of tool schemas.
pub open spec fn schemas_view(ts: Seq<ToolSchema>) -> Seq<(Seq<char>, Seq<char>, Option<JsonView>)> {
    ts.map_values(|t: ToolSchema| schema_view(t))
}

/// A copy of a JSON value.
pub fn copy_json(j: &Json) -> (r: Json)
    ensures
        r@ == j@,
    decreases j,
{
    proof {
        reveal_with_fuel(crate::json::json_view, 2);
    }
    match j {
        Json::Null => Json::Null,
        Json::Bool(b) => Json::Bool(*b),
        Json::PosInt(u) => Json::PosInt(*u),
        Json::NegInt(i) => Json::NegInt(*i),
        Json::Float => Json::Float,
        Json::Str(s) => Json::Str(copy_string(s)),
        Json::Array(v) => {
            proof {
                assert(*j == Json::Array(*v));
            }
            let mut out: Vec<Json> = Vec::new();
            let mut i: usize = 0;
            proof {
                crate::json::lemma_jsons_view_index(v@);
                assert(jsons_view(out@) =~= jsons_view(v@).take(0));
            }
            while i < v.len()
                invariant
                    *j == Json::Array(*v),
                    i <= v@.len(),
                    jsons_view(v@).len() == v@.len(),
                    forall|k: int| 0 <= k < v@.len() ==> #[trigger] jsons_view(v@)[k] == v@[k]@,
                    jsons_view(out@) =~= jsons_view(v@).take(i as int),
                decreases v.len() - i,
            {
                assert(decreases_to!(*j => (*j)->Array_0));
                assert((*j)->Array_0 == *v);
                assert(decreases_to!(*v => v@));
                assert(decreases_to!(v@ => v@[i as int]));
                let x = copy_json(&v[i]);
                push_item(&mut out, x);
                proof {
                    assert(jsons_view(v@).take(i + 1) =~= jsons_view(v@).take(i as int).push(v@[i as int]@));
                }
                i = i + 1;
            }
            proof {
                assert(jsons_view(v@).take(i as int) =~= jsons_view(v@));
            }
            array_of(out)
        },
        Json::Object(m) => {
            proof {
                assert(*j == Json::Object(*m));
            }
            let mut out: Vec<(String, Json)> = Vec::new();
            let mut i: usize = 0;
            proof {
                crate::json::lemma_members_view_index(m@);
                assert(members_view(out@) =~= members_view(m@).take(0));
            }
            while i < m.len()
                invariant
                    *j == Json::Object(*m),
                    i <= m@.len(),
                    members_view(m@).len() == m@.len(),
                    forall|k: int| 0 <= k < m@.len() ==> #[trigger] members_view(m@)[k] == (m@[k].0@, m@[k].1@),
                    members_view(out@) =~= members_view(m@).take(i as int),
                decreases m.len() - i,
            {
                assert(decreases_to!(*j => (*j)->Object_0));
                assert((*j)->Object_0 == *m);
                assert(decreases_to!(*m => m@));
                assert(decreases_to!(m@ => m@[i as int]));
                assert(decreases_to!(m@[i as int] => m@[i as int].1));
                let x = copy_json(&m[i].1);
                push_member(&mut out, m[i].0.as_str(), x);
                proof {
                    assert(members_view(m@).take(i + 1) =~= members_view(m@).take(i as int).push((m@[i as int].0@, m@[i as int].1@)));
                }
                i = i + 1;
            }
            proof {
                assert(members_view(m@).take(i as int) =~= members_view(m@));
            }
            object_of(out)
        },
    }
}

fn tool_call_value(u: &ToolUse) -> (r: Json)
    ensures
        r@ == tool_call_json((u.id@, u.name@, u.arguments@)),
{
    let mut f: Vec<(String, Json)> = Vec::new();
    proof {
        assert(members_view(f@) =~= Seq::empty());
    }
    push_member(&mut f, "name", Json::Str(copy_string(&u.name)));
    push_member(&mut f, "arguments", Json::Str(copy_string(&u.arguments)));
    proof {
        assert(members_view(f@) =~= seq![("name"@, JsonView::Str(u.name@)), ("arguments"@, JsonView::Str(u.arguments@))]);
    }
    let func = object_of(f);
    let mut m: Vec<(String, Json)> = Vec::new();
    proof {
        assert(members_view(m@) =~= Seq::empty());
    }
    push_member(&mut m, "id", Json::Str(copy_string(&u.id)));
    push_member(&mut m, "type", Json::Str(text_of("function")));
    push_member(&mut m, "function", func);
    proof {
        assert(members_view(m@) =~= seq![
            ("id"@, JsonView::Str(u.id@)),
            ("type"@, JsonView::Str("function"@)),
            ("function"@, JsonView::Object(seq![("name"@, JsonView::Str(u.name@)), ("arguments"@, JsonView::Str(u.arguments@))])),
        ]);
    }
    object_of(m)
}

fn message_value(msg: &ChatMessage) -> (r: Json)
    ensures
        r@ == message_json(msg@),
{
    let mut m: Vec<(String, Json)> = Vec::new();
    proof {
        assert(members_view(m@) =~= Seq::empty());
    }
    match msg {
        ChatMessage::User(c) => {
            push_member(&mut m, "role", Json::Str(text_of("user")));
            push_member(&mut m, "content", Json::Str(copy_string(c)));
        },
        ChatMessage::Assistant { content, tool_uses } => {
            push_member(&mut m, "role", Json::Str(text_of("assistant")));
            push_member(&mut m, "content", Json::Str(copy_string(content)));
            match tool_uses {
                Some(us) => {
                    let mut items: Vec<Json> = Vec::new();
                    let ghost uv = uses_view(us@);
                    let mut i: usize = 0;
                    proof {
                        assert(jsons_view(items@) =~= uv.take(0).map_values(|u: UseView| tool_call_json(u)));
                    }
                    while i < us.len()
                        invariant
                            i <= us@.len(),
                            uv == uses_view(us@),
                            jsons_view(items@) =~= uv.take(i as int).map_values(|u: UseView| tool_call_json(u)),
                        decreases us.len() - i,
                    {
                        let x = tool_call_value(&us[i]);
                        push_item(&mut items, x);
                        proof {
                            assert(uv.take(i + 1) =~= uv.take(i as int).push(uv[i as int]));
                        }
                        i = i + 1;
                    }
                    proof {
                        assert(uv.take(i as int) =~= uv);
                    }
                    push_member(&mut m, "tool_calls", array_of(items));
                },
                None => {},
            }
        },
        ChatMessage::Tool(t) => {
            push_member(&mut m, "role", Json::Str(text_of("tool")));
            push_member(&mut m, "tool_call_id", Json::Str(copy_string(&t.tool_use_id)));
            push_member(&mut m, "content", Json::Str(copy_string(&t.content)));
        },
    }
    proof {
        match msg@ {
            MessageView::User(c) => {
                assert(members_view(m@) =~= seq![("role"@, JsonView::Str("user"@)), ("content"@, JsonView::Str(c))]);
            },
            MessageView::Assistant(c, None) => {
                assert(members_view(m@) =~= seq![("role"@, JsonView::Str("assistant"@)), ("content"@, JsonView::Str(c))]);
            },
            MessageView::Assistant(c, Some(us)) => {
                assert(members_view(m@) =~= seq![
                    ("role"@, JsonView::Str("assistant"@)),
                    ("content"@, JsonView::Str(c)),
                    ("tool_calls"@, JsonView::Array(us.map_values(|u: UseView| tool_call_json(u)))),
                ]);
            },
            MessageView::Tool(c, id, _) => {
                assert(members_view(m@) =~= seq![
                    ("role"@, JsonView::Str("tool"@)),
                    ("tool_call_id"@, JsonView::Str(id)),
                    ("content"@, JsonView::Str(c)),
                ]);
            },
        }
    }
    object_of(m)
}

fn tool_value(t: &ToolSchema) -> (r: Json)
    ensures
        r@ == tool_json(schema_view(*t)),
{
    let mut f: Vec<(String, Json)> = Vec::new();
    proof {
        assert(members_view(f@) =~= Seq::empty());
    }
    push_member(&mut f, "name", Json::Str(copy_string(&t.name)));
    push_member(&mut f, "description", Json::Str(copy_string(&t.description)));
    let params = match &t.parameters {
        Some(p) => copy_json(p),
        None => {
            let e: Vec<(String, Json)> = Vec::new();
            proof {
                assert(members_view(e@) =~= Seq::empty());
            }
            object_of(e)
        },
    };
    push_member(&mut f, "parameters", params);
    proof {
        let sv = schema_view(*t);
        assert(members_view(f@) =~= seq![
            ("name"@, JsonView::Str(sv.0)),
            ("description"@, JsonView::Str(sv.1)),
            ("parameters"@, match sv.2 {
                Some(p) => p,
                None => JsonView::Object(Seq::empty()),
            }),
        ]);
    }
    let func = object_of(f);
    let mut m: Vec<(String, Json)> = Vec::new();
    proof {
        assert(members_view(m@) =~= Seq::empty());
    }
    push_member(&mut m, "type", Json::Str(text_of("function")));
    push_member(&mut m, "function", func);
    proof {
        let sv = schema_view(*t);
        assert(members_view(m@) =~= seq![
            ("type"@, JsonView::Str("function"@)),
            ("function"@, JsonView::Object(seq![
                ("name"@, JsonView::Str(sv.0)),
                ("description"@, JsonView::Str(sv.1)),
                ("parameters"@, match sv.2 {
                    Some(p) => p,
                    None => JsonView::Object(Seq::empty()),
                }),
            ])),
        ]);
    }
    object_of(m)
}

/// The parts of a system prompt joined with `\n`.
pub fn join_prompt(parts: &Vec<String>) -> (r: String)
    ensures
        r@ == join_lines(texts_of(parts@)),
{
    proof {
        assert(texts_of(parts@).skip(0) =~= texts_of(parts@));
    }
    crate::text::join_lines_from(parts, 0)
}

/// The chat-completions provider: what is sent to the service and taken from its reply.
#[derive(Debug)]
pub struct ChatCompletionsProvider;

impl ChatCompletionsProvider {
    /// The request body, but for `temperature` (see `request_json`).
    pub fn request_body(
        system_prompt: &Vec<String>,
        messages: &Vec<ChatMessage>,
        model_name: &str,
        max_tokens: u32,
        tools: Option<&Vec<ToolSchema>>,
    ) -> (r: Json)
        ensures
            r@ == request_json(
                texts_of(system_prompt@),
                messages_view(messages@),
                model_name@,
                max_tokens,
                match tools {
                    Some(ts) => Some(schemas_view(ts@)),
                    None => None,
                },
            ),
    {
        let mut sys: Vec<(String, Json)> = Vec::new();
        proof {
            assert(members_view(sys@) =~= Seq::empty());
        }
        push_member(&mut sys, "role", Json::Str(text_of("system")));
        push_member(&mut sys, "content", Json::Str(join_prompt(system_prompt)));
        proof {
            assert(members_view(sys@) =~= seq![
                ("role"@, JsonView::Str("system"@)),
                ("content"@, JsonView::Str(join_lines(texts_of(system_prompt@)))),
            ]);
        }
        let mut items: Vec<Json> = Vec::new();
        proof {
            assert(jsons_view(items@) =~= Seq::empty());
        }
        push_item(&mut items, object_of(sys));
        let ghost head = jsons_view(items@);
        proof {
            assert(head =~= seq![JsonView::Object(seq![
                ("role"@, JsonView::Str("system"@)),
                ("content"@, JsonView::Str(join_lines(texts_of(system_prompt@)))),
            ])]);
        }
        let ghost mv = messages_view(messages@);
        let mut i: usize = 0;
        proof {
            assert(jsons_view(items@) =~= head + messages_json(mv.take(0)));
        }
        while i < messages.len()
            invariant
                i <= messages@.len(),
                mv == messages_view(messages@),
                jsons_view(items@) =~= head + messages_json(mv.take(i as int)),
            decreases messages.len() - i,
        {
            let x = message_value(&messages[i]);
            push_item(&mut items, x);
            proof {
                assert(mv.take(i + 1) =~= mv.take(i as int).push(mv[i as int]));
            }
            i = i + 1;
        }
        proof {
            assert(mv.take(i as int) =~= mv);
        }
        let tools_value = match tools {
            Some(ts) => {
                let mut tv: Vec<Json> = Vec::new();
                let ghost sv = schemas_view(ts@);
                let mut k: usize = 0;
                proof {
                    assert(jsons_view(tv@) =~= tools_json(sv.take(0)));
                }
                while k < ts.len()
                    invariant
                        k <= ts@.len(),
                        sv == schemas_view(ts@),
                        jsons_view(tv@) =~= tools_json(sv.take(k as int)),
                    decreases ts.len() - k,
                {
                    let x = tool_value(&ts[k]);
                    push_item(&mut tv, x);
                    proof {
                        assert(sv.take(k + 1) =~= sv.take(k as int).push(sv[k as int]));
                    }
                    k = k + 1;
                }
                proof {
                    assert(sv.take(k as int) =~= sv);
                }
                array_of(tv)
            },
            None => Json::Null,
        };
        let mut fmt: Vec<(String, Json)> = Vec::new();
        proof {
            assert(members_view(fmt@) =~= Seq::empty());
        }
        push_member(&mut fmt, "type", Json::Str(text_of("text")));
        proof {
            assert(members_view(fmt@) =~= seq![("type"@, JsonView::Str("text"@))]);
        }
        let mut m: Vec<(String, Json)> = Vec::new();
        proof {
            assert(members_view(m@) =~= Seq::empty());
        }
        push_member(&mut m, "messages", array_of(items));
        push_member(&mut m, "model", Json::Str(text_of(model_name)));
        push_member(&mut m, "frequency_penalty", Json::PosInt(0));
        push_member(&mut m, "max_tokens", Json::PosInt(max_tokens as u64));
        push_member(&mut m, "presence_penalty", Json::PosInt(0));
        push_member(&mut m, "response_format", object_of(fmt));
        push_member(&mut m, "stop", Json::Null);
        push_member(&mut m, "stream", Json::Bool(false));
        push_member(&mut m, "top_p", Json::PosInt(1));
        push_member(&mut m, "tools", tools_value);
        proof {
            let tj = match tools {
                Some(ts) => JsonView::Array(tools_json(schemas_view(ts@))),
                None => JsonView::Null,
            };
            let lit = seq![
                ("messages"@, JsonView::Array(
                    seq![JsonView::Object(seq![
                        ("role"@, JsonView::Str("system"@)),
                        ("content"@, JsonView::Str(join_lines(texts_of(system_prompt@)))),
                    ])] + messages_json(mv),
                )),
                ("model"@, JsonView::Str(model_name@)),
                ("frequency_penalty"@, JsonView::PosInt(0)),
                ("max_tokens"@, JsonView::PosInt(max_tokens as u64)),
                ("presence_penalty"@, JsonView::PosInt(0)),
                ("response_format"@, JsonView::Object(seq![("type"@, JsonView::Str("text"@))])),
                ("stop"@, JsonView::Null),
                ("stream"@, JsonView::Bool(false)),
                ("top_p"@, JsonView::PosInt(1)),
                ("tools"@, tj),
            ];
            assert(members_view(m@) =~= lit);
            let tv2 = match tools {
                Some(ts) => Some(schemas_view(ts@)),
                None => None,
            };
            let rj = request_json(texts_of(system_prompt@), mv, model_name@, max_tokens, tv2);
            assert(rj->Object_0 =~= lit);
            assert(rj == JsonView::Object(lit));
        }
        object_of(m)
    }
}


// ---------------------------------------------------------------------------
// The reply
// ---------------------------------------------------------------------------

/// The message of one choice of a reply: its text and the tool calls it makes.
#[derive(Debug)]
pub struct ResponseMessage {
    pub content: String,
    pub tool_calls: Option<Vec<ToolUse>>,
}

/// One choice of a reply.
#[derive(Debug)]
pub struct Choice {
    pub finish_reason: Option<FinishReason>,
    pub index: u32,
    pub message: ResponseMessage,
}

/// A chat-completions reply, as far as the library reads it.
#[derive(Debug)]
pub struct ChatCompletionResponse {
    pub id: String,
    pub choices: Vec<Choice>,
    pub created: u64,
    pub model: String,
    pub system_fingerprint: Option<String>,
    pub object: String,
    pub usage: Usage,
}

/// What the model answered: its text, the reply's id, and the tool calls it makes.
#[derive(Debug)]
pub struct AssistantReply {
    pub content: String,
    pub uuid: String,
    pub tool_uses: Option<Vec<ToolUse>>,
}

/// The view of optional tool uses.
pub open spec fn opt_uses_view(us: Option<Vec<ToolUse>>) -> Option<Seq<UseView>> {
    match us {
        Some(v) => Some(uses_view(v@)),
        None => None,
    }
}

/// The error of a reply without choices.
pub open spec fn no_choices_text() -> Seq<char> {
    "No response choices received"@
}

pub(crate) fn copy_uses(us: &Vec<ToolUse>) -> (r: Vec<ToolUse>)
    ensures
        uses_view(r@) == uses_view(us@),
{
    let mut out: Vec<ToolUse> = Vec::new();
    let mut i: usize = 0;
    proof {
        assert(uses_view(out@) =~= uses_view(us@).take(0));
    }
    while i < us.len()
        invariant
            i <= us@.len(),
            uses_view(out@) =~= uses_view(us@).take(i as int),
        decreases us.len() - i,
    {
        let ghost prev = out@;
        out.push(ToolUse { id: copy_string(&us[i].id), name: copy_string(&us[i].name), arguments: copy_string(&us[i].arguments) });
        proof {
            assert(uses_view(out@) =~= uses_view(prev).push((us@[i as int].id@, us@[i as int].name@, us@[i as int].arguments@)));
            assert(uses_view(us@).take(i + 1) =~= uses_view(us@).take(i as int).push(uses_view(us@)[i as int]));
        }
        i = i + 1;
    }
    proof {
        assert(uses_view(us@).take(i as int) =~= uses_view(us@));
    }
    out
}

impl ChatCompletionsProvider {
    /// What the model answered: the first choice's text and tool calls, with the reply's id; an
    /// error when there is no choice.
    pub fn reply(resp: &ChatCompletionResponse) -> (r: Result<AssistantReply, String>)
        ensures
            resp.choices@.len() == 0 <==> r is Err,
            r matches Err(e) ==> e@ == no_choices_text(),
            r matches Ok(a) ==> a.content@ == resp.choices@[0].message.content@ && a.uuid@ == resp.id@
                && opt_uses_view(a.tool_uses) == opt_uses_view(resp.choices@[0].message.tool_calls),
    {
        if resp.choices.len() == 0 {
            return Err(text_of("No response choices received"));
        }
        let m = &resp.choices[0].message;
        let tool_uses = match &m.tool_calls {
            Some(us) => Some(copy_uses(us)),
            None => None,
        };
        Ok(AssistantReply { content: copy_string(&m.content), uuid: copy_string(&resp.id), tool_uses })
    }
}

/// The error of a reply whose HTTP status is not a success.
pub fn http_status_error(status: &str) -> (r: String)
    ensures
        r@ == "HTTP status: "@ + status@,
{
    let mut t = text_of("HTTP status: ");
    push(&mut t, status);
    t
}

/// The error of an API the library does not speak.
pub open spec fn unsupported_api_text() -> Seq<char> {
    "Unsupported API type"@
}

/// Whether every character is ASCII.
pub open spec fn all_ascii(s: Seq<char>) -> bool {
    forall|i: int| 0 <= i < s.len() ==> (s[i] as u32) < 128
}

/// An API key as logs show it: its first and last four characters around `****` when it is
/// longer than eight, else `****`.
pub open spec fn masked_key_of(key: Seq<char>) -> Seq<char> {
    if key.len() > 8 {
        key.take(4) + "****"@ + key.skip(key.len() - 4)
    } else {
        "****"@
    }
}

/// An API key as logs show it (see `masked_key_of`); the key is ASCII, as the byte slicing of
/// the key needs.
pub fn masked_api_key(key: &str) -> (r: String)
    requires
        all_ascii(key@),
    ensures
        r@ == masked_key_of(key@),
{
    let cs = crate::text::chars_of(key);
    let n = cs.len();
    if n <= 8 {
        return text_of("****");
    }
    let mut out: Vec<char> = Vec::new();
    let mut i: usize = 0;
    while i < 4
        invariant
            i <= 4,
            n == cs@.len(),
            n > 8,
            out@ == cs@.take(i as int),
        decreases 4 - i,
    {
        out.push(cs[i]);
        proof {
            assert(cs@.take(i + 1) =~= cs@.take(i as int).push(cs@[i as int]));
        }
        i = i + 1;
    }
    out.push('*');
    out.push('*');
    out.push('*');
    out.push('*');
    let ghost mid = out@;
    let mut k: usize = n - 4;
    while k < n
        invariant
            n - 4 <= k <= n,
            n == cs@.len(),
            n > 8,
            out@ == mid + cs@.subrange(n - 4, k as int),
        decreases n - k,
    {
        out.push(cs[k]);
        proof {
            assert(cs@.subrange(n - 4, k + 1) =~= cs@.subrange(n - 4, k as int).push(cs@[k as int]));
        }
        k = k + 1;
    }
    proof {
        reveal_strlit("****");
        assert(out@ =~= cs@.take(4) + "****"@ + cs@.skip(n - 4));
    }
    crate::text::string_of(out.as_slice())
}

/// What is known of a failed HTTP exchange.
#[derive(Debug, Clone, Copy)]
pub struct RequestErrorKind {
    pub is_timeout: bool,
    pub is_connect: bool,
    pub is_request: bool,
    pub is_body: bool,
    pub is_decode: bool,
    pub is_redirect: bool,
    pub is_status: bool,
}

/// The class of a failed exchange, for the logs: the first property that holds, in the order
/// timeout (of a connection or a request), connection, request, body, decoding, redirect,
/// status.
pub open spec fn error_class(k: RequestErrorKind) -> Seq<char> {
    if k.is_timeout {
        if k.is_connect { "CONNECTION_TIMEOUT"@ } else { "REQUEST_TIMEOUT"@ }
    } else if k.is_connect {
        "CONNECTION_FAILED"@
    } else if k.is_request {
        "REQUEST_ERROR"@
    } else if k.is_body {
        "BODY_ERROR"@
    } else if k.is_decode {
        "DECODE_ERROR"@
    } else if k.is_redirect {
        "REDIRECT_ERROR"@
    } else if k.is_status {
        "HTTP_STATUS_ERROR"@
    } else {
        "UNKNOWN_ERROR"@
    }
}

/// The class of a failed exchange (see `error_class`).
pub fn classify_request_error(k: RequestErrorKind) -> (r: &'static str)
    ensures
        r@ == error_class(k),
{
    if k.is_timeout {
        if k.is_connect { "CONNECTION_TIMEOUT" } else { "REQUEST_TIMEOUT" }
    } else if k.is_connect {
        "CONNECTION_FAILED"
    } else if k.is_request {
        "REQUEST_ERROR"
    } else if k.is_body {
        "BODY_ERROR"
    } else if k.is_decode {
        "DECODE_ERROR"
    } else if k.is_redirect {
        "REDIRECT_ERROR"
    } else if k.is_status {
        "HTTP_STATUS_ERROR"
    } else {
        "UNKNOWN_ERROR"
    }
}


/// Each finish reason has a wire name of its own, so reading a name back gives the reason.
pub proof fn lemma_finish_reason_names_distinct(f: FinishReason, g: FinishReason)
    ensures
        finish_reason_text(f) == finish_reason_text(g) ==> f == g,
{
    reveal_strlit("stop");
    reveal_strlit("length");
    reveal_strlit("content_filter");
    reveal_strlit("tool_calls");
    reveal_strlit("insufficient_system_resources");
    if f != g {
        assert(finish_reason_text(f) != finish_reason_text(g)) by {
            let a = finish_reason_text(f);
            let b = finish_reason_text(g);
            if a.len() == b.len() {
                assert(a[0] != b[0] || a[1] != b[1]);
            }
        }
    }
}

} // verus!
