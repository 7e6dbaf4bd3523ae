//! Provider wire formats. One internal message model is translated onto the
//! provider dialects: the native tool-calling dialect (rich content blocks),
//! and the chat-completions dialect (flattened messages with function
//! calling), which a configurable-endpoint variant shares. The HTTP exchange
//! itself is the embedding program's; this module builds the exact request
//! bodies and reads the responses.

use vstd::prelude::*;

use crate::error::AppError;
use crate::json::{json_text, lemma_view_arr, lemma_view_obj, spec_get, spec_get_str, Json,
    JsonV};
use crate::msg::{blocks_view, msgs_view, tools_view, AiResponse, BlockV, ContentBlock,
    Message, MessageV, Role, StopReason, ToolDefV, ToolDefinition};
use crate::text::{starts_with, str_eq, trim_spaces, trimmed};

verus! {

/// The wire name of a role.
pub open spec fn role_text(r: Role) -> Seq<char> {
    match r {
        Role::User => "user"@,
        Role::Assistant => "assistant"@,
    }
}

/// A content block in the native dialect.
pub open spec fn native_block_json(b: BlockV) -> JsonV {
    match b {
        BlockV::Text { text } => JsonV::Obj(
            seq![
                ("type"@, JsonV::Str("text"@)),
                ("text"@, JsonV::Str(text)),
            ],
        ),
        BlockV::Image { source_type, media_type, data } => JsonV::Obj(
            seq![
                ("type"@, JsonV::Str("image"@)),
                (
                    "source"@,
                    JsonV::Obj(
                        seq![
                            ("type"@, JsonV::Str(source_type)),
                            ("media_type"@, JsonV::Str(media_type)),
                            ("data"@, JsonV::Str(data)),
                        ],
                    ),
                ),
            ],
        ),
        BlockV::ToolUse { id, name, input } => JsonV::Obj(
            seq![
                ("type"@, JsonV::Str("tool_use"@)),
                ("id"@, JsonV::Str(id)),
                ("name"@, JsonV::Str(name)),
                ("input"@, input),
            ],
        ),
        BlockV::ToolResult { tool_use_id, content, is_error } => JsonV::Obj(
            seq![
                ("type"@, JsonV::Str("tool_result"@)),
                ("tool_use_id"@, JsonV::Str(tool_use_id)),
                ("content"@, JsonV::Str(content)),
            ] + if is_error == Some(true) {
                seq![("is_error"@, JsonV::Bool(true))]
            } else {
                Seq::empty()
            },
        ),
    }
}

/// A message in the native dialect.
pub open spec fn native_msg_json(m: MessageV) -> JsonV {
    JsonV::Obj(
        seq![
            ("role"@, JsonV::Str(role_text(m.role))),
            (
                "content"@,
                JsonV::Arr(Seq::new(m.content.len(), |i: int| native_block_json(m.content[i]))),
            ),
        ],
    )
}

/// A tool declaration in the native dialect: only the fields that are set.
pub open spec fn native_tool_json(t: ToolDefV) -> JsonV {
    JsonV::Obj(
        seq![("name"@, JsonV::Str(t.name))] + (match t.tool_type {
            Some(tt) => seq![("type"@, JsonV::Str(tt))],
            None => Seq::empty(),
        }) + (match t.description {
            Some(d) => seq![("description"@, JsonV::Str(d))],
            None => Seq::empty(),
        }) + (match t.input_schema {
            Some(s) => seq![("input_schema"@, s)],
            None => Seq::empty(),
        }) + (match t.display_width_px {
            Some(w) => seq![("display_width_px"@, JsonV::Int(w as int))],
            None => Seq::empty(),
        }) + (match t.display_height_px {
            Some(h) => seq![("display_height_px"@, JsonV::Int(h as int))],
            None => Seq::empty(),
        }) + (match t.display_number {
            Some(n) => seq![("display_number"@, JsonV::Int(n as int))],
            None => Seq::empty(),
        }),
    )
}

/// The native-dialect request body.
pub open spec fn native_request(
    model: Seq<char>,
    system: Seq<char>,
    msgs: Seq<MessageV>,
    tools: Seq<ToolDefV>,
) -> JsonV {
    JsonV::Obj(
        seq![
            ("model"@, JsonV::Str(model)),
            ("max_tokens"@, JsonV::Int(4096)),
            ("system"@, JsonV::Str(system)),
            ("tools"@, JsonV::Arr(Seq::new(tools.len(), |i: int| native_tool_json(tools[i])))),
            ("messages"@, JsonV::Arr(Seq::new(msgs.len(), |i: int| native_msg_json(msgs[i])))),
        ],
    )
}

/// Build one native-dialect content block.
fn native_block(b: &ContentBlock) -> (r: Json)
    ensures
        r@ == native_block_json(b@),
{
    match b {
        ContentBlock::Text { text } => {
            let mut entries: Vec<(String, Json)> = Vec::new();
            entries.push((String::from_str("type"), Json::Str(String::from_str("text"))));
            entries.push((String::from_str("text"), Json::Str(text.clone())));
            let r = Json::Obj(entries);
            proof {
                lemma_view_obj(r->Obj_0);
                assert(r@->Obj_0 =~= native_block_json(b@)->Obj_0);
            }
            r
        },
        ContentBlock::Image { source } => {
            let mut src: Vec<(String, Json)> = Vec::new();
            src.push((String::from_str("type"), Json::Str(source.source_type.clone())));
            src.push((String::from_str("media_type"), Json::Str(source.media_type.clone())));
            src.push((String::from_str("data"), Json::Str(source.data.clone())));
            let inner = Json::Obj(src);
            proof {
                lemma_view_obj(inner->Obj_0);
            }
            let mut entries: Vec<(String, Json)> = Vec::new();
            entries.push((String::from_str("type"), Json::Str(String::from_str("image"))));
            entries.push((String::from_str("source"), inner));
            let r = Json::Obj(entries);
            proof {
                lemma_view_obj(r->Obj_0);
                assert(native_block_json(b@)->Obj_0[1].1->Obj_0 =~= r@->Obj_0[1].1->Obj_0);
                assert(r@->Obj_0 =~= native_block_json(b@)->Obj_0);
            }
            r
        },
        ContentBlock::ToolUse { id, name, input } => {
            let mut entries: Vec<(String, Json)> = Vec::new();
            entries.push((String::from_str("type"), Json::Str(String::from_str("tool_use"))));
            entries.push((String::from_str("id"), Json::Str(id.clone())));
            entries.push((String::from_str("name"), Json::Str(name.clone())));
            entries.push((String::from_str("input"), input.duplicate()));
            let r = Json::Obj(entries);
            proof {
                lemma_view_obj(r->Obj_0);
                assert(r@->Obj_0 =~= native_block_json(b@)->Obj_0);
            }
            r
        },
        ContentBlock::ToolResult { tool_use_id, content, is_error } => {
            let mut entries: Vec<(String, Json)> = Vec::new();
            entries.push(
                (String::from_str("type"), Json::Str(String::from_str("tool_result"))),
            );
            entries.push((String::from_str("tool_use_id"), Json::Str(tool_use_id.clone())));
            entries.push((String::from_str("content"), Json::Str(content.clone())));
            let err = match is_error {
                Some(true) => true,
                _ => false,
            };
            if err {
                entries.push((String::from_str("is_error"), Json::Bool(true)));
            }
            let r = Json::Obj(entries);
            proof {
                lemma_view_obj(r->Obj_0);
                assert(r@->Obj_0 =~= native_block_json(b@)->Obj_0);
            }
            r
        },
    }
}

/// Build one native-dialect message.
fn native_msg(m: &Message) -> (r: Json)
    ensures
        r@ == native_msg_json(m@),
{
    let role = match m.role {
        Role::User => "user",
        Role::Assistant => "assistant",
    };
    let mut content: Vec<Json> = Vec::new();
    let mut i: usize = 0;
    while i < m.content.len()
        invariant
            i <= m.content@.len(),
            content@.len() == i,
            forall|k: int| 0 <= k < i ==> (#[trigger] content@[k])@ == native_block_json(
                m@.content[k],
            ),
        decreases m.content@.len() - i,
    {
        content.push(native_block(&m.content[i]));
        i += 1;
    }
    let arr = Json::Arr(content);
    proof {
        lemma_view_arr(arr->Arr_0);
        assert(arr@->Arr_0 =~= Seq::new(
            m@.content.len(),
            |i: int| native_block_json(m@.content[i]),
        ));
    }
    let mut entries: Vec<(String, Json)> = Vec::new();
    entries.push((String::from_str("role"), Json::Str(String::from_str(role))));
    entries.push((String::from_str("content"), arr));
    let r = Json::Obj(entries);
    proof {
        lemma_view_obj(r->Obj_0);
        assert(r@->Obj_0 =~= native_msg_json(m@)->Obj_0);
    }
    r
}

/// Build one native-dialect tool declaration.
fn native_tool(t: &ToolDefinition) -> (r: Json)
    ensures
        r@ == native_tool_json(t@),
{
    let mut entries: Vec<(String, Json)> = Vec::new();
    entries.push((String::from_str("name"), Json::Str(t.name.clone())));
    match &t.tool_type {
        Some(tt) => {
            entries.push((String::from_str("type"), Json::Str(tt.clone())));
        },
        None => {},
    }
    match &t.description {
        Some(d) => {
            entries.push((String::from_str("description"), Json::Str(d.clone())));
        },
        None => {},
    }
    match &t.input_schema {
        Some(s) => {
            entries.push((String::from_str("input_schema"), s.duplicate()));
        },
        None => {},
    }
    match t.display_width_px {
        Some(w) => {
            entries.push((String::from_str("display_width_px"), Json::Int(w as i64)));
        },
        None => {},
    }
    match t.display_height_px {
        Some(h) => {
            entries.push((String::from_str("display_height_px"), Json::Int(h as i64)));
        },
        None => {},
    }
    match t.display_number {
        Some(n) => {
            entries.push((String::from_str("display_number"), Json::Int(n as i64)));
        },
        None => {},
    }
    let r = Json::Obj(entries);
    proof {
        lemma_view_obj(r->Obj_0);
        assert(r@->Obj_0 =~= native_tool_json(t@)->Obj_0);
    }
    r
}

/// Build the full native-dialect request body.
pub fn build_native_request(
    model: &str,
    system: &str,
    messages: &Vec<Message>,
    tools: &Vec<ToolDefinition>,
) -> (r: Json)
    ensures
        r@ == native_request(model@, system@, msgs_view(messages@), tools_view(tools@)),
{
    let mut tool_arr: Vec<Json> = Vec::new();
    let mut i: usize = 0;
    while i < tools.len()
        invariant
            i <= tools@.len(),
            tool_arr@.len() == i,
            forall|k: int| 0 <= k < i ==> (#[trigger] tool_arr@[k])@ == native_tool_json(
                tools@[k]@,
            ),
        decreases tools@.len() - i,
    {
        tool_arr.push(native_tool(&tools[i]));
        i += 1;
    }
    let mut msg_arr: Vec<Json> = Vec::new();
    let mut j: usize = 0;
    while j < messages.len()
        invariant
            j <= messages@.len(),
            msg_arr@.len() == j,
            forall|k: int| 0 <= k < j ==> (#[trigger] msg_arr@[k])@ == native_msg_json(
                messages@[k]@,
            ),
        decreases messages@.len() - j,
    {
        msg_arr.push(native_msg(&messages[j]));
        j += 1;
    }
    let tools_json = Json::Arr(tool_arr);
    let msgs_json = Json::Arr(msg_arr);
    proof {
        lemma_view_arr(tools_json->Arr_0);
        lemma_view_arr(msgs_json->Arr_0);
        assert(tools_json@->Arr_0 =~= Seq::new(
            tools_view(tools@).len(),
            |i: int| native_tool_json(tools_view(tools@)[i]),
        ));
        assert(msgs_json@->Arr_0 =~= Seq::new(
            msgs_view(messages@).len(),
            |i: int| native_msg_json(msgs_view(messages@)[i]),
        ));
    }
    let mut entries: Vec<(String, Json)> = Vec::new();
    entries.push((String::from_str("model"), Json::Str(String::from_str(model))));
    entries.push((String::from_str("max_tokens"), Json::Int(4096)));
    entries.push((String::from_str("system"), Json::Str(String::from_str(system))));
    entries.push((String::from_str("tools"), tools_json));
    entries.push((String::from_str("messages"), msgs_json));
    let r = Json::Obj(entries);
    proof {
        lemma_view_obj(r->Obj_0);
        assert(r@->Obj_0 =~= native_request(
            model@,
            system@,
            msgs_view(messages@),
            tools_view(tools@),
        )->Obj_0);
    }
    r
}

/// How the provider finished, read from the native dialect: anything but an
/// explicit `end_turn` counts as wanting to continue.
pub open spec fn native_stop(v: JsonV) -> StopReason {
    match spec_get_str(v, "stop_reason"@) {
        Some(s) => if s == "end_turn"@ {
            StopReason::EndTurn
        } else {
            StopReason::ToolUse
        },
        None => StopReason::EndTurn,
    }
}

/// The blocks read from a native-dialect response content array: `text` and
/// `tool_use` entries, in order; anything else is dropped.
pub open spec fn native_blocks(items: Seq<JsonV>) -> Seq<BlockV>
    decreases items.len(),
{
    if items.len() == 0 {
        Seq::empty()
    } else {
        let rest = native_blocks(items.drop_last());
        let v = items.last();
        match spec_get_str(v, "type"@) {
            Some(t) => if t == "text"@ {
                rest.push(
                    BlockV::Text {
                        text: match spec_get_str(v, "text"@) {
                            Some(s) => s,
                            None => Seq::empty(),
                        },
                    },
                )
            } else if t == "tool_use"@ {
                rest.push(
                    BlockV::ToolUse {
                        id: match spec_get_str(v, "id"@) {
                            Some(s) => s,
                            None => Seq::empty(),
                        },
                        name: match spec_get_str(v, "name"@) {
                            Some(s) => s,
                            None => Seq::empty(),
                        },
                        input: match spec_get(v, "input"@) {
                            Some(j) => j,
                            None => JsonV::Null,
                        },
                    },
                )
            } else {
                rest
            },
            None => rest,
        }
    }
}

/// Read a native-dialect response: its `content` array (required) and its
/// stop reason.
pub fn parse_native_response(v: &Json) -> (r: Result<AiResponse, AppError>)
    ensures
        match r {
            Ok(resp) => (match spec_get(v@, "content"@) {
                Some(c) => c matches JsonV::Arr(items) && resp@.content == native_blocks(items),
                None => false,
            }) && resp@.stop_reason == native_stop(v@),
            Err(e) => e is AiProvider && e->AiProvider_0@ == "No content in response"@
                && match spec_get(v@, "content"@) {
                Some(c) => !(c is Arr),
                None => true,
            },
        },
{
    let stop_reason = match v.get_str("stop_reason") {
        Some(s) => if str_eq(s.as_str(), "end_turn") {
            StopReason::EndTurn
        } else {
            StopReason::ToolUse
        },
        None => StopReason::EndTurn,
    };
    let items = match v.get("content") {
        Some(c) => match c.as_arr() {
            Some(items) => items,
            None => {
                return Err(AppError::AiProvider(String::from_str("No content in response")));
            },
        },
        None => {
            return Err(AppError::AiProvider(String::from_str("No content in response")));
        },
    };
    let ghost iv = Seq::new(items@.len(), |i: int| items@[i]@);
    let mut content: Vec<ContentBlock> = Vec::new();
    let mut i: usize = 0;
    proof {
        assert(iv.subrange(0, 0).len() == 0);
        assert(blocks_view(content@) =~= native_blocks(iv.subrange(0, 0)));
    }
    while i < items.len()
        invariant
            iv == Seq::new(items@.len(), |i: int| items@[i]@),
            i <= items@.len(),
            blocks_view(content@) == native_blocks(iv.subrange(0, i as int)),
        decreases items@.len() - i,
    {
        let ghost pfx = iv.subrange(0, i as int);
        let ghost pfx2 = iv.subrange(0, i + 1);
        proof {
            assert(pfx2.drop_last() =~= pfx);
            assert(pfx2.last() == iv[i as int]);
        }
        let item = &items[i];
        let is_text = match item.get_str("type") {
            Some(t) => str_eq(t.as_str(), "text"),
            None => false,
        };
        let is_use = match item.get_str("type") {
            Some(t) => str_eq(t.as_str(), "tool_use"),
            None => false,
        };
        proof {
            reveal_strlit("text");
            reveal_strlit("tool_use");
            assert("text"@.len() == 4);
            assert("tool_use"@.len() == 8);
        }
        if is_text {
            let text = match item.get_str("text") {
                Some(s) => s.clone(),
                None => String::new(),
            };
            content.push(ContentBlock::Text { text });
            proof {
                assert(blocks_view(content@) =~= native_blocks(pfx2));
            }
        } else if is_use {
            let id = match item.get_str("id") {
                Some(s) => s.clone(),
                None => String::new(),
            };
            let name = match item.get_str("name") {
                Some(s) => s.clone(),
                None => String::new(),
            };
            let input = match item.get("input") {
                Some(j) => j.duplicate(),
                None => Json::Null,
            };
            content.push(ContentBlock::ToolUse { id, name, input });
            proof {
                assert(blocks_view(content@) =~= native_blocks(pfx2));
            }
        } else {
            proof {
                assert(blocks_view(content@) =~= native_blocks(pfx2));
            }
        }
        i += 1;
    }
    proof {
        assert(iv.subrange(0, items@.len() as int) =~= iv);
    }
    Ok(AiResponse { content, stop_reason })
}

/// Strip every trailing `/`.
pub open spec fn strip_slashes(s: Seq<char>) -> Seq<char>
    decreases s.len(),
{
    if s.len() > 0 && s.last() == '/' {
        strip_slashes(s.drop_last())
    } else {
        s
    }
}

/// A configurable base URL, normalized: trimmed; empty means the local
/// default; a missing scheme gets `http://`; trailing slashes and a trailing
/// `/v1` fall away.
pub open spec fn spec_normalized_url(input: Seq<char>) -> Seq<char> {
    let t = trimmed(input);
    let base = if t.len() == 0 {
        "http://127.0.0.1:11434"@
    } else if t.subrange(0, if t.len() < 7 {
        t.len() as int
    } else {
        7
    }) == "http://"@ || t.subrange(
        0,
        if t.len() < 8 {
            t.len() as int
        } else {
            8
        },
    ) == "https://"@ {
        t
    } else {
        "http://"@ + t
    };
    let u1 = strip_slashes(base);
    let u2 = if u1.len() >= 3 && u1.subrange(u1.len() - 3, u1.len() as int) == "/v1"@ {
        u1.subrange(0, u1.len() - 3)
    } else {
        u1
    };
    strip_slashes(u2)
}

/// Normalize a configurable base URL.
pub fn normalize_base_url(input: &str) -> (r: String)
    ensures
        r@ == spec_normalized_url(input@),
{
    let t = trim_spaces(input);
    let mut url: String = if t.unicode_len() == 0 {
        String::from_str("http://127.0.0.1:11434")
    } else if starts_with(t.as_str(), "http://") || starts_with(t.as_str(), "https://") {
        proof {
            reveal_strlit("http://");
            reveal_strlit("https://");
            assert("http://"@.len() == 7);
            assert("https://"@.len() == 8);
        }
        t.clone()
    } else {
        proof {
            reveal_strlit("http://");
            reveal_strlit("https://");
            assert("http://"@.len() == 7);
            assert("https://"@.len() == 8);
        }
        let mut u = String::from_str("http://");
        u.append(t.as_str());
        u
    };
    proof {
        assert(url@.subrange(0, url@.len() as int) =~= url@);
    }
    let mut e: usize = url.unicode_len();
    loop
        invariant_except_break
            e <= url@.len(),
            strip_slashes(url@) == strip_slashes(url@.subrange(0, e as int)),
        ensures
            e <= url@.len(),
            strip_slashes(url@) == strip_slashes(url@.subrange(0, e as int)),
            e > 0 ==> url@[e - 1] != '/',
        decreases e,
    {
        if e == 0 {
            break;
        }
        if url.as_str().get_char(e - 1) != '/' {
            break;
        }
        proof {
            assert(url@.subrange(0, e as int).drop_last() =~= url@.subrange(0, e - 1));
        }
        e -= 1;
    }
    proof {
        if e > 0 {
            assert(url@.subrange(0, e as int).last() == url@[e - 1]);
        }
        lemma_strip_done(url@, e as int);
    }
    let u1 = String::from_str(url.as_str().substring_char(0, e));
    let has_v1 = crate::text::ends_with(u1.as_str(), "/v1");
    proof {
        reveal_strlit("/v1");
        assert("/v1"@.len() == 3);
    }
    let u2: String = if has_v1 {
        String::from_str(u1.as_str().substring_char(0, u1.unicode_len() - 3))
    } else {
        u1
    };
    proof {
        assert(u2@.subrange(0, u2@.len() as int) =~= u2@);
    }
    let mut e2: usize = u2.unicode_len();
    loop
        invariant_except_break
            e2 <= u2@.len(),
            strip_slashes(u2@) == strip_slashes(u2@.subrange(0, e2 as int)),
        ensures
            e2 <= u2@.len(),
            strip_slashes(u2@) == strip_slashes(u2@.subrange(0, e2 as int)),
            e2 > 0 ==> u2@[e2 - 1] != '/',
        decreases e2,
    {
        if e2 == 0 {
            break;
        }
        if u2.as_str().get_char(e2 - 1) != '/' {
            break;
        }
        proof {
            assert(u2@.subrange(0, e2 as int).drop_last() =~= u2@.subrange(0, e2 - 1));
        }
        e2 -= 1;
    }
    proof {
        if e2 > 0 {
            assert(u2@.subrange(0, e2 as int).last() == u2@[e2 - 1]);
        }
        lemma_strip_done(u2@, e2 as int);
    }
    String::from_str(u2.as_str().substring_char(0, e2))
}

/// Normalize the base URL of the local-model endpoint (the same rule).
pub fn normalize_ollama_base_url(input: &str) -> (r: String)
    ensures
        r@ == spec_normalized_url(input@),
{
    normalize_base_url(input)
}

proof fn lemma_strip_done(s: Seq<char>, e: int)
    requires
        0 <= e <= s.len(),
        strip_slashes(s) == strip_slashes(s.subrange(0, e)),
        e > 0 ==> s.subrange(0, e).last() != '/',
    ensures
        strip_slashes(s) == s.subrange(0, e),
{
    if e == 0 {
        assert(s.subrange(0, 0).len() == 0);
    }
}

/// One selectable model, as the settings screen lists them.
#[derive(Debug)]
pub struct ModelOption {
    pub id: String,
    pub label: String,
}


/// The shapes of a JSON list.
pub open spec fn jsons_view(s: Seq<Json>) -> Seq<JsonV> {
    Seq::new(s.len(), |i: int| s[i]@)
}

proof fn lemma_jsons_view_push(s: Seq<Json>, j: Json)
    ensures
        jsons_view(s.push(j)) == jsons_view(s).push(crate::json::json_view(j)),
{
    assert forall|k: int| 0 <= k < s.len() + 1 implies jsons_view(s.push(j))[k] == jsons_view(
        s,
    ).push(crate::json::json_view(j))[k] by {
        if k < s.len() {
            assert(s.push(j)[k] == s[k]);
        } else {
            assert(s.push(j)[k] == j);
        }
    }
    assert(jsons_view(s.push(j)) =~= jsons_view(s).push(crate::json::json_view(j)));
}

/// An inline image as a data URL.
pub open spec fn data_url(media_type: Seq<char>, data: Seq<char>) -> Seq<char> {
    "data:"@ + media_type + ";base64,"@ + data
}

/// A tool result as a chat-dialect `tool` entry.
pub open spec fn chat_result_json(tid: Seq<char>, content: Seq<char>) -> JsonV {
    JsonV::Obj(
        seq![
            ("role"@, JsonV::Str("tool"@)),
            ("tool_call_id"@, JsonV::Str(tid)),
            ("content"@, JsonV::Str(content)),
        ],
    )
}

/// A text part of a chat-dialect user entry.
pub open spec fn chat_text_part(text: Seq<char>) -> JsonV {
    JsonV::Obj(seq![("type"@, JsonV::Str("text"@)), ("text"@, JsonV::Str(text))])
}

/// An image part of a chat-dialect user entry.
pub open spec fn chat_image_part(media_type: Seq<char>, data: Seq<char>) -> JsonV {
    JsonV::Obj(
        seq![
            ("type"@, JsonV::Str("image_url"@)),
            ("image_url"@, JsonV::Obj(seq![("url"@, JsonV::Str(data_url(media_type, data)))])),
        ],
    )
}

/// A tool use as a chat-dialect function call; the arguments travel as
/// serialized JSON text.
pub open spec fn chat_call_json(id: Seq<char>, name: Seq<char>, input: JsonV) -> JsonV {
    JsonV::Obj(
        seq![
            ("id"@, JsonV::Str(id)),
            ("type"@, JsonV::Str("function"@)),
            (
                "function"@,
                JsonV::Obj(
                    seq![
                        ("name"@, JsonV::Str(name)),
                        ("arguments"@, JsonV::Str(json_text(input))),
                    ],
                ),
            ),
        ],
    )
}

/// The `tool` entries of a user message, in order.
pub open spec fn chat_results(content: Seq<BlockV>) -> Seq<JsonV>
    decreases content.len(),
{
    if content.len() == 0 {
        Seq::empty()
    } else {
        let rest = chat_results(content.drop_last());
        match content.last() {
            BlockV::ToolResult { tool_use_id, content: c, .. } => rest.push(
                chat_result_json(tool_use_id, c),
            ),
            _ => rest,
        }
    }
}

/// The text and image parts of a user message, in order.
pub open spec fn chat_parts(content: Seq<BlockV>) -> Seq<JsonV>
    decreases content.len(),
{
    if content.len() == 0 {
        Seq::empty()
    } else {
        let rest = chat_parts(content.drop_last());
        match content.last() {
            BlockV::Text { text } => rest.push(chat_text_part(text)),
            BlockV::Image { media_type, data, .. } => rest.push(
                chat_image_part(media_type, data),
            ),
            _ => rest,
        }
    }
}

/// The prose pieces of an assistant message, in order.
pub open spec fn texts_of(content: Seq<BlockV>) -> Seq<Seq<char>>
    decreases content.len(),
{
    if content.len() == 0 {
        Seq::empty()
    } else {
        let rest = texts_of(content.drop_last());
        match content.last() {
            BlockV::Text { text } => rest.push(text),
            _ => rest,
        }
    }
}

/// The function calls of an assistant message, in order.
pub open spec fn calls_of(content: Seq<BlockV>) -> Seq<JsonV>
    decreases content.len(),
{
    if content.len() == 0 {
        Seq::empty()
    } else {
        let rest = calls_of(content.drop_last());
        match content.last() {
            BlockV::ToolUse { id, name, input } => rest.push(chat_call_json(id, name, input)),
            _ => rest,
        }
    }
}

/// Texts joined with a newline between each pair.
pub open spec fn join_nl(texts: Seq<Seq<char>>) -> Seq<char>
    decreases texts.len(),
{
    if texts.len() == 0 {
        Seq::empty()
    } else if texts.len() == 1 {
        texts[0]
    } else {
        join_nl(texts.drop_last()) + "\n"@ + texts.last()
    }
}

/// The chat-dialect entries a user message flattens to: one `tool` entry per
/// tool result, then one `user` entry carrying the remaining parts, if any.
pub open spec fn chat_user_entries(content: Seq<BlockV>) -> Seq<JsonV> {
    chat_results(content) + (if chat_parts(content).len() > 0 {
        seq![
            JsonV::Obj(
                seq![
                    ("role"@, JsonV::Str("user"@)),
                    ("content"@, JsonV::Arr(chat_parts(content))),
                ],
            ),
        ]
    } else {
        Seq::empty()
    })
}

/// The single chat-dialect entry of an assistant message: joined prose, and
/// the function calls when there are any.
pub open spec fn chat_assistant_entry(content: Seq<BlockV>) -> JsonV {
    JsonV::Obj(
        seq![
            ("role"@, JsonV::Str("assistant"@)),
            ("content"@, JsonV::Str(join_nl(texts_of(content)))),
        ] + (if calls_of(content).len() > 0 {
            seq![("tool_calls"@, JsonV::Arr(calls_of(content)))]
        } else {
            Seq::empty()
        }),
    )
}

/// The chat-dialect entries of one message.
pub open spec fn chat_entries_of(m: MessageV) -> Seq<JsonV> {
    match m.role {
        Role::User => chat_user_entries(m.content),
        Role::Assistant => seq![chat_assistant_entry(m.content)],
    }
}

/// The flattened conversation.
pub open spec fn chat_flat(msgs: Seq<MessageV>) -> Seq<JsonV>
    decreases msgs.len(),
{
    if msgs.len() == 0 {
        Seq::empty()
    } else {
        chat_flat(msgs.drop_last()) + chat_entries_of(msgs.last())
    }
}

/// The full chat-dialect message array: the system entry, then the flattened
/// conversation.
pub open spec fn chat_messages(system: Seq<char>, msgs: Seq<MessageV>) -> Seq<JsonV> {
    seq![
        JsonV::Obj(
            seq![("role"@, JsonV::Str("system"@)), ("content"@, JsonV::Str(system))],
        ),
    ] + chat_flat(msgs)
}

/// A described tool as a chat-dialect function declaration.
pub open spec fn chat_tool_json(t: ToolDefV) -> JsonV {
    JsonV::Obj(
        seq![
            ("type"@, JsonV::Str("function"@)),
            (
                "function"@,
                JsonV::Obj(
                    seq![
                        ("name"@, JsonV::Str(t.name)),
                        (
                            "description"@,
                            JsonV::Str(
                                match t.description {
                                    Some(d) => d,
                                    None => Seq::empty(),
                                },
                            ),
                        ),
                        (
                            "parameters"@,
                            match t.input_schema {
                                Some(s) => s,
                                None => JsonV::Obj(Seq::empty()),
                            },
                        ),
                    ],
                ),
            ),
        ],
    )
}

/// The chat-dialect tool list: only tools that carry a schema.
pub open spec fn chat_tools(tools: Seq<ToolDefV>) -> Seq<JsonV>
    decreases tools.len(),
{
    if tools.len() == 0 {
        Seq::empty()
    } else {
        let rest = chat_tools(tools.drop_last());
        if tools.last().input_schema is Some {
            rest.push(chat_tool_json(tools.last()))
        } else {
            rest
        }
    }
}

/// The chat-dialect request body (fixed completion budget; tools only when
/// any are declared).
pub open spec fn chat_request(
    model: Seq<char>,
    system: Seq<char>,
    msgs: Seq<MessageV>,
    tools: Seq<ToolDefV>,
) -> JsonV {
    JsonV::Obj(
        seq![
            ("model"@, JsonV::Str(model)),
            ("max_completion_tokens"@, JsonV::Int(4096)),
            ("messages"@, JsonV::Arr(chat_messages(system, msgs))),
        ] + (if chat_tools(tools).len() > 0 {
            seq![("tools"@, JsonV::Arr(chat_tools(tools)))]
        } else {
            Seq::empty()
        }),
    )
}

/// The configurable-endpoint request body (non-streaming, no completion
/// budget).
pub open spec fn local_request(
    model: Seq<char>,
    system: Seq<char>,
    msgs: Seq<MessageV>,
    tools: Seq<ToolDefV>,
) -> JsonV {
    JsonV::Obj(
        seq![
            ("model"@, JsonV::Str(model)),
            ("messages"@, JsonV::Arr(chat_messages(system, msgs))),
            ("stream"@, JsonV::Bool(false)),
        ] + (if chat_tools(tools).len() > 0 {
            seq![("tools"@, JsonV::Arr(chat_tools(tools)))]
        } else {
            Seq::empty()
        }),
    )
}

/// Append one message's chat-dialect entries.
fn push_chat_entries(out: &mut Vec<Json>, m: &Message)
    ensures
        jsons_view(final(out)@) == jsons_view(old(out)@) + chat_entries_of(m@),
{
    let ghost base = jsons_view(old(out)@);
    match m.role {
        Role::User => {
            let mut parts: Vec<Json> = Vec::new();
            let mut i: usize = 0;
            proof {
                assert(m@.content.subrange(0, 0).len() == 0);
                assert(jsons_view(out@) =~= base + chat_results(m@.content.subrange(0, 0)));
                assert(jsons_view(parts@) =~= chat_parts(m@.content.subrange(0, 0)));
            }
            while i < m.content.len()
                invariant
                    i <= m.content@.len(),
                    jsons_view(out@) == base + chat_results(m@.content.subrange(0, i as int)),
                    jsons_view(parts@) == chat_parts(m@.content.subrange(0, i as int)),
                decreases m.content@.len() - i,
            {
                let ghost pfx = m@.content.subrange(0, i as int);
                let ghost pfx2 = m@.content.subrange(0, i + 1);
                proof {
                    assert(pfx2.drop_last() =~= pfx);
                    assert(pfx2.last() == m@.content[i as int]);
                }
                match &m.content[i] {
                    ContentBlock::ToolResult { tool_use_id, content, .. } => {
                        let mut entries: Vec<(String, Json)> = Vec::new();
                        entries.push(
                            (String::from_str("role"), Json::Str(String::from_str("tool"))),
                        );
                        entries.push(
                            (String::from_str("tool_call_id"), Json::Str(tool_use_id.clone())),
                        );
                        entries.push((String::from_str("content"), Json::Str(content.clone())));
                        let j = Json::Obj(entries);
                        proof {
                            lemma_view_obj(j->Obj_0);
                            assert(j@->Obj_0 =~= chat_result_json(
                                tool_use_id@,
                                content@,
                            )->Obj_0);
                            assert(j@ == chat_result_json(tool_use_id@, content@));
                        }
                        let ghost pre = out@;
                        let ghost jg = j;
                        out.push(j);
                        proof {
                            let jv = chat_result_json(tool_use_id@, content@);
                            assert(chat_results(pfx2) == chat_results(pfx).push(jv));
                            lemma_jsons_view_push(pre, jg);
                            assert(base + chat_results(pfx2) =~= (base + chat_results(
                                pfx,
                            )).push(jv));
                            assert(jsons_view(out@) == base + chat_results(pfx2));
                            assert(jsons_view(parts@) =~= chat_parts(pfx2));
                        }
                    },
                    ContentBlock::Text { text } => {
                        let mut entries: Vec<(String, Json)> = Vec::new();
                        entries.push(
                            (String::from_str("type"), Json::Str(String::from_str("text"))),
                        );
                        entries.push((String::from_str("text"), Json::Str(text.clone())));
                        let j = Json::Obj(entries);
                        proof {
                            lemma_view_obj(j->Obj_0);
                            assert(j@->Obj_0 =~= chat_text_part(text@)->Obj_0);
                            assert(j@ == chat_text_part(text@));
                        }
                        parts.push(j);
                        proof {
                            assert(jsons_view(out@) =~= base + chat_results(pfx2));
                            assert(jsons_view(parts@) =~= chat_parts(pfx2));
                        }
                    },
                    ContentBlock::Image { source } => {
                        let mut u = String::from_str("data:");
                        u.append(source.media_type.as_str());
                        u.append(";base64,");
                        u.append(source.data.as_str());
                        let mut inner: Vec<(String, Json)> = Vec::new();
                        inner.push((String::from_str("url"), Json::Str(u)));
                        let iobj = Json::Obj(inner);
                        proof {
                            lemma_view_obj(iobj->Obj_0);
                        }
                        let mut entries: Vec<(String, Json)> = Vec::new();
                        entries.push(
                            (
                                String::from_str("type"),
                                Json::Str(String::from_str("image_url")),
                            ),
                        );
                        entries.push((String::from_str("image_url"), iobj));
                        let j = Json::Obj(entries);
                        proof {
                            lemma_view_obj(j->Obj_0);
                            assert(chat_image_part(
                                source.media_type@,
                                source.data@,
                            )->Obj_0[1].1->Obj_0 =~= j@->Obj_0[1].1->Obj_0);
                            assert(j@->Obj_0 =~= chat_image_part(
                                source.media_type@,
                                source.data@,
                            )->Obj_0);
                            assert(j@ == chat_image_part(source.media_type@, source.data@));
                        }
                        parts.push(j);
                        proof {
                            assert(jsons_view(out@) =~= base + chat_results(pfx2));
                            assert(jsons_view(parts@) =~= chat_parts(pfx2));
                        }
                    },
                    ContentBlock::ToolUse { .. } => {
                        proof {
                            assert(jsons_view(out@) =~= base + chat_results(pfx2));
                            assert(jsons_view(parts@) =~= chat_parts(pfx2));
                        }
                    },
                }
                i += 1;
            }
            proof {
                assert(m@.content.subrange(0, m.content@.len() as int) =~= m@.content);
            }
            if parts.len() > 0 {
                let arr = Json::Arr(parts);
                proof {
                    lemma_view_arr(arr->Arr_0);
                    assert(arr@->Arr_0 =~= chat_parts(m@.content));
                }
                let mut entries: Vec<(String, Json)> = Vec::new();
                entries.push((String::from_str("role"), Json::Str(String::from_str("user"))));
                entries.push((String::from_str("content"), arr));
                let j = Json::Obj(entries);
                proof {
                    lemma_view_obj(j->Obj_0);
                    assert(j@->Obj_0 =~= seq![
                        ("role"@, JsonV::Str("user"@)),
                        ("content"@, JsonV::Arr(chat_parts(m@.content))),
                    ]);
                    assert(j@ == JsonV::Obj(
                        seq![
                            ("role"@, JsonV::Str("user"@)),
                            ("content"@, JsonV::Arr(chat_parts(m@.content))),
                        ],
                    ));
                }
                let ghost pre = out@;
                let ghost jg = j;
                out.push(j);
                proof {
                    let uobj = JsonV::Obj(
                        seq![
                            ("role"@, JsonV::Str("user"@)),
                            ("content"@, JsonV::Arr(chat_parts(m@.content))),
                        ],
                    );
                    assert(chat_parts(m@.content).len() > 0);
                    assert(chat_entries_of(m@) == chat_results(m@.content) + seq![uobj]);
                    lemma_jsons_view_push(pre, jg);
                    assert(base + chat_entries_of(m@) =~= (base + chat_results(
                        m@.content,
                    )).push(uobj));
                    assert(jsons_view(out@) == base + chat_entries_of(m@));
                }
            } else {
                proof {
                    assert(jsons_view(out@) =~= base + chat_entries_of(m@));
                }
            }
        },
        Role::Assistant => {
            let mut joined = String::new();
            let mut any_text = false;
            let mut calls: Vec<Json> = Vec::new();
            let mut i: usize = 0;
            proof {
                assert(m@.content.subrange(0, 0).len() == 0);
                assert(texts_of(m@.content.subrange(0, 0)).len() == 0);
                assert(jsons_view(calls@) =~= calls_of(m@.content.subrange(0, 0)));
            }
            while i < m.content.len()
                invariant
                    i <= m.content@.len(),
                    any_text == (texts_of(m@.content.subrange(0, i as int)).len() > 0),
                    joined@ == join_nl(texts_of(m@.content.subrange(0, i as int))),
                    jsons_view(calls@) == calls_of(m@.content.subrange(0, i as int)),
                decreases m.content@.len() - i,
            {
                let ghost pfx = m@.content.subrange(0, i as int);
                let ghost pfx2 = m@.content.subrange(0, i + 1);
                proof {
                    assert(pfx2.drop_last() =~= pfx);
                    assert(pfx2.last() == m@.content[i as int]);
                }
                match &m.content[i] {
                    ContentBlock::Text { text } => {
                        if any_text {
                            joined.append("\n");
                        }
                        joined.append(text.as_str());
                        any_text = true;
                        proof {
                            assert(texts_of(pfx2) =~= texts_of(pfx).push(text@));
                            if texts_of(pfx).len() == 0 {
                                assert(join_nl(texts_of(pfx2)) == text@);
                                assert(joined@ =~= text@);
                            } else {
                                assert(texts_of(pfx2).drop_last() =~= texts_of(pfx));
                            }
                            assert(jsons_view(calls@) =~= calls_of(pfx2));
                        }
                    },
                    ContentBlock::ToolUse { id, name, input } => {
                        let args = input.to_text();
                        let mut fentries: Vec<(String, Json)> = Vec::new();
                        fentries.push((String::from_str("name"), Json::Str(name.clone())));
                        fentries.push((String::from_str("arguments"), Json::Str(args)));
                        let fobj = Json::Obj(fentries);
                        proof {
                            lemma_view_obj(fobj->Obj_0);
                        }
                        let mut entries: Vec<(String, Json)> = Vec::new();
                        entries.push((String::from_str("id"), Json::Str(id.clone())));
                        entries.push(
                            (String::from_str("type"), Json::Str(String::from_str("function"))),
                        );
                        entries.push((String::from_str("function"), fobj));
                        let j = Json::Obj(entries);
                        proof {
                            lemma_view_obj(j->Obj_0);
                            assert(chat_call_json(id@, name@, input@)->Obj_0[2].1->Obj_0
                                =~= j@->Obj_0[2].1->Obj_0);
                            assert(j@->Obj_0 =~= chat_call_json(id@, name@, input@)->Obj_0);
                            assert(j@ == chat_call_json(id@, name@, input@));
                        }
                        calls.push(j);
                        proof {
                            assert(texts_of(pfx2) =~= texts_of(pfx));
                            assert(jsons_view(calls@) =~= calls_of(pfx2));
                        }
                    },
                    _ => {
                        proof {
                            assert(texts_of(pfx2) =~= texts_of(pfx));
                            assert(jsons_view(calls@) =~= calls_of(pfx2));
                        }
                    },
                }
                i += 1;
            }
            proof {
                assert(m@.content.subrange(0, m.content@.len() as int) =~= m@.content);
            }
            let mut entries: Vec<(String, Json)> = Vec::new();
            entries.push((String::from_str("role"), Json::Str(String::from_str("assistant"))));
            entries.push((String::from_str("content"), Json::Str(joined)));
            let has_calls = calls.len() > 0;
            if has_calls {
                let arr = Json::Arr(calls);
                proof {
                    lemma_view_arr(arr->Arr_0);
                    assert(arr@->Arr_0 =~= calls_of(m@.content));
                }
                entries.push((String::from_str("tool_calls"), arr));
            }
            let j = Json::Obj(entries);
            proof {
                lemma_view_obj(j->Obj_0);
                assert(j@->Obj_0 =~= chat_assistant_entry(m@.content)->Obj_0);
                assert(j@ == chat_assistant_entry(m@.content));
            }
            let ghost pre = out@;
            let ghost jg = j;
            out.push(j);
            proof {
                lemma_jsons_view_push(pre, jg);
                assert(base + chat_entries_of(m@) =~= base.push(chat_assistant_entry(
                    m@.content,
                )));
                assert(jsons_view(out@) == base + chat_entries_of(m@));
            }
        },
    }
}

/// Build the chat-dialect message array.
pub fn build_chat_messages(system: &str, messages: &Vec<Message>) -> (r: Vec<Json>)
    ensures
        jsons_view(r@) == chat_messages(system@, msgs_view(messages@)),
{
    let mut out: Vec<Json> = Vec::new();
    let mut entries: Vec<(String, Json)> = Vec::new();
    entries.push((String::from_str("role"), Json::Str(String::from_str("system"))));
    entries.push((String::from_str("content"), Json::Str(String::from_str(system))));
    let sysj = Json::Obj(entries);
    proof {
        lemma_view_obj(sysj->Obj_0);
        assert(sysj@->Obj_0 =~= seq![
            ("role"@, JsonV::Str("system"@)),
            ("content"@, JsonV::Str(system@)),
        ]);
        assert(sysj@ == JsonV::Obj(
            seq![("role"@, JsonV::Str("system"@)), ("content"@, JsonV::Str(system@))],
        ));
    }
    let ghost sysjg = sysj;
    out.push(sysj);
    let ghost sysv = jsons_view(out@);
    proof {
        assert(msgs_view(messages@).subrange(0, 0).len() == 0);
        assert(jsons_view(out@) =~= sysv + chat_flat(msgs_view(messages@).subrange(0, 0)));
    }
    let mut i: usize = 0;
    while i < messages.len()
        invariant
            i <= messages@.len(),
            sysv.len() == 1,
            sysv == jsons_view(out@).subrange(0, 1) || jsons_view(out@).len() >= 1,
            jsons_view(out@) == sysv + chat_flat(msgs_view(messages@).subrange(0, i as int)),
        decreases messages@.len() - i,
    {
        let ghost pfx = msgs_view(messages@).subrange(0, i as int);
        let ghost pfx2 = msgs_view(messages@).subrange(0, i + 1);
        proof {
            assert(pfx2.drop_last() =~= pfx);
            assert(pfx2.last() == msgs_view(messages@)[i as int]);
        }
        push_chat_entries(&mut out, &messages[i]);
        proof {
            assert(jsons_view(out@) =~= sysv + chat_flat(pfx2));
        }
        i += 1;
    }
    proof {
        assert(msgs_view(messages@).subrange(0, messages@.len() as int) =~= msgs_view(
            messages@,
        ));
        assert(jsons_view(out@) =~= chat_messages(system@, msgs_view(messages@)));
    }
    out
}

/// Build the chat-dialect tool list.
pub fn build_chat_tools(tools: &Vec<ToolDefinition>) -> (r: Vec<Json>)
    ensures
        jsons_view(r@) == chat_tools(tools_view(tools@)),
{
    let mut out: Vec<Json> = Vec::new();
    let mut i: usize = 0;
    proof {
        assert(tools_view(tools@).subrange(0, 0).len() == 0);
        assert(jsons_view(out@) =~= chat_tools(tools_view(tools@).subrange(0, 0)));
    }
    while i < tools.len()
        invariant
            i <= tools@.len(),
            jsons_view(out@) == chat_tools(tools_view(tools@).subrange(0, i as int)),
        decreases tools@.len() - i,
    {
        let ghost pfx = tools_view(tools@).subrange(0, i as int);
        let ghost pfx2 = tools_view(tools@).subrange(0, i + 1);
        proof {
            assert(pfx2.drop_last() =~= pfx);
            assert(pfx2.last() == tools_view(tools@)[i as int]);
        }
        let t = &tools[i];
        let has_schema = match &t.input_schema {
            Some(_) => true,
            None => false,
        };
        if has_schema {
            let params = match &t.input_schema {
                Some(sch) => sch.duplicate(),
                None => Json::Obj(Vec::new()),
            };
            let desc = match &t.description {
                Some(d) => d.clone(),
                None => String::new(),
            };
            let mut fentries: Vec<(String, Json)> = Vec::new();
            fentries.push((String::from_str("name"), Json::Str(t.name.clone())));
            fentries.push((String::from_str("description"), Json::Str(desc)));
            fentries.push((String::from_str("parameters"), params));
            let fobj = Json::Obj(fentries);
            proof {
                lemma_view_obj(fobj->Obj_0);
            }
            let mut entries: Vec<(String, Json)> = Vec::new();
            entries.push((String::from_str("type"), Json::Str(String::from_str("function"))));
            entries.push((String::from_str("function"), fobj));
            let j = Json::Obj(entries);
            proof {
                lemma_view_obj(j->Obj_0);
                assert(chat_tool_json(tools_view(tools@)[i as int])->Obj_0[1].1->Obj_0
                    =~= j@->Obj_0[1].1->Obj_0);
                assert(j@->Obj_0 =~= chat_tool_json(tools_view(tools@)[i as int])->Obj_0);
                assert(j@ == chat_tool_json(tools_view(tools@)[i as int]));
            }
            let ghost pre = out@;
            let ghost jg = j;
            out.push(j);
            proof {
                lemma_jsons_view_push(pre, jg);
                assert(chat_tools(pfx2) == chat_tools(pfx).push(chat_tool_json(
                    tools_view(tools@)[i as int],
                )));
                assert(jsons_view(out@) == chat_tools(pfx2));
            }
        } else {
            proof {
                assert(jsons_view(out@) =~= chat_tools(pfx2));
            }
        }
        i += 1;
    }
    proof {
        assert(tools_view(tools@).subrange(0, tools@.len() as int) =~= tools_view(tools@));
    }
    out
}

/// Build the full chat-dialect request body.
pub fn build_chat_request(
    model: &str,
    system: &str,
    messages: &Vec<Message>,
    tools: &Vec<ToolDefinition>,
) -> (r: Json)
    ensures
        r@ == chat_request(model@, system@, msgs_view(messages@), tools_view(tools@)),
{
    let msgs = build_chat_messages(system, messages);
    let tls = build_chat_tools(tools);
    let marr = Json::Arr(msgs);
    proof {
        lemma_view_arr(marr->Arr_0);
        assert(marr@->Arr_0 =~= chat_messages(system@, msgs_view(messages@)));
    }
    let mut entries: Vec<(String, Json)> = Vec::new();
    entries.push((String::from_str("model"), Json::Str(String::from_str(model))));
    entries.push((String::from_str("max_completion_tokens"), Json::Int(4096)));
    entries.push((String::from_str("messages"), marr));
    if tls.len() > 0 {
        let tarr = Json::Arr(tls);
        proof {
            lemma_view_arr(tarr->Arr_0);
            assert(tarr@->Arr_0 =~= chat_tools(tools_view(tools@)));
        }
        entries.push((String::from_str("tools"), tarr));
    }
    let r = Json::Obj(entries);
    proof {
        lemma_view_obj(r->Obj_0);
        assert(r@->Obj_0 =~= chat_request(
            model@,
            system@,
            msgs_view(messages@),
            tools_view(tools@),
        )->Obj_0);
    }
    r
}

/// Build the full configurable-endpoint request body.
pub fn build_local_request(
    model: &str,
    system: &str,
    messages: &Vec<Message>,
    tools: &Vec<ToolDefinition>,
) -> (r: Json)
    ensures
        r@ == local_request(model@, system@, msgs_view(messages@), tools_view(tools@)),
{
    let msgs = build_chat_messages(system, messages);
    let tls = build_chat_tools(tools);
    let marr = Json::Arr(msgs);
    proof {
        lemma_view_arr(marr->Arr_0);
        assert(marr@->Arr_0 =~= chat_messages(system@, msgs_view(messages@)));
    }
    let mut entries: Vec<(String, Json)> = Vec::new();
    entries.push((String::from_str("model"), Json::Str(String::from_str(model))));
    entries.push((String::from_str("messages"), marr));
    entries.push((String::from_str("stream"), Json::Bool(false)));
    if tls.len() > 0 {
        let tarr = Json::Arr(tls);
        proof {
            lemma_view_arr(tarr->Arr_0);
            assert(tarr@->Arr_0 =~= chat_tools(tools_view(tools@)));
        }
        entries.push((String::from_str("tools"), tarr));
    }
    let r = Json::Obj(entries);
    proof {
        lemma_view_obj(r->Obj_0);
        assert(r@->Obj_0 =~= local_request(
            model@,
            system@,
            msgs_view(messages@),
            tools_view(tools@),
        )->Obj_0);
    }
    r
}


/// Relies on `uuid::Uuid::new_v4` and its `Display` impl: a fresh random
/// UUID rendered in the 36-character hyphenated form. Nothing more is
/// assumed of the value: it depends on randomness.
#[verifier::external_body]
fn fresh_uuid_string() -> (r: String)
    ensures
        r@.len() == 36,
{
    uuid::Uuid::new_v4().to_string()
}

/// A fresh tool-call id: the fixed prefix in front of a fresh UUID.
fn fresh_tool_id() -> (r: String)
    ensures
        r@.len() == 41,
        r@.subrange(0, 5) == "tool_"@,
{
    let mut s = String::from_str("tool_");
    s.append(fresh_uuid_string().as_str());
    proof {
        reveal_strlit("tool_");
        assert("tool_"@.len() == 5);
        assert(s@.subrange(0, 5) =~= "tool_"@);
    }
    s
}

/// The finish reason of a chat-dialect response, defaulting to `stop`.
pub open spec fn chat_finish(v: JsonV) -> Seq<char> {
    match spec_get(v, "choices"@) {
        Some(JsonV::Arr(cs)) => if cs.len() > 0 {
            match spec_get_str(cs[0], "finish_reason"@) {
                Some(f) => f,
                None => "stop"@,
            }
        } else {
            "stop"@
        },
        _ => "stop"@,
    }
}

/// The message object of the first choice, when the response has one.
pub open spec fn chat_msg_of(v: JsonV) -> Option<JsonV> {
    match spec_get(v, "choices"@) {
        Some(JsonV::Arr(cs)) => if cs.len() > 0 {
            spec_get(cs[0], "message"@)
        } else {
            None
        },
        _ => None,
    }
}

/// The non-empty prose of a chat-dialect message, when it is a plain string.
pub open spec fn chat_text_of(m: Option<JsonV>) -> Option<Seq<char>> {
    match m {
        Some(msg) => match spec_get_str(msg, "content"@) {
            Some(s) => if s.len() > 0 {
                Some(s)
            } else {
                None
            },
            None => None,
        },
        None => None,
    }
}

/// The tool-call array of a chat-dialect message, or nothing.
pub open spec fn chat_calls_arr(m: Option<JsonV>) -> Seq<JsonV> {
    match m {
        Some(msg) => match spec_get(msg, "tool_calls"@) {
            Some(JsonV::Arr(tc)) => tc,
            _ => Seq::empty(),
        },
        None => Seq::empty(),
    }
}

/// The declared id of a tool call, possibly empty.
pub open spec fn call_id_of(c: JsonV) -> Seq<char> {
    match spec_get_str(c, "id"@) {
        Some(s) => s,
        None => Seq::empty(),
    }
}

/// The function name of a tool call, possibly empty.
pub open spec fn call_name_of(c: JsonV) -> Seq<char> {
    match spec_get(c, "function"@) {
        Some(f) => match spec_get_str(f, "name"@) {
            Some(s) => s,
            None => Seq::empty(),
        },
        None => Seq::empty(),
    }
}

/// Read the id and name of one chat-dialect tool call, and decode its
/// arguments: JSON text is parsed, an object is taken as is, anything else
/// becomes an empty object. A blank id is replaced with a fresh one when
/// `fill_ids` is set.
fn read_call(c: &Json, fill_ids: bool) -> (r: ContentBlock)
    ensures
        r@ is ToolUse,
        r@->ToolUse_name == call_name_of(c@),
        r@->ToolUse_id == call_id_of(c@) || (fill_ids && call_id_of(c@).len() == 0
            && r@->ToolUse_id.len() == 41 && r@->ToolUse_id.subrange(0, 5) == "tool_"@),
        fill_ids ==> r@->ToolUse_id.len() > 0,
{
    let raw_id: String = match c.get_str("id") {
        Some(s) => s.clone(),
        None => String::new(),
    };
    let id: String = if fill_ids && raw_id.unicode_len() == 0 {
        fresh_tool_id()
    } else {
        raw_id
    };
    let name: String = match c.get("function") {
        Some(f) => match f.get_str("name") {
            Some(s) => s.clone(),
            None => String::new(),
        },
        None => String::new(),
    };
    let args = match c.get("function") {
        Some(f) => match f.get_str("arguments") {
            Some(a) => match crate::jsonparse::parse_json(a.as_str()) {
                Some(j) => j,
                None => Json::Obj(Vec::new()),
            },
            None => match f.get("arguments") {
                Some(j) => match j.as_arr() {
                    Some(_) => Json::Obj(Vec::new()),
                    None => match j {
                        Json::Obj(_) => j.duplicate(),
                        _ => Json::Obj(Vec::new()),
                    },
                },
                None => Json::Obj(Vec::new()),
            },
        },
        None => Json::Obj(Vec::new()),
    };
    ContentBlock::ToolUse { id, name, input: args }
}

/// Read a chat-dialect response: the first choice\'s prose (when non-empty)
/// followed by its tool calls, and a stop reason that is `ToolUse` exactly
/// when the provider finished for tool calls.
pub fn parse_chat_response(v: &Json) -> (resp: AiResponse)
    ensures
        resp@.stop_reason == (if chat_finish(v@) == "tool_calls"@ {
            StopReason::ToolUse
        } else {
            StopReason::EndTurn
        }),
        resp@.content.len() == (if chat_text_of(chat_msg_of(v@)) is Some {
            1int
        } else {
            0int
        }) + chat_calls_arr(chat_msg_of(v@)).len(),
        chat_text_of(chat_msg_of(v@)) matches Some(t) ==> resp@.content.len() >= 1
            && resp@.content[0] == (BlockV::Text { text: t }),
        forall|k: int| 0 <= k < chat_calls_arr(chat_msg_of(v@)).len()
            ==> (#[trigger] resp@.content[k + resp@.content.len() - chat_calls_arr(
            chat_msg_of(v@),
        ).len()] matches BlockV::ToolUse { id, name, .. } && name == call_name_of(
            chat_calls_arr(chat_msg_of(v@))[k],
        ) && id == call_id_of(chat_calls_arr(chat_msg_of(v@))[k])),
{
    parse_chat_common(v, false)
}

/// Read a configurable-endpoint response: as the chat dialect, but prose may
/// also arrive as an array of text parts, blank tool-call ids are replaced
/// with fresh ones, and a response carrying tool calls counts as `ToolUse`
/// even without the finish reason saying so.
pub fn parse_local_response(v: &Json) -> (resp: AiResponse)
    ensures
        resp@.stop_reason == (if chat_finish(v@) == "tool_calls"@ || chat_calls_arr(
            chat_msg_of(v@),
        ).len() > 0 {
            StopReason::ToolUse
        } else {
            StopReason::EndTurn
        }),
        resp@.content.len() <= 1 + chat_calls_arr(chat_msg_of(v@)).len(),
        chat_text_of(chat_msg_of(v@)) matches Some(t) ==> resp@.content.len() >= 1
            && resp@.content[0] == (BlockV::Text { text: t }),
        forall|k: int| 0 <= k < resp@.content.len() ==> (#[trigger] resp@.content[k] is Text
            || (resp@.content[k] matches BlockV::ToolUse { id, .. } && (id.len() > 0))),
{
    parse_chat_common(v, true)
}

/// The shared reader of both chat dialects.
fn parse_chat_common(v: &Json, local: bool) -> (resp: AiResponse)
    ensures
        resp@.stop_reason == (if chat_finish(v@) == "tool_calls"@ || (local && chat_calls_arr(
            chat_msg_of(v@),
        ).len() > 0) {
            StopReason::ToolUse
        } else {
            StopReason::EndTurn
        }),
        !local ==> resp@.content.len() == (if chat_text_of(chat_msg_of(v@)) is Some {
            1int
        } else {
            0int
        }) + chat_calls_arr(chat_msg_of(v@)).len(),
        local ==> resp@.content.len() <= 1 + chat_calls_arr(chat_msg_of(v@)).len(),
        chat_text_of(chat_msg_of(v@)) matches Some(t) ==> resp@.content.len() >= 1
            && resp@.content[0] == (BlockV::Text { text: t }),
        forall|k: int| 0 <= k < chat_calls_arr(chat_msg_of(v@)).len()
            ==> (#[trigger] resp@.content[k + resp@.content.len() - chat_calls_arr(
            chat_msg_of(v@),
        ).len()] matches BlockV::ToolUse { id, name, .. } && name == call_name_of(
            chat_calls_arr(chat_msg_of(v@))[k],
        ) && (id == call_id_of(chat_calls_arr(chat_msg_of(v@))[k]) || (local && call_id_of(
            chat_calls_arr(chat_msg_of(v@))[k],
        ).len() == 0 && id.len() == 41 && id.subrange(0, 5) == "tool_"@))),
        local ==> forall|k: int| 0 <= k < resp@.content.len()
            ==> (#[trigger] resp@.content[k] is Text || (resp@.content[k]
            matches BlockV::ToolUse { id, .. } && id.len() > 0)),
{
    let message: Option<&Json> = match v.get("choices") {
        Some(c) => match c.as_arr() {
            Some(cs) => if cs.len() > 0 {
                cs[0].get("message")
            } else {
                None
            },
            None => None,
        },
        None => None,
    };
    let finish: String = match v.get("choices") {
        Some(c) => match c.as_arr() {
            Some(cs) => if cs.len() > 0 {
                match cs[0].get_str("finish_reason") {
                    Some(f) => f.clone(),
                    None => String::from_str("stop"),
                }
            } else {
                String::from_str("stop")
            },
            None => String::from_str("stop"),
        },
        None => String::from_str("stop"),
    };
    let mut content: Vec<ContentBlock> = Vec::new();
    let mut has_text = false;
    match message {
        Some(msg) => match msg.get_str("content") {
            Some(s) => if s.unicode_len() > 0 {
                proof {
                    assert(chat_msg_of(v@) == Some(msg@));
                    assert(chat_text_of(chat_msg_of(v@)) == Some(s@));
                }
                content.push(ContentBlock::Text { text: s.clone() });
                has_text = true;
            } else {
            },
            None => if local {
                match msg.get("content") {
                    Some(cj) => match cj.as_arr() {
                        Some(items) => {
                            let joined = join_part_texts(items);
                            if joined.unicode_len() > 0 {
                                content.push(ContentBlock::Text { text: joined });
                                has_text = true;
                            }
                        },
                        None => {},
                    },
                    None => {},
                }
            } else {
            },
        },
        None => {},
    }
    let ghost text_cnt = content@.len() as int;
    proof {
        if chat_text_of(chat_msg_of(v@)) is Some {
            assert(has_text);
        }
        if !local && has_text {
            assert(chat_text_of(chat_msg_of(v@)) is Some);
        }
    }
    match message {
        Some(msg) => match msg.get("tool_calls") {
            Some(tc) => match tc.as_arr() {
                Some(items) => {
                    let ghost tcv = Seq::new(items@.len(), |i: int| items@[i]@);
                    proof {
                        assert(tcv =~= chat_calls_arr(chat_msg_of(v@)));
                    }
                    let mut i: usize = 0;
                    while i < items.len()
                        invariant
                            tcv == Seq::new(items@.len(), |i: int| items@[i]@),
                            tcv == chat_calls_arr(chat_msg_of(v@)),
                            i <= items@.len(),
                            content@.len() == text_cnt + i,
                            text_cnt == 0 || text_cnt == 1,
                            has_text <==> text_cnt == 1,
                            has_text ==> content@.len() >= 1,
                            has_text && chat_text_of(chat_msg_of(v@)) is Some ==> content@.len()
                                >= 1 && content@[0]@ == (BlockV::Text {
                                text: chat_text_of(chat_msg_of(v@))->0,
                            }),
                            forall|k: int| 0 <= k < text_cnt ==> (
                            #[trigger] content@[k])@ is Text,
                            forall|k: int| 0 <= k < i ==> ((#[trigger] content@[
                            k + text_cnt])@ matches BlockV::ToolUse { id, name, .. } && name
                                == call_name_of(tcv[k]) && (id == call_id_of(tcv[k]) || (
                            local && call_id_of(tcv[k]).len() == 0 && id.len() == 41
                                && id.subrange(0, 5) == "tool_"@))),
                            local ==> forall|k: int| text_cnt <= k < content@.len() ==> ((
                            #[trigger] content@[k])@ matches BlockV::ToolUse { id, .. }
                                && id.len() > 0),
                        decreases items@.len() - i,
                    {
                        let b = read_call(&items[i], local);
                        content.push(b);
                        i += 1;
                    }
                },
                None => {
                    proof {
                        assert(chat_msg_of(v@) == Some(msg@));
                        assert(chat_calls_arr(chat_msg_of(v@)).len() == 0);
                    }
                },
            },
            None => {
                proof {
                    assert(chat_msg_of(v@) == Some(msg@));
                    assert(chat_calls_arr(chat_msg_of(v@)).len() == 0);
                }
            },
        },
        None => {
            proof {
                assert(chat_msg_of(v@) is None);
                assert(chat_calls_arr(chat_msg_of(v@)).len() == 0);
            }
        },
    }
    proof {
        let cc = chat_calls_arr(chat_msg_of(v@));
        assert forall|k: int| 0 <= k < cc.len() implies (#[trigger] blocks_view(content@)[k
            + blocks_view(content@).len() - cc.len()] matches BlockV::ToolUse {
            id,
            name,
            ..
        } && name == call_name_of(cc[k]) && (id == call_id_of(cc[k]) || (local && call_id_of(
            cc[k],
        ).len() == 0 && id.len() == 41 && id.subrange(0, 5) == "tool_"@))) by {
            let b = content@[k + text_cnt];
            assert(b@ == content@[k + text_cnt]@);
            assert(k + blocks_view(content@).len() - cc.len() == k + text_cnt);
            assert(blocks_view(content@)[k + text_cnt] == content@[k + text_cnt]@);
        }
    }
    let is_tool_finish = str_eq(finish.as_str(), "tool_calls");
    let any_calls = content.len() > (if has_text {
        1
    } else {
        0
    });
    let stop_reason = if is_tool_finish || (local && any_calls) {
        StopReason::ToolUse
    } else {
        StopReason::EndTurn
    };
    AiResponse { content, stop_reason }
}

/// Join the `text` fields of an array of parts with newlines.
fn join_part_texts(items: &Vec<Json>) -> (r: String)
{
    let mut joined = String::new();
    let mut any = false;
    let mut i: usize = 0;
    while i < items.len()
        invariant
            i <= items@.len(),
        decreases items@.len() - i,
    {
        match items[i].get_str("text") {
            Some(t) => {
                if any {
                    joined.append("\n");
                }
                joined.append(t.as_str());
                any = true;
            },
            None => {},
        }
        i += 1;
    }
    joined
}

} // verus!
