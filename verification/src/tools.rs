//! The tool registry: which tools each provider dialect is offered. The
//! native dialect gets provider-defined tool tags; the chat dialects get
//! explicit JSON schemas for the same tools plus an element-position lookup.

use vstd::prelude::*;

use crate::json::{lemma_view_arr, lemma_view_obj, Json, JsonV};
use crate::msg::{tools_view, ToolDefV, ToolDefinition};
use crate::text::u32_str;
use crate::wire::jsons_view;

verus! {

/// The entry shapes of an object under construction.
spec fn ents_view(s: Seq<(String, Json)>) -> Seq<(Seq<char>, JsonV)> {
    Seq::new(s.len(), |i: int| (s[i].0@, s[i].1@))
}

/// The native-dialect toolset: the three built-in tool tags, with the
/// declared display size on the computer tool.
pub open spec fn is_native_toolset(ts: Seq<ToolDefV>, w: u32, h: u32) -> bool {
    ts.len() == 3 && ts[0].name == "computer"@ && ts[0].tool_type == Some(
        "computer_20250124"@,
    ) && ts[0].description is None && ts[0].input_schema is None && ts[0].display_width_px
        == Some(w) && ts[0].display_height_px == Some(h) && ts[0].display_number == Some(1u32)
        && ts[1].name == "bash"@ && ts[1].tool_type == Some("bash_20250124"@) && ts[1].description is None
        && ts[1].input_schema is None && ts[1].display_width_px is None
        && ts[1].display_height_px is None && ts[1].display_number is None && ts[2].name
        == "text_editor"@ && ts[2].tool_type == Some("text_editor_20250124"@)
        && ts[2].description is None && ts[2].input_schema is None
        && ts[2].display_width_px is None && ts[2].display_height_px is None
        && ts[2].display_number is None
}

/// The `computer` tool's schema: an object whose `action` property carries
/// the enumeration of the eleven actions, with eight further optional
/// fields, and `action` alone required.
pub open spec fn computer_schema_shape(sch: JsonV) -> bool {
    sch matches JsonV::Obj(top) && top.len() == 3 && top[0] == (
        "type"@,
        JsonV::Str("object"@),
    ) && top[1].0 == "properties"@ && (top[1].1 matches JsonV::Obj(props) && props.len() == 9
        && props[0].0 == "action"@ && (props[0].1 matches JsonV::Obj(act) && act.len() == 2
        && act[0] == ("type"@, JsonV::Str("string"@)) && act[1] == (
        "enum"@,
        JsonV::Arr(
            seq![
                JsonV::Str("screenshot"@),
                JsonV::Str("click_element"@),
                JsonV::Str("mouse_move"@),
                JsonV::Str("left_click"@),
                JsonV::Str("right_click"@),
                JsonV::Str("double_click"@),
                JsonV::Str("type"@),
                JsonV::Str("key"@),
                JsonV::Str("scroll"@),
                JsonV::Str("wait"@),
                JsonV::Str("drag"@),
            ],
        ),
    ))) && top[2] == ("required"@, JsonV::Arr(seq![JsonV::Str("action"@)]))
}

/// The chat-dialect toolset: four described tools, every one carrying a JSON
/// schema and no provider tag.
pub open spec fn is_chat_toolset(ts: Seq<ToolDefV>) -> bool {
    ts.len() == 4 && ts[0].name == "computer"@ && ts[1].name == "get_element_position"@
        && ts[2].name == "bash"@ && ts[3].name == "text_editor"@ && (
    ts[0].input_schema matches Some(sch) && computer_schema_shape(sch)) && forall|i: int|
        0 <= i < 4 ==> ((#[trigger] ts[i]).tool_type is None && ts[i].description is Some
            && ts[i].input_schema is Some && ts[i].display_width_px is None
            && ts[i].display_height_px is None && ts[i].display_number is None)
}

/// Build the native-dialect toolset.
pub fn build_anthropic_tools(display_width: u32, display_height: u32) -> (r: Vec<
    ToolDefinition,
>)
    ensures
        is_native_toolset(tools_view(r@), display_width, display_height),
{
    let mut tools: Vec<ToolDefinition> = Vec::new();
    tools.push(
        ToolDefinition {
            name: String::from_str("computer"),
            tool_type: Some(String::from_str("computer_20250124")),
            description: None,
            input_schema: None,
            display_width_px: Some(display_width),
            display_height_px: Some(display_height),
            display_number: Some(1),
        },
    );
    tools.push(
        ToolDefinition {
            name: String::from_str("bash"),
            tool_type: Some(String::from_str("bash_20250124")),
            description: None,
            input_schema: None,
            display_width_px: None,
            display_height_px: None,
            display_number: None,
        },
    );
    tools.push(
        ToolDefinition {
            name: String::from_str("text_editor"),
            tool_type: Some(String::from_str("text_editor_20250124")),
            description: None,
            input_schema: None,
            display_width_px: None,
            display_height_px: None,
            display_number: None,
        },
    );
    tools
}

/// A schema property: a name, a type tag, and a description.
fn prop(name: &str, ty: &str, desc: &str) -> ((String, Json))
{
    let mut entries: Vec<(String, Json)> = Vec::new();
    entries.push((String::from_str("type"), Json::Str(String::from_str(ty))));
    entries.push((String::from_str("description"), Json::Str(String::from_str(desc))));
    (String::from_str(name), Json::Obj(entries))
}

/// A schema property holding an integer array.
fn int_array_prop(name: &str, desc: String) -> ((String, Json))
{
    let mut item_ty: Vec<(String, Json)> = Vec::new();
    item_ty.push((String::from_str("type"), Json::Str(String::from_str("integer"))));
    let mut entries: Vec<(String, Json)> = Vec::new();
    entries.push((String::from_str("type"), Json::Str(String::from_str("array"))));
    entries.push((String::from_str("items"), Json::Obj(item_ty)));
    entries.push((String::from_str("description"), Json::Str(desc)));
    (String::from_str(name), Json::Obj(entries))
}

/// An object schema from its properties and required field names.
fn schema(properties: Vec<(String, Json)>, required: Vec<Json>) -> (r: Json)
    ensures
        r@ == JsonV::Obj(
            seq![
                ("type"@, JsonV::Str("object"@)),
                ("properties"@, JsonV::Obj(ents_view(properties@))),
                ("required"@, JsonV::Arr(jsons_view(required@))),
            ],
        ),
{
    let props = Json::Obj(properties);
    let req = Json::Arr(required);
    proof {
        lemma_view_obj(props->Obj_0);
        assert(props@->Obj_0 =~= ents_view(props->Obj_0@));
        lemma_view_arr(req->Arr_0);
        assert(req@->Arr_0 =~= jsons_view(req->Arr_0@));
    }
    let mut entries: Vec<(String, Json)> = Vec::new();
    entries.push((String::from_str("type"), Json::Str(String::from_str("object"))));
    entries.push((String::from_str("properties"), props));
    entries.push((String::from_str("required"), req));
    let r = Json::Obj(entries);
    proof {
        lemma_view_obj(r->Obj_0);
        assert(r@->Obj_0 =~= seq![
            ("type"@, JsonV::Str("object"@)),
            ("properties"@, JsonV::Obj(ents_view(entries@[1].1->Obj_0@))),
            ("required"@, JsonV::Arr(jsons_view(entries@[2].1->Arr_0@))),
        ]);
    }
    r
}

/// A `string` entry with an `enum` of allowed values.
fn enum_prop(name: &str, values: Vec<Json>, desc: &str) -> (r: (String, Json))
    ensures
        r.0@ == name@,
        desc@.len() == 0 ==> r.1@ == JsonV::Obj(
            seq![
                ("type"@, JsonV::Str("string"@)),
                ("enum"@, JsonV::Arr(jsons_view(values@))),
            ],
        ),
{
    let vals = Json::Arr(values);
    proof {
        lemma_view_arr(vals->Arr_0);
        assert(vals@->Arr_0 =~= jsons_view(vals->Arr_0@));
    }
    let mut entries: Vec<(String, Json)> = Vec::new();
    entries.push((String::from_str("type"), Json::Str(String::from_str("string"))));
    entries.push((String::from_str("enum"), vals));
    if desc.unicode_len() > 0 {
        entries.push((String::from_str("description"), Json::Str(String::from_str(desc))));
    }
    let obj = Json::Obj(entries);
    proof {
        lemma_view_obj(obj->Obj_0);
        if desc@.len() == 0 {
            assert(obj@->Obj_0 =~= seq![
                ("type"@, JsonV::Str("string"@)),
                ("enum"@, JsonV::Arr(jsons_view(obj->Obj_0@[1].1->Arr_0@))),
            ]);
        }
    }
    (String::from_str(name), obj)
}

/// The text placed in coordinate descriptions for the declared display.
fn screen_note(prefix: &str, display_width: u32, display_height: u32, suffix: &str) -> (r:
    String)
{
    let mut out = String::from_str(prefix);
    out.append(u32_str(display_width).as_str());
    out.append("x");
    out.append(u32_str(display_height).as_str());
    out.append(suffix);
    out
}

/// Build the chat-dialect toolset, with explicit schemas.
pub fn build_openai_tools(display_width: u32, display_height: u32) -> (r: Vec<ToolDefinition>)
    ensures
        is_chat_toolset(tools_view(r@)),
{
    let coord_desc = screen_note(
        "[x, y] pixel coordinates from top-left. Screen is ",
        display_width,
        display_height,
        " pixels. Click the center of the target element.",
    );
    let mut actions: Vec<Json> = Vec::new();
    actions.push(Json::Str(String::from_str("screenshot")));
    actions.push(Json::Str(String::from_str("click_element")));
    actions.push(Json::Str(String::from_str("mouse_move")));
    actions.push(Json::Str(String::from_str("left_click")));
    actions.push(Json::Str(String::from_str("right_click")));
    actions.push(Json::Str(String::from_str("double_click")));
    actions.push(Json::Str(String::from_str("type")));
    actions.push(Json::Str(String::from_str("key")));
    actions.push(Json::Str(String::from_str("scroll")));
    actions.push(Json::Str(String::from_str("wait")));
    actions.push(Json::Str(String::from_str("drag")));
    let mut directions: Vec<Json> = Vec::new();
    directions.push(Json::Str(String::from_str("up")));
    directions.push(Json::Str(String::from_str("down")));
    let mut computer_props: Vec<(String, Json)> = Vec::new();
    let ghost av = actions@;
    proof {
        reveal_strlit("");
        assert(""@.len() == 0);
        assert(jsons_view(av) =~= seq![
            JsonV::Str("screenshot"@),
            JsonV::Str("click_element"@),
            JsonV::Str("mouse_move"@),
            JsonV::Str("left_click"@),
            JsonV::Str("right_click"@),
            JsonV::Str("double_click"@),
            JsonV::Str("type"@),
            JsonV::Str("key"@),
            JsonV::Str("scroll"@),
            JsonV::Str("wait"@),
            JsonV::Str("drag"@),
        ]);
    }
    computer_props.push(enum_prop("action", actions, ""));
    computer_props.push(
        prop(
            "id",
            "integer",
            "Element ID to click (from the Accessibility Tree or screenshot).",
        ),
    );
    let mut coord_entries: Vec<(String, Json)> = Vec::new();
    {
        let mut item_ty: Vec<(String, Json)> = Vec::new();
        item_ty.push((String::from_str("type"), Json::Str(String::from_str("integer"))));
        coord_entries.push((String::from_str("type"), Json::Str(String::from_str("array"))));
        coord_entries.push((String::from_str("items"), Json::Obj(item_ty)));
        coord_entries.push((String::from_str("description"), Json::Str(coord_desc)));
    }
    computer_props.push((String::from_str("coordinate"), Json::Obj(coord_entries)));
    computer_props.push(
        prop(
            "text",
            "string",
            "Text to type or key combo to press (e.g. 'Return', 'ctrl+c')",
        ),
    );
    computer_props.push(
        int_array_prop(
            "start_coordinate",
            screen_note(
                "[x, y] start position for drag. Screen is ",
                display_width,
                display_height,
                " pixels.",
            ),
        ),
    );
    computer_props.push(
        int_array_prop(
            "end_coordinate",
            screen_note(
                "[x, y] end position for drag. Screen is ",
                display_width,
                display_height,
                " pixels.",
            ),
        ),
    );
    computer_props.push(enum_prop("scroll_direction", directions, "Scroll direction"));
    computer_props.push(
        prop("scroll_amount", "integer", "Number of scroll clicks (default 3)"),
    );
    computer_props.push(prop("duration", "integer", "Wait duration in milliseconds"));
    let mut computer_required: Vec<Json> = Vec::new();
    computer_required.push(Json::Str(String::from_str("action")));
    let ghost cpv = computer_props@;
    let ghost crv = computer_required@;
    let computer_schema = schema(computer_props, computer_required);
    proof {
        assert(jsons_view(crv) =~= seq![JsonV::Str("action"@)]);
        assert(ents_view(cpv)[0] == (cpv[0].0@, cpv[0].1@));
        assert(computer_schema_shape(computer_schema@));
    }

    let mut pos_props: Vec<(String, Json)> = Vec::new();
    pos_props.push(prop("id", "integer", "The element ID from the Accessibility Tree"));
    let mut pos_required: Vec<Json> = Vec::new();
    pos_required.push(Json::Str(String::from_str("id")));
    let pos_schema = schema(pos_props, pos_required);

    let mut bash_props: Vec<(String, Json)> = Vec::new();
    bash_props.push(prop("command", "string", "The shell command to execute"));
    let mut bash_required: Vec<Json> = Vec::new();
    bash_required.push(Json::Str(String::from_str("command")));
    let bash_schema = schema(bash_props, bash_required);

    let mut editor_cmds: Vec<Json> = Vec::new();
    editor_cmds.push(Json::Str(String::from_str("view")));
    editor_cmds.push(Json::Str(String::from_str("create")));
    editor_cmds.push(Json::Str(String::from_str("str_replace")));
    editor_cmds.push(Json::Str(String::from_str("insert")));
    editor_cmds.push(Json::Str(String::from_str("undo_edit")));
    let mut editor_props: Vec<(String, Json)> = Vec::new();
    editor_props.push(enum_prop("command", editor_cmds, ""));
    editor_props.push(prop("path", "string", "Absolute file path"));
    editor_props.push(prop("file_text", "string", "Content for create command"));
    editor_props.push(prop("old_str", "string", "Exact string to find and replace"));
    editor_props.push(prop("new_str", "string", "Replacement string"));
    editor_props.push(prop("insert_line", "integer", "Line number for insert"));
    editor_props.push(prop("new_str_insert", "string", "Text to insert at line"));
    editor_props.push(
        int_array_prop(
            "view_range",
            String::from_str("[start_line, end_line] range to view"),
        ),
    );
    let mut editor_required: Vec<Json> = Vec::new();
    editor_required.push(Json::Str(String::from_str("command")));
    editor_required.push(Json::Str(String::from_str("path")));
    let editor_schema = schema(editor_props, editor_required);

    let mut tools: Vec<ToolDefinition> = Vec::new();
    tools.push(
        ToolDefinition {
            name: String::from_str("computer"),
            tool_type: None,
            description: Some(
                screen_note(
                    "Control the computer. The screen is ",
                    display_width,
                    display_height,
                    " pixels. Actions: screenshot (see screen), click_element (by ID), mouse_move, left_click, right_click, double_click, type, key, scroll, wait, drag. Always take a screenshot first. Coordinates are pixel [x, y]. Click the center of UI elements.",
                ),
            ),
            input_schema: Some(computer_schema),
            display_width_px: None,
            display_height_px: None,
            display_number: None,
        },
    );
    tools.push(
        ToolDefinition {
            name: String::from_str("get_element_position"),
            tool_type: None,
            description: Some(
                String::from_str(
                    "Get the bounding box coordinates [left, top, right, bottom] and calculated center [cx, cy] of an element ID found in the Accessibility Tree.",
                ),
            ),
            input_schema: Some(pos_schema),
            display_width_px: None,
            display_height_px: None,
            display_number: None,
        },
    );
    tools.push(
        ToolDefinition {
            name: String::from_str("bash"),
            tool_type: None,
            description: Some(
                String::from_str(
                    "Execute a shell command (Windows cmd/powershell) and return stdout/stderr. Use for file operations, installations, or when CLI is faster than GUI.",
                ),
            ),
            input_schema: Some(bash_schema),
            display_width_px: None,
            display_height_px: None,
            display_number: None,
        },
    );
    tools.push(
        ToolDefinition {
            name: String::from_str("text_editor"),
            tool_type: None,
            description: Some(
                String::from_str(
                    "View or edit text files. Commands: view (read file), create (new file), str_replace (replace text).",
                ),
            ),
            input_schema: Some(editor_schema),
            display_width_px: None,
            display_height_px: None,
            display_number: None,
        },
    );
    tools
}

/// The toolset for a provider id: the chat-dialect tools for the
/// chat-completions providers, the native tags for everything else.
pub fn build_tool_definitions(provider: &str, display_width: u32, display_height: u32) -> (r:
    Vec<ToolDefinition>)
    ensures
        (provider@ == "openai"@ || provider@ == "openrouter"@) ==> is_chat_toolset(
            tools_view(r@),
        ),
        !(provider@ == "openai"@ || provider@ == "openrouter"@) ==> is_native_toolset(
            tools_view(r@),
            display_width,
            display_height,
        ),
{
    if crate::text::str_eq(provider, "openai") || crate::text::str_eq(provider, "openrouter") {
        build_openai_tools(display_width, display_height)
    } else {
        build_anthropic_tools(display_width, display_height)
    }
}

} // verus!
