//! The typed action model: every executable action, its user-facing
//! description, and the parser from a provider-agnostic `computer` tool call
//! (a JSON object) to an action, with coordinate scaling.

use vstd::prelude::*;

use crate::error::AppError;
use crate::json::{spec_get, spec_get_int, spec_get_str, Json, JsonV};
use crate::text::{dec_int, i32_str, u64_str};

verus! {

/// Every action the agent can execute.
#[derive(Debug)]
pub enum AgentAction {
    Screenshot,
    MouseMove { x: i32, y: i32 },
    LeftClick { x: i32, y: i32 },
    RightClick { x: i32, y: i32 },
    DoubleClick { x: i32, y: i32 },
    Type { text: String },
    Key { combo: String },
    Scroll { x: i32, y: i32, direction: String, amount: i32 },
    Wait { duration_ms: u64 },
    Drag { start_x: i32, start_y: i32, end_x: i32, end_y: i32 },
    BashCommand { command: String },
    TextEditorView { path: String },
    TextEditorCreate { path: String, content: String },
    TextEditorReplace { path: String, old_text: String, new_text: String },
    ClickElement { id: i32 },
}

/// The shape of an action.
#[verifier::ext_equal]
pub ghost enum ActionV {
    Screenshot,
    MouseMove { x: int, y: int },
    LeftClick { x: int, y: int },
    RightClick { x: int, y: int },
    DoubleClick { x: int, y: int },
    Type { text: Seq<char> },
    Key { combo: Seq<char> },
    Scroll { x: int, y: int, direction: Seq<char>, amount: int },
    Wait { duration_ms: int },
    Drag { start_x: int, start_y: int, end_x: int, end_y: int },
    BashCommand { command: Seq<char> },
    TextEditorView { path: Seq<char> },
    TextEditorCreate { path: Seq<char>, content: Seq<char> },
    TextEditorReplace { path: Seq<char>, old_text: Seq<char>, new_text: Seq<char> },
    ClickElement { id: int },
}

impl View for AgentAction {
    type V = ActionV;

    open spec fn view(&self) -> ActionV {
        match self {
            AgentAction::Screenshot => ActionV::Screenshot,
            AgentAction::MouseMove { x, y } => ActionV::MouseMove { x: *x as int, y: *y as int },
            AgentAction::LeftClick { x, y } => ActionV::LeftClick { x: *x as int, y: *y as int },
            AgentAction::RightClick { x, y } => ActionV::RightClick { x: *x as int, y: *y as int },
            AgentAction::DoubleClick { x, y } => ActionV::DoubleClick {
                x: *x as int,
                y: *y as int,
            },
            AgentAction::Type { text } => ActionV::Type { text: text@ },
            AgentAction::Key { combo } => ActionV::Key { combo: combo@ },
            AgentAction::Scroll { x, y, direction, amount } => ActionV::Scroll {
                x: *x as int,
                y: *y as int,
                direction: direction@,
                amount: *amount as int,
            },
            AgentAction::Wait { duration_ms } => ActionV::Wait { duration_ms: *duration_ms as int },
            AgentAction::Drag { start_x, start_y, end_x, end_y } => ActionV::Drag {
                start_x: *start_x as int,
                start_y: *start_y as int,
                end_x: *end_x as int,
                end_y: *end_y as int,
            },
            AgentAction::BashCommand { command } => ActionV::BashCommand { command: command@ },
            AgentAction::TextEditorView { path } => ActionV::TextEditorView { path: path@ },
            AgentAction::TextEditorCreate { path, content } => ActionV::TextEditorCreate {
                path: path@,
                content: content@,
            },
            AgentAction::TextEditorReplace { path, old_text, new_text } =>
                ActionV::TextEditorReplace {
                path: path@,
                old_text: old_text@,
                new_text: new_text@,
            },
            AgentAction::ClickElement { id } => ActionV::ClickElement { id: *id as int },
        }
    }
}

/// The one-line description of an action shown to the user. Long typed text
/// and long commands are previewed by their first 40 and 60 characters.
pub open spec fn action_description(a: ActionV) -> Seq<char> {
    match a {
        ActionV::Screenshot => "Taking screenshot"@,
        ActionV::MouseMove { x, y } => "Moving mouse to ("@ + dec_int(x) + ", "@ + dec_int(y)
            + ")"@,
        ActionV::LeftClick { x, y } => "Left click at ("@ + dec_int(x) + ", "@ + dec_int(y)
            + ")"@,
        ActionV::RightClick { x, y } => "Right click at ("@ + dec_int(x) + ", "@ + dec_int(y)
            + ")"@,
        ActionV::DoubleClick { x, y } => "Double click at ("@ + dec_int(x) + ", "@ + dec_int(y)
            + ")"@,
        ActionV::Type { text } => "Typing: \""@ + (if text.len() > 40 {
            text.subrange(0, 40)
        } else {
            text
        }) + "\""@,
        ActionV::Key { combo } => "Pressing: "@ + combo,
        ActionV::Scroll { direction, amount, .. } => "Scrolling "@ + direction + " "@ + dec_int(
            amount,
        ) + " clicks"@,
        ActionV::Wait { duration_ms } => "Waiting "@ + dec_int(duration_ms) + "ms"@,
        ActionV::Drag { start_x, start_y, end_x, end_y } => "Dragging ("@ + dec_int(start_x)
            + ","@ + dec_int(start_y) + ") -> ("@ + dec_int(end_x) + ","@ + dec_int(end_y)
            + ")"@,
        ActionV::BashCommand { command } => "Running: "@ + (if command.len() > 60 {
            command.subrange(0, 60)
        } else {
            command
        }),
        ActionV::TextEditorView { path } => "Viewing: "@ + path,
        ActionV::TextEditorCreate { path, .. } => "Creating: "@ + path,
        ActionV::TextEditorReplace { path, .. } => "Editing: "@ + path,
        ActionV::ClickElement { id } => "Clicking element ["@ + dec_int(id) + "]"@,
    }
}

impl AgentAction {
    /// Render the one-line description of this action.
    pub fn description(&self) -> (r: String)
        ensures
            r@ == action_description(self@),
    {
        match self {
            AgentAction::Screenshot => String::from_str("Taking screenshot"),
            AgentAction::MouseMove { x, y } => {
                let mut out = String::from_str("Moving mouse to (");
                out.append(i32_str(*x).as_str());
                out.append(", ");
                out.append(i32_str(*y).as_str());
                out.append(")");
                out
            },
            AgentAction::LeftClick { x, y } => {
                let mut out = String::from_str("Left click at (");
                out.append(i32_str(*x).as_str());
                out.append(", ");
                out.append(i32_str(*y).as_str());
                out.append(")");
                out
            },
            AgentAction::RightClick { x, y } => {
                let mut out = String::from_str("Right click at (");
                out.append(i32_str(*x).as_str());
                out.append(", ");
                out.append(i32_str(*y).as_str());
                out.append(")");
                out
            },
            AgentAction::DoubleClick { x, y } => {
                let mut out = String::from_str("Double click at (");
                out.append(i32_str(*x).as_str());
                out.append(", ");
                out.append(i32_str(*y).as_str());
                out.append(")");
                out
            },
            AgentAction::Type { text } => {
                let mut out = String::from_str("Typing: \"");
                if text.unicode_len() > 40 {
                    out.append(text.as_str().substring_char(0, 40));
                } else {
                    out.append(text.as_str());
                }
                out.append("\"");
                out
            },
            AgentAction::Key { combo } => {
                let mut out = String::from_str("Pressing: ");
                out.append(combo.as_str());
                out
            },
            AgentAction::Scroll { direction, amount, .. } => {
                let mut out = String::from_str("Scrolling ");
                out.append(direction.as_str());
                out.append(" ");
                out.append(i32_str(*amount).as_str());
                out.append(" clicks");
                out
            },
            AgentAction::Wait { duration_ms } => {
                let mut out = String::from_str("Waiting ");
                out.append(u64_str(*duration_ms).as_str());
                out.append("ms");
                out
            },
            AgentAction::Drag { start_x, start_y, end_x, end_y } => {
                let mut out = String::from_str("Dragging (");
                out.append(i32_str(*start_x).as_str());
                out.append(",");
                out.append(i32_str(*start_y).as_str());
                out.append(") -> (");
                out.append(i32_str(*end_x).as_str());
                out.append(",");
                out.append(i32_str(*end_y).as_str());
                out.append(")");
                out
            },
            AgentAction::BashCommand { command } => {
                let mut out = String::from_str("Running: ");
                if command.unicode_len() > 60 {
                    out.append(command.as_str().substring_char(0, 60));
                } else {
                    out.append(command.as_str());
                }
                out
            },
            AgentAction::TextEditorView { path } => {
                let mut out = String::from_str("Viewing: ");
                out.append(path.as_str());
                out
            },
            AgentAction::TextEditorCreate { path, .. } => {
                let mut out = String::from_str("Creating: ");
                out.append(path.as_str());
                out
            },
            AgentAction::TextEditorReplace { path, .. } => {
                let mut out = String::from_str("Editing: ");
                out.append(path.as_str());
                out
            },
            AgentAction::ClickElement { id } => {
                let mut out = String::from_str("Clicking element [");
                out.append(i32_str(*id).as_str());
                out.append("]");
                out
            },
        }
    }
}

/// What executing an action yields: a textual summary, and for screenshots
/// the encoded image and the node list marked on it.
#[derive(Debug)]
pub struct ActionResult {
    pub text: String,
    pub base64: Option<String>,
    pub nodes: Option<Vec<crate::a11y::A11yNode>>,
}

/// `n` clamped into the `i32` range.
pub open spec fn sat_i32(n: int) -> int {
    if n > i32::MAX as int {
        i32::MAX as int
    } else if n < i32::MIN as int {
        i32::MIN as int
    } else {
        n
    }
}

/// A coordinate divided by the scale factor `num / den`: the exact quotient
/// `v * den / num`, truncated toward zero, then clamped into the `i32` range.
pub open spec fn scaled_coord(v: int, num: int, den: int) -> int {
    let q = if v >= 0 {
        (v * den) / num
    } else {
        -(((-v) * den) / num)
    };
    sat_i32(q)
}

/// Clamp a JSON integer into the `i32` range.
pub fn sat64_to_i32(n: i64) -> (r: i32)
    ensures
        r as int == sat_i32(n as int),
{
    if n > i32::MAX as i64 {
        i32::MAX
    } else if n < i32::MIN as i64 {
        i32::MIN
    } else {
        n as i32
    }
}

/// Divide coordinate `v` by the scale factor `num / den`.
fn scale_coord(v: i32, num: i64, den: i64) -> (r: i32)
    requires
        1 <= num <= 1024,
        1 <= den <= 1024,
    ensures
        r as int == scaled_coord(v as int, num as int, den as int),
{
    let neg = v < 0;
    let mag: u64 = if v >= 0 {
        v as u64
    } else {
        ((-(v + 1)) as u64) + 1
    };
    proof {
        assert(mag <= 0x8000_0000u64);
        assert(mag * den <= 0x8000_0000u64 * 1024) by (nonlinear_arith)
            requires
                mag <= 0x8000_0000u64,
                1 <= den <= 1024,
        ;
    }
    let q: u64 = (mag * (den as u64)) / (num as u64);
    let qs: i32 = if q > i32::MAX as u64 {
        i32::MAX
    } else {
        q as i32
    };
    if neg {
        if q > 0x8000_0000u64 {
            proof {
                assert(-(q as int) < i32::MIN as int);
            }
            i32::MIN
        } else {
            let r: i32 = if q == 0x8000_0000u64 {
                i32::MIN
            } else {
                -(q as i32)
            };
            r
        }
    } else {
        qs
    }
}

/// The raw coordinate at position `i` of a JSON coordinate array: missing or
/// non-integer elements default to 0.
pub open spec fn spec_coord(arr: Seq<JsonV>, i: int) -> int {
    if 0 <= i < arr.len() {
        match arr[i] {
            JsonV::Int(n) => n,
            _ => 0,
        }
    } else {
        0
    }
}

/// The raw `(x, y)` pair under `key`, when `key` holds an array.
pub open spec fn spec_coords_under(input: JsonV, key: Seq<char>) -> Option<(int, int)> {
    match spec_get(input, key) {
        Some(JsonV::Arr(a)) => Some((spec_coord(a, 0), spec_coord(a, 1))),
        _ => None,
    }
}

/// What parsing a `computer` tool call must yield.
#[verifier::ext_equal]
pub ghost enum ParsedAction {
    Parsed(ActionV),
    Rejected(Seq<char>),
}

/// The action denoted by a `computer` tool call object, with coordinates
/// divided by the scale factor `num / den`; or the exact message of the
/// `Agent` error rejecting it.
pub open spec fn spec_parse_computer(input: JsonV, num: int, den: int) -> ParsedAction {
    match spec_get_str(input, "action"@) {
        None => ParsedAction::Rejected("Missing action field"@),
        Some(act) => if act == "screenshot"@ {
            ParsedAction::Parsed(ActionV::Screenshot)
        } else if act == "click_element"@ {
            match spec_get_int(input, "id"@) {
                Some(n) => ParsedAction::Parsed(ActionV::ClickElement { id: sat_i32(n) }),
                None => ParsedAction::Rejected("Missing id for click_element"@),
            }
        } else if act == "mouse_move"@ {
            match spec_coords_under(input, "coordinate"@) {
                Some((x, y)) => ParsedAction::Parsed(
                    ActionV::MouseMove {
                        x: scaled_coord(sat_i32(x), num, den),
                        y: scaled_coord(sat_i32(y), num, den),
                    },
                ),
                None => ParsedAction::Rejected("Missing coordinate field"@),
            }
        } else if act == "left_click"@ {
            match spec_coords_under(input, "coordinate"@) {
                Some((x, y)) => ParsedAction::Parsed(
                    ActionV::LeftClick {
                        x: scaled_coord(sat_i32(x), num, den),
                        y: scaled_coord(sat_i32(y), num, den),
                    },
                ),
                None => ParsedAction::Rejected("Missing coordinate field"@),
            }
        } else if act == "right_click"@ {
            match spec_coords_under(input, "coordinate"@) {
                Some((x, y)) => ParsedAction::Parsed(
                    ActionV::RightClick {
                        x: scaled_coord(sat_i32(x), num, den),
                        y: scaled_coord(sat_i32(y), num, den),
                    },
                ),
                None => ParsedAction::Rejected("Missing coordinate field"@),
            }
        } else if act == "double_click"@ {
            match spec_coords_under(input, "coordinate"@) {
                Some((x, y)) => ParsedAction::Parsed(
                    ActionV::DoubleClick {
                        x: scaled_coord(sat_i32(x), num, den),
                        y: scaled_coord(sat_i32(y), num, den),
                    },
                ),
                None => ParsedAction::Rejected("Missing coordinate field"@),
            }
        } else if act == "type"@ {
            match spec_get_str(input, "text"@) {
                Some(text) => ParsedAction::Parsed(ActionV::Type { text }),
                None => ParsedAction::Rejected("Missing text for type action"@),
            }
        } else if act == "key"@ {
            match spec_get_str(input, "text"@) {
                Some(text) => ParsedAction::Parsed(ActionV::Key { combo: text }),
                None => ParsedAction::Rejected("Missing text for key action"@),
            }
        } else if act == "scroll"@ {
            match spec_coords_under(input, "coordinate"@) {
                Some((x, y)) => ParsedAction::Parsed(
                    ActionV::Scroll {
                        x: scaled_coord(sat_i32(x), num, den),
                        y: scaled_coord(sat_i32(y), num, den),
                        direction: match spec_get_str(input, "scroll_direction"@) {
                            Some(d) => d,
                            None => "down"@,
                        },
                        amount: match spec_get_int(input, "scroll_amount"@) {
                            Some(n) => sat_i32(n),
                            None => 3,
                        },
                    },
                ),
                None => ParsedAction::Rejected("Missing coordinate field"@),
            }
        } else if act == "wait"@ {
            ParsedAction::Parsed(
                ActionV::Wait {
                    duration_ms: match spec_get_int(input, "duration"@) {
                        Some(n) => if n >= 0 {
                            n
                        } else {
                            1000
                        },
                        None => 1000,
                    },
                },
            )
        } else if act == "drag"@ {
            match spec_coords_under(input, "start_coordinate"@) {
                Some((sx, sy)) => match spec_coords_under(input, "end_coordinate"@) {
                    Some((ex, ey)) => ParsedAction::Parsed(
                        ActionV::Drag {
                            start_x: scaled_coord(sat_i32(sx), num, den),
                            start_y: scaled_coord(sat_i32(sy), num, den),
                            end_x: scaled_coord(sat_i32(ex), num, den),
                            end_y: scaled_coord(sat_i32(ey), num, den),
                        },
                    ),
                    None => ParsedAction::Rejected("Missing end_coordinate"@),
                },
                None => ParsedAction::Rejected("Missing start_coordinate"@),
            }
        } else {
            ParsedAction::Rejected("Unknown computer action: "@ + act)
        },
    }
}

/// Read the `(x, y)` pair under `key`, clamped into the `i32` range.
fn coords_under(input: &Json, key: &str) -> (r: Option<(i32, i32)>)
    ensures
        match r {
            Some(p) => spec_coords_under(input@, key@) matches Some(q) && p.0 as int == sat_i32(
                q.0,
            ) && p.1 as int == sat_i32(q.1),
            None => spec_coords_under(input@, key@) is None,
        },
{
    match input.get(key) {
        Some(f) => match f.as_arr() {
            Some(items) => {
                let x: i64 = if items.len() >= 1 {
                    match items[0].as_i64() {
                        Some(n) => n,
                        None => 0,
                    }
                } else {
                    0
                };
                let y: i64 = if items.len() >= 2 {
                    match items[1].as_i64() {
                        Some(n) => n,
                        None => 0,
                    }
                } else {
                    0
                };
                Some((sat64_to_i32(x), sat64_to_i32(y)))
            },
            None => None,
        },
        None => None,
    }
}

/// Parse a `computer` tool call into an action, dividing every coordinate by
/// the scale factor `scale_num / scale_den` (1/1 when the capture already
/// matches the declared display size). The result is exactly
/// [`spec_parse_computer`]; rejections are `Agent` errors with that message.
pub fn parse_computer_action(input: &Json, scale_num: i64, scale_den: i64) -> (r: Result<
    AgentAction,
    AppError,
>)
    requires
        1 <= scale_num <= 1024,
        1 <= scale_den <= 1024,
    ensures
        match r {
            Ok(a) => spec_parse_computer(input@, scale_num as int, scale_den as int)
                == ParsedAction::Parsed(a@),
            Err(e) => e is Agent && spec_parse_computer(
                input@,
                scale_num as int,
                scale_den as int,
            ) == ParsedAction::Rejected(e->Agent_0@),
        },
{
    let action = match input.get_str("action") {
        Some(a) => a,
        None => {
            return Err(AppError::Agent(String::from_str("Missing action field")));
        },
    };
    let act = action.as_str();
    if crate::text::str_eq(act, "screenshot") {
        Ok(AgentAction::Screenshot)
    } else if crate::text::str_eq(act, "click_element") {
        match input.get_i64("id") {
            Some(n) => Ok(AgentAction::ClickElement { id: sat64_to_i32(n) }),
            None => Err(AppError::Agent(String::from_str("Missing id for click_element"))),
        }
    } else if crate::text::str_eq(act, "mouse_move") {
        match coords_under(input, "coordinate") {
            Some((x, y)) => Ok(
                AgentAction::MouseMove {
                    x: scale_coord(x, scale_num, scale_den),
                    y: scale_coord(y, scale_num, scale_den),
                },
            ),
            None => Err(AppError::Agent(String::from_str("Missing coordinate field"))),
        }
    } else if crate::text::str_eq(act, "left_click") {
        match coords_under(input, "coordinate") {
            Some((x, y)) => Ok(
                AgentAction::LeftClick {
                    x: scale_coord(x, scale_num, scale_den),
                    y: scale_coord(y, scale_num, scale_den),
                },
            ),
            None => Err(AppError::Agent(String::from_str("Missing coordinate field"))),
        }
    } else if crate::text::str_eq(act, "right_click") {
        match coords_under(input, "coordinate") {
            Some((x, y)) => Ok(
                AgentAction::RightClick {
                    x: scale_coord(x, scale_num, scale_den),
                    y: scale_coord(y, scale_num, scale_den),
                },
            ),
            None => Err(AppError::Agent(String::from_str("Missing coordinate field"))),
        }
    } else if crate::text::str_eq(act, "double_click") {
        match coords_under(input, "coordinate") {
            Some((x, y)) => Ok(
                AgentAction::DoubleClick {
                    x: scale_coord(x, scale_num, scale_den),
                    y: scale_coord(y, scale_num, scale_den),
                },
            ),
            None => Err(AppError::Agent(String::from_str("Missing coordinate field"))),
        }
    } else if crate::text::str_eq(act, "type") {
        match input.get_str("text") {
            Some(text) => Ok(AgentAction::Type { text: text.clone() }),
            None => Err(AppError::Agent(String::from_str("Missing text for type action"))),
        }
    } else if crate::text::str_eq(act, "key") {
        match input.get_str("text") {
            Some(text) => Ok(AgentAction::Key { combo: text.clone() }),
            None => Err(AppError::Agent(String::from_str("Missing text for key action"))),
        }
    } else if crate::text::str_eq(act, "scroll") {
        match coords_under(input, "coordinate") {
            Some((x, y)) => {
                let direction = match input.get_str("scroll_direction") {
                    Some(d) => d.clone(),
                    None => String::from_str("down"),
                };
                let amount = match input.get_i64("scroll_amount") {
                    Some(n) => sat64_to_i32(n),
                    None => 3,
                };
                Ok(
                    AgentAction::Scroll {
                        x: scale_coord(x, scale_num, scale_den),
                        y: scale_coord(y, scale_num, scale_den),
                        direction,
                        amount,
                    },
                )
            },
            None => Err(AppError::Agent(String::from_str("Missing coordinate field"))),
        }
    } else if crate::text::str_eq(act, "wait") {
        let duration = match input.get_u64("duration") {
            Some(n) => n,
            None => 1000,
        };
        Ok(AgentAction::Wait { duration_ms: duration })
    } else if crate::text::str_eq(act, "drag") {
        match coords_under(input, "start_coordinate") {
            Some((sx, sy)) => match coords_under(input, "end_coordinate") {
                Some((ex, ey)) => Ok(
                    AgentAction::Drag {
                        start_x: scale_coord(sx, scale_num, scale_den),
                        start_y: scale_coord(sy, scale_num, scale_den),
                        end_x: scale_coord(ex, scale_num, scale_den),
                        end_y: scale_coord(ey, scale_num, scale_den),
                    },
                ),
                None => Err(AppError::Agent(String::from_str("Missing end_coordinate"))),
            },
            None => Err(AppError::Agent(String::from_str("Missing start_coordinate"))),
        }
    } else {
        let mut m = String::from_str("Unknown computer action: ");
        m.append(act);
        Err(AppError::Agent(m))
    }
}

} // verus!
