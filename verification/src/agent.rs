//! The agent loop's state machine. A [`Session`] owns one run's
//! conversation; the embedding program drives it: it hands each provider
//! content block to [`Session::step`], executes the actions `step` asks for,
//! reports outcomes through [`Session::report`], and closes the turn with
//! [`Session::end_turn`]. Throughout, every `ToolUse` the assistant message
//! holds is answered by exactly one `ToolResult` with the same id, in the
//! same order, in the next user message.

use vstd::prelude::*;

use crate::a11y::{a11y_text, a11y_tree_text, find_node, node_center, nodes_view, spec_center,
    A11yNode, A11yNodeV};
use crate::action::{sat_i32, spec_parse_computer, ActionResult, ActionV, AgentAction,
    ParsedAction};
use crate::error::{error_text, AppError};
use crate::history::{drop_images, imaged_after_first, imaged_before, lemma_drop_images_keeps_results,
    lemma_imaged_before_mono, trim_history};
use crate::json::{spec_get_str, Json};
use crate::msg::{blocks_view, msgs_view, result_ids, use_ids, BlockV, ContentBlock, ImageSource,
    Message, Role, StopReason};
use crate::text::dec_int;

verus! {

/// The standing instructions of every turn: screenshot first, aim for
/// element centers, verify after acting, prefer the shell where faster, say
/// when done, and keep publishing a remaining-time estimate.
pub open spec fn system_prompt_text() -> Seq<char> {
    "You are an AI agent running on Delegant that controls a computer to accomplish tasks. You can see the screen via screenshots and perform actions using the available tools.\n\nIMPORTANT GUIDELINES:\n- Always take a screenshot first to see the current state of the screen before acting.\n- Screenshots show the full screen. Coordinates are pixel positions from top-left (0,0).\n- Be precise with coordinates when clicking \u{2014} aim for the center of buttons, links, and text fields.\n- Look carefully at the screenshot to identify clickable UI elements, menus, icons, and text.\n- After performing an action, take a screenshot to verify the result before proceeding.\n- If something doesn't work, try an alternative approach.\n- Use bash/shell commands when they are more efficient than GUI interactions.\n- When you believe the task is complete, say so clearly and stop using tools.\n- In your text responses, include a JSON snippet estimating remaining time: {\"estimated_seconds\": N} where N is your best estimate of seconds remaining to complete the task. Update this estimate as you progress."@
}

/// The standing instructions sent as the system prompt of every turn.
pub fn system_prompt() -> (r: &'static str)
    ensures
        r@ == system_prompt_text(),
{
    "You are an AI agent running on Delegant that controls a computer to accomplish tasks. You can see the screen via screenshots and perform actions using the available tools.\n\nIMPORTANT GUIDELINES:\n- Always take a screenshot first to see the current state of the screen before acting.\n- Screenshots show the full screen. Coordinates are pixel positions from top-left (0,0).\n- Be precise with coordinates when clicking \u{2014} aim for the center of buttons, links, and text fields.\n- Look carefully at the screenshot to identify clickable UI elements, menus, icons, and text.\n- After performing an action, take a screenshot to verify the result before proceeding.\n- If something doesn't work, try an alternative approach.\n- Use bash/shell commands when they are more efficient than GUI interactions.\n- When you believe the task is complete, say so clearly and stop using tools.\n- In your text responses, include a JSON snippet estimating remaining time: {\"estimated_seconds\": N} where N is your best estimate of seconds remaining to complete the task. Update this estimate as you progress."
}

/// The text of the seed message for a task on a `w` by `h` display.
pub open spec fn initial_text(task: Seq<char>, w: int, h: int) -> Seq<char> {
    "Task: "@ + task + "\n\nThe screen resolution is "@ + dec_int(w) + "x"@ + dec_int(h)
        + " pixels. Coordinates are [x, y] from the top-left corner. Please start by taking a screenshot to see the current state of the screen."@
}

/// Build the seed user message for a run.
pub fn initial_user_message(task: &str, w: u32, h: u32) -> (r: Message)
    ensures
        r@.role == Role::User,
        r@.content =~= seq![
            BlockV::Text { text: initial_text(task@, w as int, h as int) },
        ],
{
    let mut text = String::from_str("Task: ");
    text.append(task);
    text.append("\n\nThe screen resolution is ");
    text.append(crate::text::u32_str(w).as_str());
    text.append("x");
    text.append(crate::text::u32_str(h).as_str());
    text.append(
        " pixels. Coordinates are [x, y] from the top-left corner. Please start by taking a screenshot to see the current state of the screen.",
    );
    let mut content: Vec<ContentBlock> = Vec::new();
    content.push(ContentBlock::Text { text });
    Message { role: Role::User, content }
}

/// The first occurrence of `w` in `hay` at or after `from`.
pub open spec fn first_at(hay: Seq<char>, w: Seq<char>, from: int) -> Option<int>
    decreases hay.len() - from,
{
    if from < 0 || from + w.len() > hay.len() {
        None
    } else if w.len() == 0 || hay.subrange(from, from + w.len() as int) == w {
        Some(from)
    } else {
        first_at(hay, w, from + 1)
    }
}

proof fn lemma_first_at_some(hay: Seq<char>, w: Seq<char>, from: int, k: int)
    requires
        0 <= from <= k,
        crate::text::match_at(hay, w, k),
        forall|n: int| from <= n < k ==> !crate::text::match_at(hay, w, n),
    ensures
        first_at(hay, w, from) == Some(k),
    decreases k - from,
{
    if from == k {
    } else {
        assert(!crate::text::match_at(hay, w, from));
        if w.len() == 0 {
            assert(hay.subrange(from, from) =~= w);
            assert(false);
        }
        lemma_first_at_some(hay, w, from + 1, k);
    }
}

proof fn lemma_first_at_none(hay: Seq<char>, w: Seq<char>, from: int)
    requires
        forall|n: int| !crate::text::match_at(hay, w, n),
    ensures
        first_at(hay, w, from) is None,
    decreases hay.len() - from,
{
    if from >= 0 && from + w.len() <= hay.len() {
        assert(!crate::text::match_at(hay, w, from));
        if w.len() == 0 {
            assert(hay.subrange(from, from) =~= w);
            assert(false);
        }
        lemma_first_at_none(hay, w, from + 1);
    }
}

/// The remaining-seconds estimate a prose text carries: the fragment from
/// the first occurrence of the estimate prefix up to the first closing
/// brace after it, parsed as a document holding a non-negative integer
/// under `estimated_seconds`.
pub open spec fn spec_estimate(text: Seq<char>) -> Option<int> {
    match first_at(text, "{\"estimated_seconds\""@, 0) {
        None => None,
        Some(i) => {
            let rest = text.subrange(i, text.len() as int);
            match first_at(rest, "}"@, 0) {
                None => None,
                Some(e) => match crate::jsonparse::spec_document(rest.subrange(0, e + 1)) {
                    Some(v) => match crate::json::spec_get_int(v, "estimated_seconds"@) {
                        Some(n) => if n >= 0 {
                            Some(n)
                        } else {
                            None
                        },
                        None => None,
                    },
                    None => None,
                },
            }
        },
    }
}

/// Pull the model's remaining-time estimate out of its prose: exactly the
/// value [`spec_estimate`] denotes, when there is one.
pub fn extract_estimated_seconds(text: &str) -> (r: Option<u64>)
    ensures
        match r {
            Some(n) => spec_estimate(text@) == Some(n as int),
            None => spec_estimate(text@) is None,
        },
{
    let start = match crate::text::find_sub(text, "{\"estimated_seconds\"") {
        Some(i) => {
            proof {
                lemma_first_at_some(text@, "{\"estimated_seconds\""@, 0, i as int);
            }
            i
        },
        None => {
            proof {
                lemma_first_at_none(text@, "{\"estimated_seconds\""@, 0);
            }
            return None;
        },
    };
    let len = text.unicode_len();
    proof {
        reveal_strlit("{\"estimated_seconds\"");
    }
    let tail = text.substring_char(start, len);
    let endrel = match crate::text::find_sub(tail, "}") {
        Some(i) => {
            proof {
                lemma_first_at_some(tail@, "}"@, 0, i as int);
            }
            i
        },
        None => {
            proof {
                lemma_first_at_none(tail@, "}"@, 0);
            }
            return None;
        },
    };
    proof {
        reveal_strlit("}");
    }
    let fragment = tail.substring_char(0, endrel + 1);
    match crate::jsonparse::parse_json(fragment) {
        Some(j) => j.get_u64("estimated_seconds"),
        None => None,
    }
}

/// The first node with the given id.
pub open spec fn spec_find(ns: Seq<A11yNodeV>, eid: int) -> Option<A11yNodeV>
    decreases ns.len(),
{
    if ns.len() == 0 {
        None
    } else if ns[0].id == eid {
        Some(ns[0])
    } else {
        spec_find(ns.subrange(1, ns.len() as int), eid)
    }
}

proof fn lemma_spec_find_some(ns: Seq<A11yNodeV>, eid: int, k: int)
    requires
        0 <= k < ns.len(),
        ns[k].id == eid,
        forall|j: int| 0 <= j < k ==> (#[trigger] ns[j]).id != eid,
    ensures
        spec_find(ns, eid) == Some(ns[k]),
    decreases k,
{
    if k == 0 {
    } else {
        let t = ns.subrange(1, ns.len() as int);
        assert(forall|j: int| 0 <= j < k - 1 ==> #[trigger] t[j] == ns[j + 1]);
        lemma_spec_find_some(t, eid, k - 1);
    }
}

proof fn lemma_spec_find_none(ns: Seq<A11yNodeV>, eid: int)
    requires
        forall|j: int| 0 <= j < ns.len() ==> (#[trigger] ns[j]).id != eid,
    ensures
        spec_find(ns, eid) is None,
    decreases ns.len(),
{
    if ns.len() > 0 {
        let t = ns.subrange(1, ns.len() as int);
        assert(forall|j: int| 0 <= j < t.len() ==> #[trigger] t[j] == ns[j + 1]);
        lemma_spec_find_none(t, eid);
    }
}

/// The node list the session currently resolves element ids against.
pub open spec fn opt_nodes_view(nodes: Option<Vec<A11yNode>>) -> Option<Seq<A11yNodeV>> {
    match nodes {
        Some(v) => Some(nodes_view(v@)),
        None => None,
    }
}

/// Look an id up in the optional node list.
pub open spec fn spec_lookup(nodes: Option<Seq<A11yNodeV>>, eid: int) -> Option<A11yNodeV> {
    match nodes {
        Some(ns) => spec_find(ns, eid),
        None => None,
    }
}

/// The error text for a stale or unknown element id.
pub open spec fn elem_not_found_text(eid: int) -> Seq<char> {
    "Error: Element ["@ + dec_int(eid)
        + "] not found in the current accessibility tree. Take a screenshot first."@
}

/// The synthetic result text for `get_element_position`.
pub open spec fn elem_position_text(eid: int, rect: (int, int, int, int)) -> Seq<char> {
    "Element ID "@ + dec_int(eid) + " position:\nBounding Box: [left: "@ + dec_int(rect.0)
        + ", top: "@ + dec_int(rect.1) + ", right: "@ + dec_int(rect.2) + ", bottom: "@
        + dec_int(rect.3) + "]\nCenter: [cx: "@ + dec_int(spec_center(rect).0) + ", cy: "@
        + dec_int(spec_center(rect).1) + "]"@
}

/// What handling one response block comes to.
#[verifier::ext_equal]
pub ghost enum StepOutcome {
    /// An `Image` or `ToolResult` block in a response: ignored.
    Ignored,
    /// Prose: recorded in the assistant message.
    Prose,
    /// A tool use answered on the spot, without executing anything.
    Synthetic { result: BlockV },
    /// A tool use to execute; its result is owed under this id.
    Launch { id: Seq<char>, action: ActionV },
    /// A malformed tool call: the turn fails with this `Agent` error text.
    Fail { message: Seq<char> },
}

/// How one response block is handled, given the current node list.
pub open spec fn spec_step(b: BlockV, nodes: Option<Seq<A11yNodeV>>) -> StepOutcome {
    match b {
        BlockV::Text { .. } => StepOutcome::Prose,
        BlockV::Image { .. } => StepOutcome::Ignored,
        BlockV::ToolResult { .. } => StepOutcome::Ignored,
        BlockV::ToolUse { id, name, input } => if name == "get_element_position"@ {
            let eid = match crate::json::spec_get_int(input, "id"@) {
                Some(n) => sat_i32(n),
                None => -1,
            };
            match spec_lookup(nodes, eid) {
                Some(n) => StepOutcome::Synthetic {
                    result: BlockV::ToolResult {
                        tool_use_id: id,
                        content: elem_position_text(eid, n.rect),
                        is_error: None,
                    },
                },
                None => StepOutcome::Synthetic {
                    result: BlockV::ToolResult {
                        tool_use_id: id,
                        content: elem_not_found_text(eid),
                        is_error: Some(true),
                    },
                },
            }
        } else if name == "computer"@ {
            match spec_parse_computer(input, 1, 1) {
                ParsedAction::Rejected(m) => StepOutcome::Fail { message: m },
                ParsedAction::Parsed(a) => match a {
                    ActionV::ClickElement { id: eid } => match spec_lookup(nodes, eid) {
                        Some(n) => StepOutcome::Launch {
                            id,
                            action: ActionV::LeftClick {
                                x: spec_center(n.rect).0,
                                y: spec_center(n.rect).1,
                            },
                        },
                        None => StepOutcome::Synthetic {
                            result: BlockV::ToolResult {
                                tool_use_id: id,
                                content: elem_not_found_text(eid),
                                is_error: Some(true),
                            },
                        },
                    },
                    _ => StepOutcome::Launch { id, action: a },
                },
            }
        } else if name == "bash"@ {
            let command = match spec_get_str(input, "command"@) {
                Some(c) => c,
                None => match spec_get_str(input, "input"@) {
                    Some(c) => c,
                    None => Seq::empty(),
                },
            };
            StepOutcome::Launch { id, action: ActionV::BashCommand { command } }
        } else if name == "text_editor"@ {
            let cmd = match spec_get_str(input, "command"@) {
                Some(c) => c,
                None => "view"@,
            };
            let path = match spec_get_str(input, "path"@) {
                Some(p) => p,
                None => Seq::empty(),
            };
            let action = if cmd == "create"@ {
                ActionV::TextEditorCreate {
                    path,
                    content: match spec_get_str(input, "file_text"@) {
                        Some(c) => c,
                        None => Seq::empty(),
                    },
                }
            } else if cmd == "str_replace"@ {
                ActionV::TextEditorReplace {
                    path,
                    old_text: match spec_get_str(input, "old_str"@) {
                        Some(c) => c,
                        None => Seq::empty(),
                    },
                    new_text: match spec_get_str(input, "new_str"@) {
                        Some(c) => c,
                        None => Seq::empty(),
                    },
                }
            } else {
                ActionV::TextEditorView { path }
            };
            StepOutcome::Launch { id, action }
        } else {
            StepOutcome::Synthetic {
                result: BlockV::ToolResult {
                    tool_use_id: id,
                    content: "Unknown tool: "@ + name,
                    is_error: Some(true),
                },
            }
        },
    }
}

/// What the driver must do after a [`Session::step`].
#[derive(Debug)]
pub enum StepAction {
    /// Nothing: the block is recorded (or ignored).
    Noted,
    /// A result was synthesized; pause briefly, then continue.
    Synthetic,
    /// Execute this action, then call [`Session::report`].
    Execute(AgentAction),
}

/// One run's conversation and turn state.
pub struct Session {
    pub messages: Vec<Message>,
    pub last_nodes: Option<Vec<A11yNode>>,
    pub iteration: u32,
    pub assistant_blocks: Vec<ContentBlock>,
    pub tool_results: Vec<ContentBlock>,
    pub has_tool_use: bool,
    pub pending: Option<String>,
}

/// The tool-pair bookkeeping of a turn in flight: every tool use recorded so
/// far has its result, in order — except, between `step` and `report`, the
/// one whose result is still owed.
pub open spec fn turn_wf(s: Session) -> bool {
    match s.pending {
        None => result_ids(blocks_view(s.tool_results@)) == use_ids(
            blocks_view(s.assistant_blocks@),
        ),
        Some(id) => result_ids(blocks_view(s.tool_results@)).push(id@) == use_ids(
            blocks_view(s.assistant_blocks@),
        ),
    }
}

impl Session {
    /// Open a session: the conversation seeded with the task message.
    pub fn new(task: &str, w: u32, h: u32) -> (r: Session)
        ensures
            r.messages@.len() == 1,
            r.messages@[0]@.role == Role::User,
            r.messages@[0]@.content =~= seq![
                BlockV::Text { text: initial_text(task@, w as int, h as int) },
            ],
            r.last_nodes is None,
            r.iteration == 0u32,
            r.assistant_blocks@.len() == 0,
            r.tool_results@.len() == 0,
            r.has_tool_use == false,
            r.pending is None,
            turn_wf(r),
    {
        let mut messages: Vec<Message> = Vec::new();
        messages.push(initial_user_message(task, w, h));
        let r = Session {
            messages,
            last_nodes: None,
            iteration: 0,
            assistant_blocks: Vec::new(),
            tool_results: Vec::new(),
            has_tool_use: false,
            pending: None,
        };
        proof {
            assert(blocks_view(r.tool_results@) =~= Seq::<BlockV>::empty());
            assert(blocks_view(r.assistant_blocks@) =~= Seq::<BlockV>::empty());
        }
        r
    }

    /// Handle one block of the provider's response.
    pub fn step(&mut self, block: ContentBlock) -> (r: Result<StepAction, AppError>)
        requires
            turn_wf(*old(self)),
            old(self).pending is None,
        ensures
            final(self).messages@ == old(self).messages@,
            final(self).iteration == old(self).iteration,
            final(self).last_nodes == old(self).last_nodes,
            match r {
                Err(e) => e is Agent && spec_step(
                    block@,
                    opt_nodes_view(old(self).last_nodes),
                ) == (StepOutcome::Fail { message: e->Agent_0@ }),
                Ok(a) => turn_wf(*final(self)) && match a {
                    StepAction::Noted => final(self).tool_results@ == old(self).tool_results@
                        && final(self).pending is None && final(self).has_tool_use == old(self).has_tool_use && ((spec_step(
                        block@,
                        opt_nodes_view(old(self).last_nodes),
                    ) == StepOutcome::Prose && blocks_view(final(self).assistant_blocks@)
                        == blocks_view(old(self).assistant_blocks@).push(block@)) || (
                    spec_step(block@, opt_nodes_view(old(self).last_nodes))
                        == StepOutcome::Ignored && final(self).assistant_blocks@ == old(self).assistant_blocks@)),
                    StepAction::Synthetic => final(self).pending is None && final(self).has_tool_use == true && blocks_view(final(self).assistant_blocks@)
                        == blocks_view(old(self).assistant_blocks@).push(block@) && (spec_step(
                        block@,
                        opt_nodes_view(old(self).last_nodes),
                    ) matches StepOutcome::Synthetic { result } && blocks_view(
                        final(self).tool_results@,
                    ) == blocks_view(old(self).tool_results@).push(result)),
                    StepAction::Execute(act) => final(self).has_tool_use == true && blocks_view(
                        final(self).assistant_blocks@,
                    ) == blocks_view(old(self).assistant_blocks@).push(block@) && final(self).tool_results@ == old(self).tool_results@ && (spec_step(
                        block@,
                        opt_nodes_view(old(self).last_nodes),
                    ) matches StepOutcome::Launch { id, action } && act@ == action && (final(self).pending matches Some(p) && p@ == id)),
                },
            },
    {
        match block {
            ContentBlock::Text { text } => {
                let b = ContentBlock::Text { text };
                self.assistant_blocks.push(b);
                proof {
                    assert(blocks_view(self.assistant_blocks@) =~= blocks_view(
                        old(self).assistant_blocks@,
                    ).push(block@));
                    lemma_use_ids_push_other(blocks_view(old(self).assistant_blocks@), block@);
                }
                Ok(StepAction::Noted)
            },
            ContentBlock::Image { .. } => Ok(StepAction::Noted),
            ContentBlock::ToolResult { .. } => Ok(StepAction::Noted),
            ContentBlock::ToolUse { id, name, input } => {
                self.has_tool_use = true;
                let id2 = id.clone();
                let name2 = name.clone();
                let input2 = input.duplicate();
                let b = ContentBlock::ToolUse { id, name, input };
                let ghost bview = b@;
                proof {
                    assert(bview == block@);
                }
                self.assistant_blocks.push(b);
                proof {
                    assert(blocks_view(self.assistant_blocks@) =~= blocks_view(
                        old(self).assistant_blocks@,
                    ).push(block@));
                    lemma_use_ids_push_use(
                        blocks_view(old(self).assistant_blocks@),
                        block@,
                        id2@,
                    );
                }
                self.dispatch_tool_use(id2, name2, &input2)
            },
        }
    }

    /// Decide what a tool call asks for, and synthesize the answers that need
    /// no execution.
    fn dispatch_tool_use(&mut self, id: String, name: String, input: &Json) -> (r: Result<
        StepAction,
        AppError,
    >)
        requires
            old(self).pending is None,
            use_ids(blocks_view(old(self).assistant_blocks@)) == result_ids(
                blocks_view(old(self).tool_results@),
            ).push(id@),
        ensures
            final(self).messages@ == old(self).messages@,
            final(self).iteration == old(self).iteration,
            final(self).last_nodes == old(self).last_nodes,
            final(self).assistant_blocks@ == old(self).assistant_blocks@,
            final(self).has_tool_use == old(self).has_tool_use,
            match r {
                Err(e) => e is Agent && spec_step(
                    BlockV::ToolUse { id: id@, name: name@, input: input@ },
                    opt_nodes_view(old(self).last_nodes),
                ) == (StepOutcome::Fail { message: e->Agent_0@ }),
                Ok(a) => turn_wf(*final(self)) && match a {
                    StepAction::Noted => false,
                    StepAction::Synthetic => final(self).pending is None && (spec_step(
                        BlockV::ToolUse { id: id@, name: name@, input: input@ },
                        opt_nodes_view(old(self).last_nodes),
                    ) matches StepOutcome::Synthetic { result } && blocks_view(
                        final(self).tool_results@,
                    ) == blocks_view(old(self).tool_results@).push(result)),
                    StepAction::Execute(act) => final(self).tool_results@ == old(self).tool_results@ && (spec_step(
                        BlockV::ToolUse { id: id@, name: name@, input: input@ },
                        opt_nodes_view(old(self).last_nodes),
                    ) matches StepOutcome::Launch { id: sid, action } && act@ == action && (
                    final(self).pending matches Some(p) && p@ == sid)),
                },
            },
    {
        let ghost buse = BlockV::ToolUse { id: id@, name: name@, input: input@ };
        if crate::text::str_eq(name.as_str(), "get_element_position") {
            let eid: i32 = match input.get_i64("id") {
                Some(n) => crate::action::sat64_to_i32(n),
                None => -1,
            };
            let found = match &self.last_nodes {
                Some(nodes) => {
                    let r = find_node(nodes, eid);
                    proof {
                        match r {
                            Some(n) => {
                                let ns = nodes_view(nodes@);
                                let k = choose|k: int|
                                    0 <= k < nodes@.len() && nodes@[k] == *n && nodes@[k].id
                                        == eid && forall|j: int|
                                        0 <= j < k ==> (#[trigger] nodes@[j]).id != eid;
                                assert(forall|j: int| 0 <= j < k ==> (#[trigger] ns[j]).id
                                    != eid);
                                lemma_spec_find_some(ns, eid as int, k);
                            },
                            None => {
                                let ns = nodes_view(nodes@);
                                assert(forall|j: int| 0 <= j < ns.len() ==> (
                                #[trigger] ns[j]).id != eid);
                                lemma_spec_find_none(ns, eid as int);
                            },
                        }
                    }
                    match r {
                        Some(n) => Some((n.rect, node_center(n))),
                        None => None,
                    }
                },
                None => None,
            };
            match found {
                Some((rect, center)) => {
                    let mut content = String::from_str("Element ID ");
                    content.append(crate::text::i32_str(eid).as_str());
                    content.append(" position:\nBounding Box: [left: ");
                    content.append(crate::text::i32_str(rect.0).as_str());
                    content.append(", top: ");
                    content.append(crate::text::i32_str(rect.1).as_str());
                    content.append(", right: ");
                    content.append(crate::text::i32_str(rect.2).as_str());
                    content.append(", bottom: ");
                    content.append(crate::text::i32_str(rect.3).as_str());
                    content.append("]\nCenter: [cx: ");
                    content.append(crate::text::i32_str(center.0).as_str());
                    content.append(", cy: ");
                    content.append(crate::text::i32_str(center.1).as_str());
                    content.append("]");
                    self.push_result(id, content, None);
                    Ok(StepAction::Synthetic)
                },
                None => {
                    let content = not_found_message(eid);
                    self.push_result(id, content, Some(true));
                    Ok(StepAction::Synthetic)
                },
            }
        } else if crate::text::str_eq(name.as_str(), "computer") {
            let action = match crate::action::parse_computer_action(input, 1, 1) {
                Ok(a) => a,
                Err(e) => {
                    return Err(e);
                },
            };
            let eid_opt: Option<i32> = match &action {
                AgentAction::ClickElement { id: eid } => Some(*eid),
                _ => None,
            };
            match eid_opt {
                Some(eid) => {
                    let found = match &self.last_nodes {
                        Some(nodes) => {
                            let r = find_node(nodes, eid);
                            proof {
                                match r {
                                    Some(n) => {
                                        let ns = nodes_view(nodes@);
                                        let k = choose|k: int|
                                            0 <= k < nodes@.len() && nodes@[k] == *n
                                                && nodes@[k].id == eid && forall|j: int|
                                                0 <= j < k ==> (#[trigger] nodes@[j]).id != eid;
                                        assert(forall|j: int| 0 <= j < k ==> (
                                        #[trigger] ns[j]).id != eid);
                                        lemma_spec_find_some(ns, eid as int, k);
                                    },
                                    None => {
                                        let ns = nodes_view(nodes@);
                                        assert(forall|j: int| 0 <= j < ns.len() ==> (
                                        #[trigger] ns[j]).id != eid);
                                        lemma_spec_find_none(ns, eid as int);
                                    },
                                }
                            }
                            match r {
                                Some(n) => Some(node_center(n)),
                                None => None,
                            }
                        },
                        None => None,
                    };
                    match found {
                        Some(center) => {
                            self.pending = Some(id);
                            Ok(
                                StepAction::Execute(
                                    AgentAction::LeftClick { x: center.0, y: center.1 },
                                ),
                            )
                        },
                        None => {
                            let content = not_found_message(eid);
                            self.push_result(id, content, Some(true));
                            Ok(StepAction::Synthetic)
                        },
                    }
                },
                None => {
                    self.pending = Some(id);
                    Ok(StepAction::Execute(action))
                },
            }
        } else if crate::text::str_eq(name.as_str(), "bash") {
            let command: String = match input.get_str("command") {
                Some(c) => c.clone(),
                None => match input.get_str("input") {
                    Some(c) => c.clone(),
                    None => String::new(),
                },
            };
            self.pending = Some(id);
            Ok(StepAction::Execute(AgentAction::BashCommand { command }))
        } else if crate::text::str_eq(name.as_str(), "text_editor") {
            let path: String = match input.get_str("path") {
                Some(p) => p.clone(),
                None => String::new(),
            };
            let is_create = match input.get_str("command") {
                Some(c) => crate::text::str_eq(c.as_str(), "create"),
                None => false,
            };
            let is_replace = match input.get_str("command") {
                Some(c) => crate::text::str_eq(c.as_str(), "str_replace"),
                None => false,
            };
            let action = if is_create {
                AgentAction::TextEditorCreate {
                    path,
                    content: match input.get_str("file_text") {
                        Some(c) => c.clone(),
                        None => String::new(),
                    },
                }
            } else if is_replace {
                AgentAction::TextEditorReplace {
                    path,
                    old_text: match input.get_str("old_str") {
                        Some(c) => c.clone(),
                        None => String::new(),
                    },
                    new_text: match input.get_str("new_str") {
                        Some(c) => c.clone(),
                        None => String::new(),
                    },
                }
            } else {
                AgentAction::TextEditorView { path }
            };
            proof {
                reveal_strlit("view");
                reveal_strlit("create");
                reveal_strlit("str_replace");
                assert("view"@.len() == 4);
                assert("create"@.len() == 6);
            }
            self.pending = Some(id);
            Ok(StepAction::Execute(action))
        } else {
            let mut content = String::from_str("Unknown tool: ");
            content.append(name.as_str());
            self.push_result(id, content, Some(true));
            Ok(StepAction::Synthetic)
        }
    }

    /// Append one tool result and discharge the id it answers.
    fn push_result(&mut self, tool_use_id: String, content: String, is_error: Option<bool>)
        ensures
            final(self).messages@ == old(self).messages@,
            final(self).iteration == old(self).iteration,
            final(self).last_nodes == old(self).last_nodes,
            final(self).assistant_blocks@ == old(self).assistant_blocks@,
            final(self).has_tool_use == old(self).has_tool_use,
            final(self).pending is None,
            blocks_view(final(self).tool_results@) == blocks_view(
                old(self).tool_results@,
            ).push(
                BlockV::ToolResult {
                    tool_use_id: tool_use_id@,
                    content: content@,
                    is_error,
                },
            ),
            result_ids(blocks_view(final(self).tool_results@)) == result_ids(
                blocks_view(old(self).tool_results@),
            ).push(tool_use_id@),
    {
        let ghost rview = BlockV::ToolResult {
            tool_use_id: tool_use_id@,
            content: content@,
            is_error,
        };
        self.tool_results.push(ContentBlock::ToolResult { tool_use_id, content, is_error });
        self.pending = None;
        proof {
            assert(blocks_view(self.tool_results@) =~= blocks_view(
                old(self).tool_results@,
            ).push(rview));
            lemma_result_ids_push_result(blocks_view(old(self).tool_results@), rview);
        }
    }

    /// Record the outcome of the action launched by the last `step`:
    /// a screenshot replaces the node list and answers with the tree text
    /// plus the image; any other success answers with its summary text; a
    /// failure answers with an error result, and the loop goes on.
    pub fn report(&mut self, outcome: Result<ActionResult, AppError>)
        requires
            old(self).pending is Some,
        ensures
            final(self).messages@ == old(self).messages@,
            final(self).iteration == old(self).iteration,
            final(self).assistant_blocks@ == old(self).assistant_blocks@,
            final(self).has_tool_use == old(self).has_tool_use,
            final(self).pending is None,
            result_ids(blocks_view(final(self).tool_results@)) == result_ids(
                blocks_view(old(self).tool_results@),
            ).push(old(self).pending->0@),
            turn_wf(*old(self)) ==> turn_wf(*final(self)),
            match outcome {
                Ok(result) => match result.nodes {
                    Some(nodes) => (final(self).last_nodes matches Some(n2) && nodes_view(
                        n2@,
                    ) == nodes_view(nodes@)) && (match result.base64 {
                        Some(data) => blocks_view(final(self).tool_results@) == blocks_view(
                            old(self).tool_results@,
                        ).push(
                            BlockV::ToolResult {
                                tool_use_id: old(self).pending->0@,
                                content: a11y_text(nodes_view(nodes@)),
                                is_error: None,
                            },
                        ).push(
                            BlockV::Image {
                                source_type: "base64"@,
                                media_type: "image/jpeg"@,
                                data: data@,
                            },
                        ),
                        None => blocks_view(final(self).tool_results@) == blocks_view(
                            old(self).tool_results@,
                        ).push(
                            BlockV::ToolResult {
                                tool_use_id: old(self).pending->0@,
                                content: a11y_text(nodes_view(nodes@)),
                                is_error: None,
                            },
                        ),
                    }),
                    None => final(self).last_nodes == old(self).last_nodes && blocks_view(
                        final(self).tool_results@,
                    ) == blocks_view(old(self).tool_results@).push(
                        BlockV::ToolResult {
                            tool_use_id: old(self).pending->0@,
                            content: result.text@,
                            is_error: None,
                        },
                    ),
                },
                Err(e) => final(self).last_nodes == old(self).last_nodes && blocks_view(
                    final(self).tool_results@,
                ) == blocks_view(old(self).tool_results@).push(
                    BlockV::ToolResult {
                        tool_use_id: old(self).pending->0@,
                        content: "Error: "@ + error_text(e),
                        is_error: Some(true),
                    },
                ),
            },
    {
        let mut pend: Option<String> = None;
        core::mem::swap(&mut pend, &mut self.pending);
        let id = match pend {
            Some(id) => id,
            None => {
                proof {
                    assert(false);
                }
                String::new()
            },
        };
        match outcome {
            Ok(result) => {
                match result.nodes {
                    Some(nodes) => {
                        let dom_text = a11y_tree_text(&nodes);
                        self.last_nodes = Some(nodes);
                        self.push_result(id, dom_text, None);
                        match result.base64 {
                            Some(data) => {
                                self.tool_results.push(
                                    ContentBlock::Image {
                                        source: ImageSource {
                                            source_type: String::from_str("base64"),
                                            media_type: String::from_str("image/jpeg"),
                                            data,
                                        },
                                    },
                                );
                                proof {
                                    let prev = blocks_view(
                                        old(self).tool_results@,
                                    ).push(
                                        BlockV::ToolResult {
                                            tool_use_id: id@,
                                            content: a11y_text(
                                                nodes_view(self.last_nodes->0@),
                                            ),
                                            is_error: None,
                                        },
                                    );
                                    let img = blocks_view(self.tool_results@).last();
                                    assert(blocks_view(self.tool_results@) =~= prev.push(
                                        img,
                                    ));
                                    assert(img == (BlockV::Image {
                                        source_type: "base64"@,
                                        media_type: "image/jpeg"@,
                                        data: img->Image_data,
                                    }));
                                    lemma_result_ids_push_other(prev, img);
                                }
                            },
                            None => {},
                        }
                    },
                    None => {
                        self.push_result(id, result.text, None);
                    },
                }
            },
            Err(e) => {
                let mut content = String::from_str("Error: ");
                content.append(e.message().as_str());
                self.push_result(id, content, Some(true));
            },
        }
    }

    /// Close the turn: append the assistant message, append the user message
    /// carrying the tool results when there are any, trim the history, and
    /// say whether the run is finished (no tool use and the provider stopped
    /// of its own accord). Every tool use of the appended assistant message
    /// is answered, in order, in the appended user message.
    pub fn end_turn(&mut self, stop_reason: StopReason) -> (done: bool)
        requires
            turn_wf(*old(self)),
            old(self).pending is None,
            old(self).messages@.len() >= 1,
        ensures
            done == (!old(self).has_tool_use && stop_reason == StopReason::EndTurn),
            final(self).pending is None,
            final(self).assistant_blocks@.len() == 0,
            final(self).tool_results@.len() == 0,
            final(self).has_tool_use == false,
            turn_wf(*final(self)),
            final(self).iteration as int == if old(self).iteration < u32::MAX {
                old(self).iteration + 1
            } else {
                u32::MAX as int
            },
            final(self).messages@.len() == old(self).messages@.len() + (
            if old(self).tool_results@.len() > 0 {
                2int
            } else {
                1int
            }),
            final(self).messages@[0] == old(self).messages@[0],
            imaged_after_first(msgs_view(final(self).messages@)).finite(),
            imaged_after_first(msgs_view(final(self).messages@)).len() <= 5,
            old(self).tool_results@.len() > 0 ==> {
                let n = final(self).messages@.len();
                final(self).messages@[n - 2]@.role == Role::Assistant && final(self).messages@[n - 1]@.role == Role::User && result_ids(
                    final(self).messages@[n - 1]@.content,
                ) == use_ids(final(self).messages@[n - 2]@.content)
            },
            old(self).tool_results@.len() == 0 ==> {
                let n = final(self).messages@.len();
                final(self).messages@[n - 1]@.role == Role::Assistant && use_ids(
                    final(self).messages@[n - 1]@.content,
                ) == Seq::<Seq<char>>::empty()
            },
            final(self).last_nodes == old(self).last_nodes,
            final(self).messages@[final(self).messages@.len() - (
            if old(self).tool_results@.len() > 0 {
                2int
            } else {
                1int
            })]@.content == blocks_view(old(self).assistant_blocks@),
            old(self).tool_results@.len() > 0
                ==> final(self).messages@[final(self).messages@.len() - 1]@.content
                == blocks_view(old(self).tool_results@),
            forall|j: int| 0 <= j < old(self).messages@.len() ==> ((
            #[trigger] final(self).messages@[j]) == old(self).messages@[j]
                || (final(self).messages@[j].role == old(self).messages@[j].role
                && final(self).messages@[j]@.content
                == drop_images(old(self).messages@[j]@.content))),
            forall|j: int| 0 <= j < old(self).messages@.len() ==> result_ids(
                (#[trigger] final(self).messages@[j])@.content,
            ) == result_ids(old(self).messages@[j]@.content) && use_ids(
                final(self).messages@[j]@.content,
            ) == use_ids(old(self).messages@[j]@.content),
    {
        let mut assistant_blocks: Vec<ContentBlock> = Vec::new();
        core::mem::swap(&mut assistant_blocks, &mut self.assistant_blocks);
        let mut tool_results: Vec<ContentBlock> = Vec::new();
        core::mem::swap(&mut tool_results, &mut self.tool_results);
        let had_results = tool_results.len() > 0;
        let ghost auses = use_ids(blocks_view(assistant_blocks@));
        let ghost rids = result_ids(blocks_view(tool_results@));
        proof {
            if !had_results {
                assert(blocks_view(tool_results@) =~= Seq::<BlockV>::empty());
                assert(rids =~= Seq::<Seq<char>>::empty());
            }
        }
        self.messages.push(Message { role: Role::Assistant, content: assistant_blocks });
        if had_results {
            self.messages.push(Message { role: Role::User, content: tool_results });
        }
        let ghost pretrim = self.messages@;
        trim_history(&mut self.messages);
        proof {
            let n = self.messages@.len() as int;
            assert(self.messages@.len() == pretrim.len());
            let pv = msgs_view(pretrim);
            let total = imaged_before(pv, n);
            // the one or two newest messages are never image-stripped: fewer
            // than six imaged messages can sit at or after them
            assert forall|j: int| n - 2 <= j < n implies #[trigger] self.messages@[j]
                == pretrim[j] by {
                lemma_imaged_before_mono(pv, j, n);
            }
            if had_results {
                assert(pretrim[n - 2]@.content == blocks_view(assistant_blocks@));
                assert(pretrim[n - 1]@.content == blocks_view(tool_results@));
                lemma_trimmed_pair(pretrim, self.messages@, n - 2, n - 1);
            } else {
                assert(pretrim[n - 1]@.content == blocks_view(assistant_blocks@));
                lemma_trimmed_uses(pretrim, self.messages@, n - 1);
            }
            // earlier messages: untouched or image-stripped, with tool ids kept
            assert forall|j: int| 0 <= j < old(self).messages@.len() implies use_ids(
                (#[trigger] self.messages@[j])@.content,
            ) == use_ids(old(self).messages@[j]@.content) by {
                assert(pretrim[j] == old(self).messages@[j]);
                if self.messages@[j]@.content != pretrim[j]@.content {
                    lemma_drop_images_keeps_uses(pretrim[j]@.content);
                }
            }
            assert forall|j: int| 0 <= j < old(self).messages@.len() implies (
            #[trigger] self.messages@[j]) == old(self).messages@[j] || (self.messages@[
            j].role == old(self).messages@[j].role && self.messages@[j]@.content
                == drop_images(old(self).messages@[j]@.content)) by {
                assert(pretrim[j] == old(self).messages@[j]);
            }
            assert(blocks_view(self.assistant_blocks@) =~= Seq::<BlockV>::empty());
            assert(blocks_view(self.tool_results@) =~= Seq::<BlockV>::empty());
        }
        let done = !self.has_tool_use && matches!(stop_reason, StopReason::EndTurn);
        self.has_tool_use = false;
        if self.iteration < u32::MAX {
            self.iteration = self.iteration + 1;
        }
        done
    }
}

/// The element-not-found error text.
fn not_found_message(eid: i32) -> (r: String)
    ensures
        r@ == elem_not_found_text(eid as int),
{
    let mut content = String::from_str("Error: Element [");
    content.append(crate::text::i32_str(eid).as_str());
    content.append("] not found in the current accessibility tree. Take a screenshot first.");
    content
}

/// Appending a non-tool-use block leaves the recorded tool uses unchanged.
proof fn lemma_use_ids_push_other(blocks: Seq<BlockV>, b: BlockV)
    requires
        !(b is ToolUse),
    ensures
        use_ids(blocks.push(b)) == use_ids(blocks),
{
    assert(blocks.push(b).drop_last() =~= blocks);
    assert(blocks.push(b).last() == b);
}

/// Appending a tool use records its id.
proof fn lemma_use_ids_push_use(blocks: Seq<BlockV>, b: BlockV, id: Seq<char>)
    requires
        b matches BlockV::ToolUse { id: bid, .. } && bid == id,
    ensures
        use_ids(blocks.push(b)) == use_ids(blocks).push(id),
{
    assert(blocks.push(b).drop_last() =~= blocks);
    assert(blocks.push(b).last() == b);
}

/// Appending a tool result records the id it answers.
proof fn lemma_result_ids_push_result(blocks: Seq<BlockV>, b: BlockV)
    requires
        b is ToolResult,
    ensures
        result_ids(blocks.push(b)) == result_ids(blocks).push(b->ToolResult_tool_use_id),
{
    assert(blocks.push(b).drop_last() =~= blocks);
    assert(blocks.push(b).last() == b);
}

/// Appending a non-result block leaves the answered ids unchanged.
proof fn lemma_result_ids_push_other(blocks: Seq<BlockV>, b: BlockV)
    requires
        !(b is ToolResult),
    ensures
        result_ids(blocks.push(b)) == result_ids(blocks),
{
    assert(blocks.push(b).drop_last() =~= blocks);
    assert(blocks.push(b).last() == b);
}

/// Dropping images from a run of blocks drops no tool use.
proof fn lemma_drop_images_keeps_uses(blocks: Seq<BlockV>)
    ensures
        use_ids(drop_images(blocks)) == use_ids(blocks),
    decreases blocks.len(),
{
    if blocks.len() > 0 {
        let t = blocks.drop_last();
        lemma_drop_images_keeps_uses(t);
        if blocks.last() is Image {
        } else {
            let d = drop_images(t).push(blocks.last());
            assert(d.drop_last() =~= drop_images(t));
            assert(d.last() == blocks.last());
        }
    }
}

/// After a trim, an adjacent assistant/user pair still pairs every tool use
/// with its result.
proof fn lemma_trimmed_pair(pre: Seq<Message>, post: Seq<Message>, ai: int, ui: int)
    requires
        pre.len() == post.len(),
        0 <= ai < pre.len(),
        0 <= ui < pre.len(),
        forall|j: int| 0 <= j < pre.len() ==> ((#[trigger] post[j])@.content == pre[j]@.content
            || post[j]@.content == drop_images(pre[j]@.content)),
        forall|j: int| 0 <= j < pre.len() ==> (#[trigger] post[j]).role == pre[j].role,
        result_ids(pre[ui]@.content) == use_ids(pre[ai]@.content),
    ensures
        result_ids(post[ui]@.content) == use_ids(post[ai]@.content),
        post[ai].role == pre[ai].role,
        post[ui].role == pre[ui].role,
{
    if post[ai]@.content == pre[ai]@.content {
    } else {
        lemma_drop_images_keeps_uses(pre[ai]@.content);
    }
    if post[ui]@.content == pre[ui]@.content {
    } else {
        lemma_drop_images_keeps_results(pre[ui]@.content);
    }
}

/// After a trim, a message with no tool uses still has none.
proof fn lemma_trimmed_uses(pre: Seq<Message>, post: Seq<Message>, ai: int)
    requires
        pre.len() == post.len(),
        0 <= ai < pre.len(),
        forall|j: int| 0 <= j < pre.len() ==> ((#[trigger] post[j])@.content == pre[j]@.content
            || post[j]@.content == drop_images(pre[j]@.content)),
        forall|j: int| 0 <= j < pre.len() ==> (#[trigger] post[j]).role == pre[j].role,
    ensures
        use_ids(post[ai]@.content) == use_ids(pre[ai]@.content),
        post[ai].role == pre[ai].role,
{
    if post[ai]@.content == pre[ai]@.content {
    } else {
        lemma_drop_images_keeps_uses(pre[ai]@.content);
    }
}

} // verus!
