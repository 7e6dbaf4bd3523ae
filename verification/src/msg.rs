//! The conversation data model: messages of content blocks, provider
//! responses, and tool declarations. Assistant turns carry `Text` and
//! `ToolUse` blocks; the answering user turn carries one `ToolResult` per
//! `ToolUse` (plus `Image` blocks after screenshots).

use vstd::prelude::*;

use crate::json::{Json, JsonV};

verus! {

/// Who a message is from.
#[derive(Debug, Clone, Copy, PartialEq, Eq, Structural)]
pub enum Role {
    User,
    Assistant,
}

/// Why the provider stopped generating.
#[derive(Debug, Clone, Copy, PartialEq, Eq, Structural)]
pub enum StopReason {
    EndTurn,
    ToolUse,
}

/// An inline image, base64-encoded.
#[derive(Debug)]
pub struct ImageSource {
    pub source_type: String,
    pub media_type: String,
    pub data: String,
}

/// One block of message content.
#[derive(Debug)]
pub enum ContentBlock {
    Text { text: String },
    Image { source: ImageSource },
    ToolUse { id: String, name: String, input: Json },
    ToolResult { tool_use_id: String, content: String, is_error: Option<bool> },
}

/// One conversation message.
#[derive(Debug)]
pub struct Message {
    pub role: Role,
    pub content: Vec<ContentBlock>,
}

/// What a provider returns for one turn.
#[derive(Debug)]
pub struct AiResponse {
    pub content: Vec<ContentBlock>,
    pub stop_reason: StopReason,
}

/// A tool made available to the provider: either a provider-native tool tag
/// (`tool_type`), or a described tool with a JSON input schema.
#[derive(Debug)]
pub struct ToolDefinition {
    pub name: String,
    pub tool_type: Option<String>,
    pub description: Option<String>,
    pub input_schema: Option<Json>,
    pub display_width_px: Option<u32>,
    pub display_height_px: Option<u32>,
    pub display_number: Option<u32>,
}

/// The shape of a tool declaration.
#[verifier::ext_equal]
pub ghost struct ToolDefV {
    pub name: Seq<char>,
    pub tool_type: Option<Seq<char>>,
    pub description: Option<Seq<char>>,
    pub input_schema: Option<JsonV>,
    pub display_width_px: Option<u32>,
    pub display_height_px: Option<u32>,
    pub display_number: Option<u32>,
}

impl View for ToolDefinition {
    type V = ToolDefV;

    open spec fn view(&self) -> ToolDefV {
        ToolDefV {
            name: self.name@,
            tool_type: match &self.tool_type {
                Some(t) => Some(t@),
                None => None,
            },
            description: match &self.description {
                Some(d) => Some(d@),
                None => None,
            },
            input_schema: match &self.input_schema {
                Some(s) => Some(s@),
                None => None,
            },
            display_width_px: self.display_width_px,
            display_height_px: self.display_height_px,
            display_number: self.display_number,
        }
    }
}

/// The shapes of a tool list.
pub open spec fn tools_view(tools: Seq<ToolDefinition>) -> Seq<ToolDefV> {
    Seq::new(tools.len(), |i: int| tools[i]@)
}

/// The shape of a content block.
#[verifier::ext_equal]
pub ghost enum BlockV {
    Text { text: Seq<char> },
    Image { source_type: Seq<char>, media_type: Seq<char>, data: Seq<char> },
    ToolUse { id: Seq<char>, name: Seq<char>, input: JsonV },
    ToolResult { tool_use_id: Seq<char>, content: Seq<char>, is_error: Option<bool> },
}

/// The shape of a message.
#[verifier::ext_equal]
pub ghost struct MessageV {
    pub role: Role,
    pub content: Seq<BlockV>,
}

/// The shape of a provider response.
#[verifier::ext_equal]
pub ghost struct ResponseV {
    pub content: Seq<BlockV>,
    pub stop_reason: StopReason,
}

impl View for ContentBlock {
    type V = BlockV;

    open spec fn view(&self) -> BlockV {
        match self {
            ContentBlock::Text { text } => BlockV::Text { text: text@ },
            ContentBlock::Image { source } => BlockV::Image {
                source_type: source.source_type@,
                media_type: source.media_type@,
                data: source.data@,
            },
            ContentBlock::ToolUse { id, name, input } => BlockV::ToolUse {
                id: id@,
                name: name@,
                input: input@,
            },
            ContentBlock::ToolResult { tool_use_id, content, is_error } => BlockV::ToolResult {
                tool_use_id: tool_use_id@,
                content: content@,
                is_error: *is_error,
            },
        }
    }
}

/// The shapes of a run of blocks.
pub open spec fn blocks_view(blocks: Seq<ContentBlock>) -> Seq<BlockV> {
    Seq::new(blocks.len(), |i: int| blocks[i]@)
}

impl View for Message {
    type V = MessageV;

    open spec fn view(&self) -> MessageV {
        MessageV { role: self.role, content: blocks_view(self.content@) }
    }
}

impl View for AiResponse {
    type V = ResponseV;

    open spec fn view(&self) -> ResponseV {
        ResponseV { content: blocks_view(self.content@), stop_reason: self.stop_reason }
    }
}

/// The shapes of a conversation.
pub open spec fn msgs_view(messages: Seq<Message>) -> Seq<MessageV> {
    Seq::new(messages.len(), |i: int| messages[i]@)
}

/// The ids of the `ToolUse` blocks in a run, in order.
pub open spec fn use_ids(blocks: Seq<BlockV>) -> Seq<Seq<char>>
    decreases blocks.len(),
{
    if blocks.len() == 0 {
        Seq::empty()
    } else {
        let rest = use_ids(blocks.drop_last());
        match blocks.last() {
            BlockV::ToolUse { id, .. } => rest.push(id),
            _ => rest,
        }
    }
}

/// The referenced ids of the `ToolResult` blocks in a run, in order.
pub open spec fn result_ids(blocks: Seq<BlockV>) -> Seq<Seq<char>>
    decreases blocks.len(),
{
    if blocks.len() == 0 {
        Seq::empty()
    } else {
        let rest = result_ids(blocks.drop_last());
        match blocks.last() {
            BlockV::ToolResult { tool_use_id, .. } => rest.push(tool_use_id),
            _ => rest,
        }
    }
}

/// A block holds an image.
pub open spec fn is_image(b: BlockV) -> bool {
    b is Image
}

/// A message contains at least one image block.
pub open spec fn has_image(m: MessageV) -> bool {
    exists|i: int| 0 <= i < m.content.len() && is_image(#[trigger] m.content[i])
}

impl ContentBlock {
    /// A structurally equal copy of this block.
    pub fn duplicate(&self) -> (r: ContentBlock)
        ensures
            r@ == self@,
    {
        match self {
            ContentBlock::Text { text } => ContentBlock::Text { text: text.clone() },
            ContentBlock::Image { source } => ContentBlock::Image {
                source: ImageSource {
                    source_type: source.source_type.clone(),
                    media_type: source.media_type.clone(),
                    data: source.data.clone(),
                },
            },
            ContentBlock::ToolUse { id, name, input } => ContentBlock::ToolUse {
                id: id.clone(),
                name: name.clone(),
                input: input.duplicate(),
            },
            ContentBlock::ToolResult { tool_use_id, content, is_error } =>
                ContentBlock::ToolResult {
                tool_use_id: tool_use_id.clone(),
                content: content.clone(),
                is_error: *is_error,
            },
        }
    }
}

impl Message {
    /// A message whose blocks have the same shapes.
    pub fn duplicate(&self) -> (r: Message)
        ensures
            r@ == self@,
    {
        let mut content: Vec<ContentBlock> = Vec::new();
        let mut i: usize = 0;
        while i < self.content.len()
            invariant
                i <= self.content@.len(),
                content@.len() == i,
                forall|k: int| 0 <= k < i ==> content@[k]@ == self.content@[k]@,
            decreases self.content@.len() - i,
        {
            content.push(self.content[i].duplicate());
            i += 1;
        }
        proof {
            assert(blocks_view(content@) =~= blocks_view(self.content@));
        }
        Message { role: self.role, content }
    }
}

} // verus!
