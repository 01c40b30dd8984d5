//! The data that flows through the memory builder: dialogue lines as the game
//! stores them, tool calls, and the messages handed to an LLM.

use vstd::prelude::*;

verus! {

/// Who a dialogue line speaks as.
#[derive(Clone, Copy, Debug, PartialEq, Eq, Structural)]
pub enum LineAttribute {
    System,
    User,
    Assistant,
    Tool,
}

/// The attribute as it is stored on a line.
#[derive(Clone, Copy, Debug, PartialEq, Eq, Structural)]
pub struct LineAttributeExt(pub LineAttribute);

/// The stored fields of one dialogue line.
#[derive(Clone, Debug)]
pub struct LineBase {
    pub content: String,
    pub attribute: LineAttributeExt,
    pub sender_role_id: Option<i32>,
    pub display_name: Option<String>,
    pub original_emotion: Option<String>,
    pub action_content: Option<String>,
    pub tts_content: Option<String>,
    /// The tool calls of an assistant line, as JSON text.
    pub tool_call: Option<String>,
}

impl Default for LineBase {
    fn default() -> (r: Self)
        ensures
            r.content@ == Seq::<char>::empty(),
            r.attribute == LineAttributeExt(LineAttribute::User),
            r.sender_role_id is None,
            r.display_name is None,
            r.original_emotion is None,
            r.action_content is None,
            r.tts_content is None,
            r.tool_call is None,
    {
        LineBase {
            content: String::new(),
            attribute: LineAttributeExt(LineAttribute::User),
            sender_role_id: None,
            display_name: None,
            original_emotion: None,
            action_content: None,
            tts_content: None,
            tool_call: None,
        }
    }
}

/// A dialogue line together with the roles that perceived it.
#[derive(Clone, Debug)]
pub struct GameLine {
    pub base: LineBase,
    pub perceived_role_ids: Vec<i32>,
}

impl GameLine {
    pub fn from_base(base: LineBase, perceived_role_ids: Vec<i32>) -> (r: Self)
        ensures
            r.base == base,
            r.perceived_role_ids@ == perceived_role_ids@,
    {
        GameLine { base, perceived_role_ids }
    }

    pub fn sender_role_id(&self) -> (r: Option<i32>)
        ensures
            r == self.base.sender_role_id,
    {
        self.base.sender_role_id
    }

    pub fn attribute(&self) -> (r: &LineAttribute)
        ensures
            *r == self.base.attribute.0,
    {
        &self.base.attribute.0
    }

    pub fn content(&self) -> (r: &str)
        ensures
            r@ == self.base.content@,
    {
        self.base.content.as_str()
    }
}

/// The function a tool call invokes.
#[derive(Clone, Debug)]
pub struct ToolFunction {
    pub name: String,
    pub description: String,
    /// The parameters, as JSON text.
    pub parameters: String,
}

/// One tool call announced by an assistant message.
#[derive(Clone, Debug)]
pub struct ToolCall {
    pub id: String,
    pub function: ToolFunction,
}

/// A tool call as characters.
#[verifier::ext_equal]
pub struct ToolCallView {
    pub id: Seq<char>,
    pub name: Seq<char>,
    pub description: Seq<char>,
    pub parameters: Seq<char>,
}

impl View for ToolCall {
    type V = ToolCallView;

    open spec fn view(&self) -> ToolCallView {
        ToolCallView {
            id: self.id@,
            name: self.function.name@,
            description: self.function.description@,
            parameters: self.function.parameters@,
        }
    }
}

impl ToolCall {
    /// A copy of the call.
    pub fn duplicate(&self) -> (r: ToolCall)
        ensures
            r@ == self@,
    {
        ToolCall {
            id: self.id.clone(),
            function: ToolFunction {
                name: self.function.name.clone(),
                description: self.function.description.clone(),
                parameters: self.function.parameters.clone(),
            },
        }
    }
}

/// The calls of a list, as characters.
pub open spec fn calls_view(calls: Seq<ToolCall>) -> Seq<ToolCallView> {
    calls.map_values(|c: ToolCall| c@)
}

/// A copy of a list of calls.
pub fn duplicate_calls(calls: &Vec<ToolCall>) -> (r: Vec<ToolCall>)
    ensures
        calls_view(r@) == calls_view(calls@),
{
    let mut out: Vec<ToolCall> = Vec::new();
    let mut i: usize = 0;
    while i < calls.len()
        invariant
            i <= calls.len(),
            out@.len() == i,
            forall|j: int| 0 <= j < i ==> (#[trigger] out@[j])@ == calls@[j]@,
        decreases calls.len() - i,
    {
        out.push(calls[i].duplicate());
        i = i + 1;
    }
    assert(calls_view(out@) =~= calls_view(calls@));
    out
}

/// An optional string as characters.
pub open spec fn opt_view(o: Option<String>) -> Option<Seq<char>> {
    match o {
        Some(s) => Some(s@),
        None => None,
    }
}

/// A message of a chat with an LLM.
#[derive(Clone, Debug)]
pub struct LlmMessage {
    pub role: String,
    pub content: String,
    pub tool_calls: Option<Vec<ToolCall>>,
    pub tool_call_id: Option<String>,
}

/// A message as characters.
#[verifier::ext_equal]
pub struct MessageView {
    pub role: Seq<char>,
    pub content: Seq<char>,
    pub tool_calls: Option<Seq<ToolCallView>>,
    pub tool_call_id: Option<Seq<char>>,
}

impl View for LlmMessage {
    type V = MessageView;

    open spec fn view(&self) -> MessageView {
        MessageView {
            role: self.role@,
            content: self.content@,
            tool_calls: match self.tool_calls {
                Some(v) => Some(calls_view(v@)),
                None => None,
            },
            tool_call_id: opt_view(self.tool_call_id),
        }
    }
}

/// The messages of a list, as characters.
pub open spec fn messages_view(ms: Seq<LlmMessage>) -> Seq<MessageView> {
    ms.map_values(|m: LlmMessage| m@)
}

pub open spec fn role_system() -> Seq<char> {
    seq!['s', 'y', 's', 't', 'e', 'm']
}

pub open spec fn role_user() -> Seq<char> {
    seq!['u', 's', 'e', 'r']
}

pub open spec fn role_assistant() -> Seq<char> {
    seq!['a', 's', 's', 'i', 's', 't', 'a', 'n', 't']
}

pub open spec fn role_tool() -> Seq<char> {
    seq!['t', 'o', 'o', 'l']
}

/// A message with the given role and content and nothing else.
pub open spec fn plain_message(role: Seq<char>, content: Seq<char>) -> MessageView {
    MessageView { role, content, tool_calls: None, tool_call_id: None }
}

impl LlmMessage {
    pub fn system(content: String) -> (r: LlmMessage)
        ensures
            r@ == plain_message(role_system(), content@),
    {
        let role = "system".to_owned();
        proof {
            reveal_strlit("system");
        }
        LlmMessage { role, content, tool_calls: None, tool_call_id: None }
    }

    pub fn user(content: String) -> (r: LlmMessage)
        ensures
            r@ == plain_message(role_user(), content@),
    {
        let role = "user".to_owned();
        proof {
            reveal_strlit("user");
        }
        LlmMessage { role, content, tool_calls: None, tool_call_id: None }
    }

    pub fn assistant(content: String) -> (r: LlmMessage)
        ensures
            r@ == plain_message(role_assistant(), content@),
    {
        let role = "assistant".to_owned();
        proof {
            reveal_strlit("assistant");
        }
        LlmMessage { role, content, tool_calls: None, tool_call_id: None }
    }
}

} // verus!
