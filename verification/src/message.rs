//! Conversation messages and their parts, as the history logic reads them.
use vstd::prelude::*;

verus! {

#[derive(PartialEq, Eq, Structural, Clone, Copy, Debug)]
pub enum MessageRole {
    System,
    User,
    Assistant,
    Tool,
}

/// A tool invocation requested by the model; `input` is its JSON text.
#[derive(Debug)]
pub struct ToolCall {
    pub tool_call_id: String,
    pub tool_name: String,
    pub input: String,
}

/// The answer to a tool call.
#[derive(Debug)]
pub struct ToolResponse {
    pub tool_call_id: String,
    pub tool_name: String,
    pub parts: Vec<ResultPart>,
}

/// A structured data part: its JSON text and the boolean at its top-level
/// `should_continue` key, when that key holds a boolean.
#[derive(Debug)]
pub struct DataPart {
    pub json: String,
    pub should_continue: Option<bool>,
}

/// A part of a tool's answer.
#[derive(Debug)]
pub enum ResultPart {
    Text(String),
    Data(DataPart),
    Image(String),
    File(String),
    Artifact(String),
}

#[derive(Debug)]
pub enum Part {
    Text(String),
    ToolCall(ToolCall),
    ToolResult(ToolResponse),
    Data(DataPart),
    /// An image, by reference (URL or file id).
    Image(String),
    /// A file, by reference.
    File(String),
    /// A stored artifact, by file id.
    Artifact(String),
}

/// The content of a part.
pub enum PartView {
    Text(String),
    ToolCall(ToolCall),
    ToolResult { tool_call_id: String, tool_name: String, parts: Seq<ResultPart> },
    Data(DataPart),
    Image(String),
    File(String),
    Artifact(String),
}

impl View for Part {
    type V = PartView;

    open spec fn view(&self) -> PartView {
        match self {
            Part::Text(t) => PartView::Text(*t),
            Part::ToolCall(tc) => PartView::ToolCall(*tc),
            Part::ToolResult(tr) => PartView::ToolResult {
                tool_call_id: tr.tool_call_id,
                tool_name: tr.tool_name,
                parts: tr.parts@,
            },
            Part::Data(d) => PartView::Data(*d),
            Part::Image(r) => PartView::Image(*r),
            Part::File(r) => PartView::File(*r),
            Part::Artifact(r) => PartView::Artifact(*r),
        }
    }
}

pub open spec fn parts_view(parts: Seq<Part>) -> Seq<PartView> {
    parts.map_values(|p: Part| p@)
}

#[derive(Debug)]
pub struct Message {
    pub id: String,
    pub name: Option<String>,
    pub role: MessageRole,
    pub parts: Vec<Part>,
    pub created_at: i64,
}

/// The content of a message.
pub struct MessageView {
    pub id: String,
    pub name: Option<String>,
    pub role: MessageRole,
    pub parts: Seq<PartView>,
    pub created_at: i64,
}

impl View for Message {
    type V = MessageView;

    open spec fn view(&self) -> MessageView {
        MessageView {
            id: self.id,
            name: self.name,
            role: self.role,
            parts: parts_view(self.parts@),
            created_at: self.created_at,
        }
    }
}

pub open spec fn messages_view(m: Seq<Message>) -> Seq<MessageView> {
    m.map_values(|x: Message| x@)
}

fn clone_string(s: &String) -> (res: String)
    ensures
        res == *s,
{
    s.clone()
}

fn clone_opt_string(s: &Option<String>) -> (res: Option<String>)
    ensures
        res == *s,
{
    match s {
        Some(x) => Some(clone_string(x)),
        None => None,
    }
}

impl ResultPart {
    /// A copy of this part.
    pub fn duplicate(&self) -> (res: ResultPart)
        ensures
            res == *self,
    {
        match self {
            ResultPart::Text(t) => ResultPart::Text(clone_string(t)),
            ResultPart::Data(d) => ResultPart::Data(DataPart { json: clone_string(&d.json), should_continue: d.should_continue }),
            ResultPart::Image(r) => ResultPart::Image(clone_string(r)),
            ResultPart::File(r) => ResultPart::File(clone_string(r)),
            ResultPart::Artifact(r) => ResultPart::Artifact(clone_string(r)),
        }
    }
}

fn duplicate_result_parts(parts: &Vec<ResultPart>) -> (res: Vec<ResultPart>)
    ensures
        res@ == parts@,
{
    let mut res: Vec<ResultPart> = Vec::new();
    let mut i: usize = 0;
    while i < parts.len()
        invariant
            i <= parts.len(),
            res@ == parts@.take(i as int),
        decreases parts.len() - i,
    {
        res.push(parts[i].duplicate());
        i = i + 1;
        assert(res@ =~= parts@.take(i as int));
    }
    assert(parts@.take(i as int) =~= parts@);
    res
}

impl Part {
    /// A copy of this part.
    pub fn duplicate(&self) -> (res: Part)
        ensures
            res@ == self@,
    {
        match self {
            Part::Text(t) => Part::Text(clone_string(t)),
            Part::ToolCall(tc) => Part::ToolCall(
                ToolCall {
                    tool_call_id: clone_string(&tc.tool_call_id),
                    tool_name: clone_string(&tc.tool_name),
                    input: clone_string(&tc.input),
                },
            ),
            Part::ToolResult(tr) => Part::ToolResult(
                ToolResponse {
                    tool_call_id: clone_string(&tr.tool_call_id),
                    tool_name: clone_string(&tr.tool_name),
                    parts: duplicate_result_parts(&tr.parts),
                },
            ),
            Part::Data(d) => Part::Data(DataPart { json: clone_string(&d.json), should_continue: d.should_continue }),
            Part::Image(r) => Part::Image(clone_string(r)),
            Part::File(r) => Part::File(clone_string(r)),
            Part::Artifact(r) => Part::Artifact(clone_string(r)),
        }
    }
}

/// A copy of a list of parts.
pub fn duplicate_parts(parts: &Vec<Part>) -> (res: Vec<Part>)
    ensures
        parts_view(res@) == parts_view(parts@),
{
    let mut res: Vec<Part> = Vec::new();
    let mut i: usize = 0;
    while i < parts.len()
        invariant
            i <= parts.len(),
            res@.len() == i,
            forall|k: int| 0 <= k < i ==> #[trigger] res@[k]@ == parts@[k]@,
        decreases parts.len() - i,
    {
        res.push(parts[i].duplicate());
        i = i + 1;
    }
    assert(parts_view(res@) =~= parts_view(parts@));
    res
}

impl Message {
    /// A copy of this message.
    pub fn duplicate(&self) -> (res: Message)
        ensures
            res@ == self@,
    {
        Message {
            id: clone_string(&self.id),
            name: clone_opt_string(&self.name),
            role: self.role,
            parts: duplicate_parts(&self.parts),
            created_at: self.created_at,
        }
    }
}

} // verus!
