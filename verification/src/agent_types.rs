//! Small value types of the agent runtime and the decisions made on them:
//! fork options, hook prompt state, skill forks, target resolution and the
//! A2A framing helpers.
use vstd::prelude::*;
use crate::text::{str_eq, owned};
use std::collections::HashMap;
use crate::skill_tracker::string_views;
use crate::message::{Message, Part, PartView};

verus! {

/// A server-sent-events frame.
pub struct SseMessage {
    pub event: Option<String>,
    pub data: String,
}

impl SseMessage {
    pub fn new(event: Option<String>, data: String) -> (res: Self)
        ensures
            res.event == event,
            res.data == data,
    {
        SseMessage { event, data }
    }
}

/// Type of fork operation
#[derive(PartialEq, Eq, Structural, Clone, Copy, Debug)]
pub enum ForkType {
    /// Same thread and task, new run ID
    NewRun,
    /// Same thread, new task and run IDs
    NewTask,
    /// New thread, task, and run IDs (complete separation)
    NewThread,
}

/// Options for forking an executor context
pub struct ForkOptions {
    pub fork_type: ForkType,
    pub copy_history_limit: Option<usize>,
}

pub struct PromptTemplateOverride {
    pub system: Option<String>,
    pub user: Option<String>,
}

/// A named section contributed to the prompt by a hook.
pub struct PromptSection {
    pub name: String,
    pub content: String,
}

/// Prompt state contributed by hooks. `dynamic_values` maps a name to its
/// JSON text; names are unique. It is a list of pairs rather than a
/// `HashMap<String, _>`: vstd specifies a `HashMap` only for key types whose
/// hashing it models (integers, `bool`, boxes of them), not for `String`, so
/// over string keys a map's methods would carry no usable contract.
pub struct HookPromptState {
    pub dynamic_sections: Vec<PromptSection>,
    pub dynamic_values: Vec<(String, String)>,
    pub template_override: PromptTemplateOverride,
}

pub open spec fn value_keys(v: Seq<(String, String)>) -> Seq<Seq<char>> {
    v.map_values(|p: (String, String)| p.0@)
}

/// The name → JSON text map held by a list of pairs.
pub open spec fn value_map(v: Seq<(String, String)>) -> Map<Seq<char>, Seq<char>>
    decreases v.len(),
{
    if v.len() == 0 {
        Map::empty()
    } else {
        value_map(v.drop_last()).insert(v.last().0@, v.last().1@)
    }
}

pub open spec fn opt_view(o: Option<String>) -> Option<Seq<char>> {
    match o {
        Some(s) => Some(s@),
        None => None,
    }
}

impl HookPromptState {
    pub open spec fn wf(&self) -> bool {
        value_keys(self.dynamic_values@).no_duplicates()
    }

    /// Merge `other` into `self`: non-empty sections replace ours, values are
    /// inserted over ours, and each template override that is set replaces ours.
    pub fn merge_from(&mut self, other: HookPromptState)
        requires
            old(self).wf(),
        ensures
            final(self).wf(),
            final(self).dynamic_sections@ == if other.dynamic_sections@.len() > 0 {
                other.dynamic_sections@
            } else {
                old(self).dynamic_sections@
            },
            value_map(final(self).dynamic_values@) == value_map(old(self).dynamic_values@).union_prefer_right(
                value_map(other.dynamic_values@),
            ),
            opt_view(final(self).template_override.system) == if other.template_override.system is Some {
                opt_view(other.template_override.system)
            } else {
                opt_view(old(self).template_override.system)
            },
            opt_view(final(self).template_override.user) == if other.template_override.user is Some {
                opt_view(other.template_override.user)
            } else {
                opt_view(old(self).template_override.user)
            },
    {
        let HookPromptState { dynamic_sections, dynamic_values, template_override } = other;
        if dynamic_sections.len() > 0 {
            self.dynamic_sections = dynamic_sections;
        }
        insert_values(&mut self.dynamic_values, dynamic_values);
        if template_override.system.is_some() {
            self.template_override.system = template_override.system;
        }
        if template_override.user.is_some() {
            self.template_override.user = template_override.user;
        }
    }
}

/// Inserts each pair in order, later pairs winning.
fn insert_values(values: &mut Vec<(String, String)>, incoming: Vec<(String, String)>)
    requires
        value_keys(old(values)@).no_duplicates(),
    ensures
        value_keys(final(values)@).no_duplicates(),
        value_map(final(values)@) == value_map(old(values)@).union_prefer_right(value_map(incoming@)),
{
    let ghost base = value_map(values@);
    let ghost inc = incoming@;
    let mut rest = incoming;
    let mut taken: usize = 0;
    let ghost n = inc.len();
    assert(n == rest.len());
    assert(inc.take(0) =~= Seq::<(String, String)>::empty());
    assert(base.union_prefer_right(value_map(inc.take(0))) =~= base);
    while rest.len() > 0
        invariant
            taken + rest@.len() == n,
            n == inc.len(),
            n <= usize::MAX,
            rest@ == inc.skip(taken as int),
            value_keys(values@).no_duplicates(),
            value_map(values@) == base.union_prefer_right(value_map(inc.take(taken as int))),
        decreases rest@.len(),
    {
        let (k, v) = rest.remove(0);
        proof {
            assert(inc.take(taken + 1).drop_last() =~= inc.take(taken as int));
            assert(inc.take(taken + 1).last() == (k, v));
            assert(rest@ =~= inc.skip(taken + 1));
        }
        insert_value(values, k, v);
        proof {
            assert(base.union_prefer_right(value_map(inc.take(taken + 1))) =~= base.union_prefer_right(
                value_map(inc.take(taken as int)),
            ).insert(inc[taken as int].0@, inc[taken as int].1@));
        }
        taken = taken + 1;
    }
    assert(inc.take(taken as int) =~= inc);
}

impl HookPromptState {
    /// Applies a request's metadata: when it brings sections or values
    /// (either non-empty), given sections replace ours and given values are
    /// inserted over ours.
    pub fn apply_metadata(&mut self, sections: Option<Vec<PromptSection>>, values: Option<Vec<(String, String)>>)
        requires
            old(self).wf(),
        ensures
            final(self).wf(),
            ({
                let active = (sections matches Some(s) && s@.len() > 0) || (values matches Some(v) && v@.len() > 0);
                &&& final(self).dynamic_sections@ == (if active && sections is Some {
                    sections->0@
                } else {
                    old(self).dynamic_sections@
                })
                &&& value_map(final(self).dynamic_values@) == (if active && values is Some {
                    value_map(old(self).dynamic_values@).union_prefer_right(value_map(values->0@))
                } else {
                    value_map(old(self).dynamic_values@)
                })
            }),
            final(self).template_override == old(self).template_override,
    {
        let has_sections = match &sections {
            Some(s) => s.len() > 0,
            None => false,
        };
        let has_values = match &values {
            Some(v) => v.len() > 0,
            None => false,
        };
        if !(has_sections || has_values) {
            return;
        }
        match sections {
            Some(s) => {
                self.dynamic_sections = s;
            },
            None => {},
        }
        match values {
            Some(v) => insert_values(&mut self.dynamic_values, v),
            None => {},
        }
    }
}

proof fn lemma_value_map_update(v: Seq<(String, String)>, i: int, k: String, val: String)
    requires
        value_keys(v).no_duplicates(),
        0 <= i < v.len(),
        v[i].0@ == k@,
    ensures
        value_map(v.update(i, (k, val))) == value_map(v).insert(k@, val@),
    decreases v.len(),
{
    if i == v.len() - 1 {
        assert(v.update(i, (k, val)).drop_last() =~= v.drop_last());
        assert(value_map(v).insert(k@, val@) =~= value_map(v.drop_last()).insert(k@, val@));
    } else {
        let d = v.drop_last();
        assert(value_keys(d).no_duplicates()) by {
            assert forall|a: int, b: int| 0 <= a < b < value_keys(d).len() implies value_keys(d)[a] != value_keys(d)[b] by {
                assert(value_keys(d)[a] == value_keys(v)[a]);
                assert(value_keys(d)[b] == value_keys(v)[b]);
            }
        }
        lemma_value_map_update(d, i, k, val);
        assert(v.update(i, (k, val)).drop_last() =~= d.update(i, (k, val)));
        assert(value_keys(v)[i] != value_keys(v)[v.len() - 1]);
        assert(value_map(v.update(i, (k, val))) =~= value_map(v).insert(k@, val@));
    }
}

proof fn lemma_value_map_absent(v: Seq<(String, String)>, key: Seq<char>)
    requires
        !value_keys(v).contains(key),
    ensures
        !value_map(v).dom().contains(key),
    decreases v.len(),
{
    if v.len() > 0 {
        assert(value_keys(v)[v.len() - 1] == v.last().0@);
        assert forall|m: int| 0 <= m < value_keys(v.drop_last()).len() implies value_keys(v.drop_last())[m] != key by {
            assert(value_keys(v.drop_last())[m] == value_keys(v)[m]);
        }
        lemma_value_map_absent(v.drop_last(), key);
    }
}

/// Inserts `k → val`, replacing the value of an existing `k`.
fn insert_value(values: &mut Vec<(String, String)>, k: String, val: String)
    requires
        value_keys(old(values)@).no_duplicates(),
    ensures
        value_keys(final(values)@).no_duplicates(),
        value_map(final(values)@) == value_map(old(values)@).insert(k@, val@),
{
    let mut i: usize = 0;
    while i < values.len()
        invariant
            i <= values.len(),
            values@ == old(values)@,
            value_keys(old(values)@).no_duplicates(),
            forall|m: int| 0 <= m < i ==> #[trigger] values@[m].0@ != k@,
        decreases values.len() - i,
    {
        if values[i].0 == k {
            proof {
                lemma_value_map_update(values@, i as int, k, val);
            }
            let ghost before = values@;
            values.set(i, (k, val));
            proof {
                assert forall|a: int, b: int| 0 <= a < b < value_keys(values@).len() implies value_keys(values@)[a]
                    != value_keys(values@)[b] by {
                    assert(value_keys(values@)[a] == value_keys(before)[a]);
                    assert(value_keys(values@)[b] == value_keys(before)[b]);
                }
            }
            return;
        }
        i = i + 1;
    }
    let ghost before = values@;
    proof {
        assert forall|m: int| 0 <= m < value_keys(before).len() implies value_keys(before)[m] != k@ by {
            assert(value_keys(before)[m] == before[m].0@);
        }
        lemma_value_map_absent(before, k@);
    }
    values.push((k, val));
    proof {
        assert(values@.drop_last() =~= before);
        assert forall|a: int, b: int| 0 <= a < b < value_keys(values@).len() implies value_keys(values@)[a]
            != value_keys(values@)[b] by {
            if b == values@.len() - 1 {
                assert(value_keys(values@)[a] == before[a].0@);
            } else {
                assert(value_keys(values@)[a] == value_keys(before)[a]);
                assert(value_keys(values@)[b] == value_keys(before)[b]);
            }
        }
    }
}

/// Inline hook dispatcher settings.
pub struct InlineHook {
    pub timeout_ms: u64,
}

impl InlineHook {
    /// A dispatcher waiting `timeout_ms` (default 30 000 ms) for a hook's answer.
    pub fn new(timeout_ms: Option<u64>) -> (res: Self)
        ensures
            res.timeout_ms == timeout_ms.unwrap_or(30_000),
    {
        InlineHook {
            timeout_ms: match timeout_ms {
                Some(t) => t,
                None => 30_000,
            },
        }
    }
}

/// Hooks that do nothing.
pub struct DefaultHooks;

pub enum MemoryConfig {
    InMemory,
    File(String),
}

pub struct DefaultMemoryManager {
    pub memory: HashMap<String, String>,
}

impl DefaultMemoryManager {
    pub fn new() -> (res: Self)
        ensures
            res.memory@ == Map::<String, String>::empty(),
    {
        DefaultMemoryManager { memory: HashMap::new() }
    }
}

/// Memory record for storing step results
pub struct MemoryRecord {
    pub step_id: String,
    pub timestamp: i64,
    pub message: String,
    pub notes: Option<String>,
}

/// Reflection log for post-execution analysis
pub struct ReflectionLog {
    pub summary: String,
    pub related_steps: Vec<String>,
    pub suggestions: Vec<String>,
    pub timestamp: i64,
}

/// Inputs to a skill fork: the skill id, its body (appended to the running
/// agent's instructions for the forked child) and an optional preferred model.
pub struct SkillFork {
    pub skill_id: String,
    pub body: String,
    pub model: Option<String>,
}

impl From<(String, String)> for SkillFork {
    fn from(pair: (String, String)) -> (res: Self) {
        let (skill_id, body) = pair;
        SkillFork { skill_id, body, model: None }
    }
}

impl vstd::std_specs::convert::FromSpecImpl<(String, String)> for SkillFork {
    open spec fn obeys_from_spec() -> bool {
        true
    }

    open spec fn from_spec(pair: (String, String)) -> Self {
        SkillFork { skill_id: pair.0, body: pair.1, model: None }
    }
}

impl From<(String, String, Option<String>)> for SkillFork {
    fn from(triple: (String, String, Option<String>)) -> (res: Self) {
        let (skill_id, body, model) = triple;
        SkillFork { skill_id, body, model }
    }
}

impl vstd::std_specs::convert::FromSpecImpl<(String, String, Option<String>)> for SkillFork {
    open spec fn obeys_from_spec() -> bool {
        true
    }

    open spec fn from_spec(triple: (String, String, Option<String>)) -> Self {
        SkillFork { skill_id: triple.0, body: triple.1, model: triple.2 }
    }
}

pub open spec fn spec_fork_overlay(body: Seq<char>, model: Option<String>) -> Seq<char> {
    match model {
        Some(m) => body + "\n\n<!-- skill preferred model: "@ + m@ + " -->"@,
        None => body,
    }
}

impl SkillFork {
    /// What a fork runs: the instruction overlay (the skill body, with the
    /// preferred model as a hint comment) and the task message text.
    pub fn request(self) -> (res: (String, String))
        ensures
            res.0@ == spec_fork_overlay(self.body@, self.model),
            res.1@ == "Execute the skill '"@ + self.skill_id@ + "' according to your instructions."@,
    {
        let SkillFork { skill_id, body, model } = self;
        let overlay = match model {
            Some(m) => {
                let mut o = body;
                o.append("\n\n<!-- skill preferred model: ");
                o.append(m.as_str());
                o.append(" -->");
                o
            },
            None => body,
        };
        let mut text = owned("Execute the skill '");
        text.append(skill_id.as_str());
        text.append("' according to your instructions.");
        (overlay, text)
    }
}

/// The final content of a forked skill run: nothing, a string, or other
/// JSON (held as its compact JSON text).
pub enum SkillOutput {
    Null,
    Text(String),
    Json(String),
}

pub open spec fn spec_skill_gist(skill_id: Seq<char>, out: SkillOutput) -> Seq<char> {
    let gist = match out {
        SkillOutput::Null => "Skill '"@ + skill_id + "' completed without output."@,
        SkillOutput::Text(s) => s@,
        SkillOutput::Json(j) => j@,
    };
    "[Skill '"@ + skill_id + "' result]\n"@ + gist
}

/// Format a forked skill's result as `[Skill 'id' result]\n<gist>`.
pub fn skill_gist(skill_id: &str, content: &SkillOutput) -> (res: String)
    ensures
        res@ == spec_skill_gist(skill_id@, *content),
{
    let mut out = owned("[Skill '");
    out.append(skill_id);
    out.append("' result]\n");
    match content {
        SkillOutput::Null => {
            out.append("Skill '");
            out.append(skill_id);
            out.append("' completed without output.");
        },
        SkillOutput::Text(s) => out.append(s.as_str()),
        SkillOutput::Json(j) => out.append(j.as_str()),
    }
    out
}

/// The builtin tools a parent may hand to a dispatched worker.
pub struct ToolsConfig {
    pub builtin: Vec<String>,
}

/// Per-run changes to an agent definition.
pub struct DefinitionOverrides {
    pub instructions: Option<String>,
    pub instructions_append: Option<String>,
    pub tools: Option<ToolsConfig>,
}

/// Which agent a dispatch targets.
pub enum AgentRef {
    /// A defined agent, optionally with an instruction overlay (a skill fork).
    Named { agent_id: String, instructions_overlay: Option<String> },
    /// An ad-hoc worker with its own system prompt and optional tools.
    AdHoc { system_prompt: String, tools: Option<ToolsConfig> },
}

/// What a target resolves to at dispatch time.
pub struct ResolvedTarget {
    pub agent_id: String,
    pub definition_overrides: Option<DefinitionOverrides>,
}

impl ResolvedTarget {
    /// Named agents keep their id and get the overlay appended to their
    /// instructions; ad-hoc workers run `_adhoc_base` with the system prompt
    /// appended and the explicit tools, else the inherited ones.
    pub fn from_target(agent: AgentRef, inherited_tools: Option<ToolsConfig>) -> (res: Self)
        ensures
            match agent {
                AgentRef::Named { agent_id, instructions_overlay } => {
                    &&& res.agent_id == agent_id
                    &&& match instructions_overlay {
                        Some(overlay) => res.definition_overrides matches Some(o) && o.instructions_append
                            == Some(overlay) && o.instructions is None && o.tools is None,
                        None => res.definition_overrides is None,
                    }
                },
                AgentRef::AdHoc { system_prompt, tools } => {
                    &&& res.agent_id@ == "_adhoc_base"@
                    &&& res.definition_overrides matches Some(o) && o.instructions_append == Some(system_prompt)
                        && o.instructions is None && o.tools == (if tools is Some {
                        tools
                    } else {
                        inherited_tools
                    })
                },
            },
    {
        match agent {
            AgentRef::Named { agent_id, instructions_overlay } => ResolvedTarget {
                agent_id,
                definition_overrides: match instructions_overlay {
                    Some(overlay) => Some(
                        DefinitionOverrides { instructions: None, instructions_append: Some(overlay), tools: None },
                    ),
                    None => None,
                },
            },
            AgentRef::AdHoc { system_prompt, tools } => {
                let effective_tools = match tools {
                    Some(t) => Some(t),
                    None => inherited_tools,
                };
                ResolvedTarget {
                    agent_id: owned("_adhoc_base"),
                    definition_overrides: Some(
                        DefinitionOverrides {
                            instructions: None,
                            instructions_append: Some(system_prompt),
                            tools: effective_tools,
                        },
                    ),
                }
            },
        }
    }
}

/// Drops the builtin tools that must not cross from a parent into a worker
/// (`write_todos`).
pub fn filter_for_subtask(tools: ToolsConfig) -> (res: ToolsConfig)
    ensures
        string_views(res.builtin@) == string_views(tools.builtin@).filter(|n: Seq<char>| n != "write_todos"@),
{
    let ghost orig = string_views(tools.builtin@);
    let ghost pred = |n: Seq<char>| n != "write_todos"@;
    let mut kept: Vec<String> = Vec::new();
    let mut i: usize = 0;
    let todos = owned("write_todos");
    proof {
        reveal_with_fuel(Seq::filter, 1);
        assert(orig.take(0) =~= Seq::<Seq<char>>::empty());
    }
    while i < tools.builtin.len()
        invariant
            i <= tools.builtin.len(),
            orig == string_views(tools.builtin@),
            todos@ == "write_todos"@,
            pred == (|n: Seq<char>| n != "write_todos"@),
            string_views(kept@) == orig.take(i as int).filter(pred),
        decreases tools.builtin.len() - i,
    {
        proof {
            reveal_with_fuel(Seq::filter, 1);
            assert(orig.take(i + 1).drop_last() =~= orig.take(i as int));
            assert(orig.take(i + 1).last() == tools.builtin@[i as int]@);
        }
        if tools.builtin[i] != todos {
            let ghost before = string_views(kept@);
            kept.push(tools.builtin[i].clone());
            assert(string_views(kept@) =~= before.push(tools.builtin@[i as int]@));
        }
        i = i + 1;
    }
    assert(orig.take(i as int) =~= orig);
    ToolsConfig { builtin: kept }
}

/// A part of an A2A message. A data part carries its JSON text and the
/// string at its top-level `part_type` key, when that key holds a string.
pub enum A2aPart {
    Text(String),
    Data { json: String, part_type: Option<String> },
    File(String),
}

pub open spec fn is_tool_result_part(p: A2aPart) -> bool {
    match p {
        A2aPart::Data { part_type: Some(t), .. } => t@ == "tool_result"@,
        _ => false,
    }
}

pub open spec fn is_message_method(method: Seq<char>) -> bool {
    method == "message/stream"@ || method == "message/send"@
}

/// A message sent with `message/stream` or `message/send` that carries a
/// tool result must name the task it belongs to.
pub fn check_tool_result_task(method: &str, parts: &[A2aPart], has_task_id: bool) -> (res: Result<(), AgentError>)
    ensures
        (is_message_method(method@) && !has_task_id && exists|k: int|
            0 <= k < parts@.len() && is_tool_result_part(#[trigger] parts@[k])) <==> res is Err,
        res matches Err(e) ==> (e matches AgentError::Validation(m) && m@
            == "task_id is required for messages containing tool results"@),
{
    if !(str_eq(method, "message/stream") || str_eq(method, "message/send")) || has_task_id {
        return Ok(());
    }
    let mut i: usize = 0;
    while i < parts.len()
        invariant
            i <= parts.len(),
            is_message_method(method@),
            !has_task_id,
            forall|k: int| 0 <= k < i ==> !is_tool_result_part(#[trigger] parts@[k]),
        decreases parts.len() - i,
    {
        let hit = match &parts[i] {
            A2aPart::Data { part_type: Some(t), .. } => str_eq(t.as_str(), "tool_result"),
            _ => false,
        };
        if hit {
            assert(is_tool_result_part(parts@[i as int]));
            return Err(AgentError::Validation(owned("task_id is required for messages containing tool results")));
        }
        i = i + 1;
    }
    Ok(())
}

/// Whether a request runs dry: the parsed metadata's `dry_run` when set,
/// else the boolean at the raw metadata's `dry_run` key, else no.
pub fn resolve_dry_run(parsed: Option<bool>, raw: Option<bool>) -> (res: bool)
    ensures
        res == match parsed {
            Some(b) => b,
            None => match raw {
                Some(b) => b,
                None => false,
            },
        },
{
    match parsed {
        Some(b) => b,
        None => match raw {
            Some(b) => b,
            None => false,
        },
    }
}

/// The given id, or a fresh random one.
pub fn id_or_fresh(id: Option<String>) -> (res: String)
    ensures
        id matches Some(s) ==> res == s,
{
    match id {
        Some(s) => s,
        None => crate::planning::new_uuid(),
    }
}

pub open spec fn a2a_texts(parts: Seq<A2aPart>) -> Seq<Seq<char>>
    decreases parts.len(),
{
    if parts.len() == 0 {
        Seq::empty()
    } else {
        match parts.last() {
            A2aPart::Text(t) => a2a_texts(parts.drop_last()).push(t@),
            _ => a2a_texts(parts.drop_last()),
        }
    }
}

/// The text parts of a message joined by spaces, or `None` when that is empty.
pub fn extract_text_from_message(parts: &[A2aPart]) -> (res: Option<String>)
    ensures
        ({
            let joined = crate::text::spec_join(a2a_texts(parts@), " "@);
            &&& joined.len() == 0 ==> res is None
            &&& joined.len() > 0 ==> res is Some && res->0@ == joined
        }),
{
    let mut texts: Vec<Vec<char>> = Vec::new();
    let mut i: usize = 0;
    while i < parts.len()
        invariant
            i <= parts.len(),
            crate::prompt_validation::char_views(texts@) == a2a_texts(parts@.take(i as int)),
        decreases parts.len() - i,
    {
        assert(parts@.take(i + 1).drop_last() =~= parts@.take(i as int));
        match &parts[i] {
            A2aPart::Text(t) => {
                let ghost before = crate::prompt_validation::char_views(texts@);
                texts.push(crate::text::str_chars(t.as_str()));
                assert(crate::prompt_validation::char_views(texts@) =~= before.push(t@));
            },
            _ => {},
        }
        i = i + 1;
    }
    assert(parts@.take(i as int) =~= parts@);
    let sep = crate::text::str_chars(" ");
    let joined = crate::text::join_chars(&texts, sep.as_slice());
    if joined.len() == 0 {
        None
    } else {
        Some(crate::text::string_from_chars(joined.as_slice()))
    }
}

/// Errors surfaced to A2A clients, by kind.
#[derive(Debug)]
pub enum AgentError {
    Validation(String),
    NotFound(String),
    /// A planning or completion failure of the agent loop.
    Planning(String),
    /// A tool call that could not be carried out.
    ToolExecution(String),
    /// A dispatch or session that cannot go ahead.
    Session(String),
    /// Any other error, with its rendered message.
    Other(String),
}

/// A JSON-RPC error object.
pub struct JsonRpcError {
    pub code: i64,
    pub message: String,
}

/// Map an agent error onto the JSON-RPC error code space: validation errors
/// are `-32602 Invalid params`, not-found is `-32004`, anything else is
/// `-32603 Internal error` carrying the error's message.
pub fn agent_error_to_jsonrpc(e: AgentError) -> (res: JsonRpcError)
    ensures
        match e {
            AgentError::Validation(m) => res.code == -32602 && res.message == m,
            AgentError::NotFound(m) => res.code == -32004 && res.message == m,
            AgentError::Planning(m) => res.code == -32603 && res.message == m,
            AgentError::ToolExecution(m) => res.code == -32603 && res.message == m,
            AgentError::Session(m) => res.code == -32603 && res.message == m,
            AgentError::Other(m) => res.code == -32603 && res.message == m,
        },
{
    match e {
        AgentError::Validation(m) => JsonRpcError { code: -32602, message: m },
        AgentError::NotFound(m) => JsonRpcError { code: -32004, message: m },
        AgentError::Planning(m) => JsonRpcError { code: -32603, message: m },
        AgentError::ToolExecution(m) => JsonRpcError { code: -32603, message: m },
        AgentError::Session(m) => JsonRpcError { code: -32603, message: m },
        AgentError::Other(m) => JsonRpcError { code: -32603, message: m },
    }
}

/// Whether a part can carry a user turn: text or a tool's answer.
pub open spec fn is_user_turn_part(p: PartView) -> bool {
    p is Text || p is ToolResult
}

/// A user message is accepted when it has parts and one of them is text or
/// a tool's answer; otherwise a validation error says which is missing.
pub fn validate_user_message(message: &Message) -> (res: Result<(), AgentError>)
    ensures
        message@.parts.len() == 0 ==> (res matches Err(AgentError::Validation(m)) && m@ == "Message has no parts"@),
        message@.parts.len() > 0 && !(exists|i: int| 0 <= i < message@.parts.len() && #[trigger] is_user_turn_part(message@.parts[i]))
            ==> (res matches Err(AgentError::Validation(m)) && m@ == "Message has to contain either text or tool parts"@),
        res is Ok <==> (exists|i: int| 0 <= i < message@.parts.len() && #[trigger] is_user_turn_part(message@.parts[i])),
{
    if message.parts.len() == 0 {
        return Err(AgentError::Validation(owned("Message has no parts")));
    }
    let mut i: usize = 0;
    while i < message.parts.len()
        invariant
            i <= message.parts.len(),
            message@.parts.len() == message.parts.len(),
            forall|j: int| 0 <= j < i ==> !#[trigger] is_user_turn_part(message@.parts[j]),
        decreases message.parts.len() - i,
    {
        let ok = match &message.parts[i] {
            Part::Text(_) => true,
            Part::ToolResult(_) => true,
            _ => false,
        };
        assert(message@.parts[i as int] == message.parts@[i as int]@);
        assert(ok == is_user_turn_part(message@.parts[i as int]));
        if ok {
            return Ok(());
        }
        i = i + 1;
    }
    Err(AgentError::Validation(owned("Message has to contain either text or tool parts")))
}

} // verus!
