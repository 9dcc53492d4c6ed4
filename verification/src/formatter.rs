//! Message formatting for planning: ordering of conversation history, the
//! checks made on execution parts, and the names and limits the prompt uses.
use vstd::prelude::*;
use vstd::multiset::Multiset;
use crate::definition::{AgentStrategy, ExecutionMode, ReasoningDepth, RuntimeMode, StandardDefinition, ToolCallFormat};
use crate::prompt_validation::char_views;
use crate::skill_tracker::string_views;
use crate::text::{chars_eq, first_occ, find_first, is_whitespace, owned, skip_whitespace, skip_ws, spec_is_whitespace, str_chars, string_from_chars, lemma_first_occ, lemma_skip_ws_bounds};
use crate::agent_types::PromptTemplateOverride;
use crate::message::{Message, MessageRole, MessageView, Part, PartView, ResultPart, messages_view, parts_view};

verus! {

/// Insert `x` into a sequence ordered by ascending `created_at`, after every
/// message created at the same time or earlier.
pub open spec fn insert_by_time(sorted: Seq<MessageView>, x: MessageView) -> Seq<MessageView>
    decreases sorted.len(),
{
    if sorted.len() == 0 {
        seq![x]
    } else if sorted.last().created_at <= x.created_at {
        sorted.push(x)
    } else {
        insert_by_time(sorted.drop_last(), x).push(sorted.last())
    }
}

/// Stable ordering by ascending `created_at` (what `sort_by_key` gives).
pub open spec fn sort_by_time(s: Seq<MessageView>) -> Seq<MessageView>
    decreases s.len(),
{
    if s.len() == 0 {
        Seq::empty()
    } else {
        insert_by_time(sort_by_time(s.drop_last()), s.last())
    }
}

/// Merge of time-ordered user and tool messages: a tool message comes before
/// a user message exactly when it was created strictly earlier.
pub open spec fn merge_by_time(users: Seq<MessageView>, tools: Seq<MessageView>) -> Seq<MessageView>
    decreases users.len() + tools.len(),
{
    if users.len() == 0 {
        tools
    } else if tools.len() == 0 {
        users
    } else if tools[0].created_at < users[0].created_at {
        seq![tools[0]] + merge_by_time(users, tools.drop_first())
    } else {
        seq![users[0]] + merge_by_time(users.drop_first(), tools)
    }
}

pub open spec fn other_message(id: Seq<char>) -> spec_fn(MessageView) -> bool {
    |m: MessageView| m.id@ != id
}

/// Non-decreasing `created_at`.
pub open spec fn time_sorted(s: Seq<MessageView>) -> bool {
    forall|i: int, j: int| 0 <= i < j < s.len() ==> #[trigger] s[i].created_at <= #[trigger] s[j].created_at
}

proof fn lemma_insert_by_time_at(sorted: Seq<MessageView>, x: MessageView, j: int)
    requires
        0 <= j <= sorted.len(),
        forall|k: int| j <= k < sorted.len() ==> #[trigger] sorted[k].created_at > x.created_at,
        j > 0 ==> sorted[j - 1].created_at <= x.created_at,
    ensures
        insert_by_time(sorted, x) == sorted.insert(j, x),
    decreases sorted.len(),
{
    if sorted.len() == 0 {
        assert(sorted.insert(j, x) =~= seq![x]);
    } else if j == sorted.len() {
        assert(sorted.insert(j, x) =~= sorted.push(x));
    } else {
        lemma_insert_by_time_at(sorted.drop_last(), x, j);
        assert(sorted.drop_last().insert(j, x).push(sorted.last()) =~= sorted.insert(j, x));
    }
}

/// Stable sort of messages by `created_at`.
pub fn sort_messages_by_time(messages: Vec<Message>) -> (res: Vec<Message>)
    ensures
        messages_view(res@) == sort_by_time(messages_view(messages@)),
{
    let ghost orig = messages_view(messages@);
    let mut rest = messages;
    let mut sorted: Vec<Message> = Vec::new();
    let mut taken: usize = 0;
    let ghost n = orig.len();
    assert(n == rest.len());
    assert(orig.take(0) =~= Seq::<MessageView>::empty());
    while rest.len() > 0
        invariant
            taken + rest@.len() == n,
            n <= usize::MAX,
            n == orig.len(),
            messages_view(rest@) == orig.skip(taken as int),
            messages_view(sorted@) == sort_by_time(orig.take(taken as int)),
        decreases rest@.len(),
    {
        let ghost old_rest = rest@;
        let x = rest.remove(0);
        let mut j: usize = sorted.len();
        while j > 0 && sorted[j - 1].created_at > x.created_at
            invariant
                j <= sorted.len(),
                forall|k: int| j <= k < sorted.len() ==> #[trigger] sorted@[k].created_at > x.created_at,
            decreases j,
        {
            j = j - 1;
        }
        proof {
            let sv = messages_view(sorted@);
            assert forall|k: int| j <= k < sv.len() implies #[trigger] sv[k].created_at > x@.created_at by {
                assert(sv[k] == sorted@[k]@);
            }
            if j > 0 {
                assert(sv[j - 1] == sorted@[j - 1]@);
            }
            lemma_insert_by_time_at(sv, x@, j as int);
            assert(orig.skip(taken as int)[0] == x@);
            assert(orig.take(taken + 1).drop_last() =~= orig.take(taken as int));
            assert(orig.take(taken + 1).last() == x@);
            assert forall|k: int| 0 <= k < rest@.len() implies #[trigger] messages_view(rest@)[k] == orig.skip(taken + 1)[k] by {
                assert(rest@[k] == old_rest[k + 1]);
                assert(messages_view(old_rest)[k + 1] == orig.skip(taken as int)[k + 1]);
            }
            assert(messages_view(rest@) =~= orig.skip(taken + 1));
        }
        let ghost sv_before = messages_view(sorted@);
        sorted.insert(j, x);
        assert(messages_view(sorted@) =~= sv_before.insert(j as int, x@));
        taken = taken + 1;
    }
    assert(orig.take(taken as int) =~= orig);
    sorted
}

fn merge_messages(users: Vec<Message>, tools: Vec<Message>) -> (res: Vec<Message>)
    ensures
        messages_view(res@) == merge_by_time(messages_view(users@), messages_view(tools@)),
{
    let ghost target = merge_by_time(messages_view(users@), messages_view(tools@));
    let mut u = users;
    let mut t = tools;
    let mut out: Vec<Message> = Vec::new();
    assert(messages_view(out@) + target =~= target);
    while u.len() > 0 || t.len() > 0
        invariant
            messages_view(out@) + merge_by_time(messages_view(u@), messages_view(t@)) == target,
        decreases u@.len() + t@.len(),
    {
        let ghost uvw = messages_view(u@);
        let ghost tvw = messages_view(t@);
        let ghost before = messages_view(out@);
        if u.len() == 0 {
            let m = t.remove(0);
            proof {
                assert(tvw[0] == m@);
                assert(messages_view(t@) =~= tvw.drop_first());
                assert(merge_by_time(uvw, tvw) == tvw);
                assert(merge_by_time(messages_view(u@), messages_view(t@)) == tvw.drop_first());
            }
            out.push(m);
            assert(messages_view(out@) + tvw.drop_first() =~= before + tvw);
        } else if t.len() == 0 || t[0].created_at < u[0].created_at {
            if t.len() == 0 {
                let m = u.remove(0);
                proof {
                    assert(uvw[0] == m@);
                    assert(messages_view(u@) =~= uvw.drop_first());
                    assert(merge_by_time(uvw, tvw) == uvw);
                    assert(merge_by_time(messages_view(u@), messages_view(t@)) == uvw.drop_first());
                }
                out.push(m);
                assert(messages_view(out@) + uvw.drop_first() =~= before + uvw);
            } else {
                let m = t.remove(0);
                proof {
                    assert(tvw[0] == m@);
                    assert(uvw[0] == u@[0]@);
                    assert(messages_view(t@) =~= tvw.drop_first());
                }
                out.push(m);
                assert(messages_view(out@) + merge_by_time(messages_view(u@), messages_view(t@)) =~= before + (
                seq![tvw[0]] + merge_by_time(uvw, tvw.drop_first())));
            }
        } else {
            let m = u.remove(0);
            proof {
                assert(uvw[0] == m@);
                assert(tvw[0] == t@[0]@);
                assert(messages_view(u@) =~= uvw.drop_first());
            }
            out.push(m);
            assert(messages_view(out@) + merge_by_time(messages_view(u@), messages_view(t@)) =~= before + (seq![
                uvw[0]] + merge_by_time(uvw.drop_first(), tvw)));
        }
    }
    assert(merge_by_time(messages_view(u@), messages_view(t@)) =~= Seq::<MessageView>::empty());
    assert(messages_view(out@) + Seq::<MessageView>::empty() =~= messages_view(out@));
    out
}

/// `text`, trimmed, starts with a ReAct `Observation:` or `Action:` label.
pub open spec fn spec_is_observation_text(text: Seq<char>) -> bool {
    let t = crate::text::spec_trim(text);
    crate::text::spec_starts_with(t, "Observation:"@) || crate::text::spec_starts_with(t, "Action:"@)
}

pub const MIN_SCRATCHPAD_ENTRY_LIMIT: usize = 10;

pub const MAX_SCRATCHPAD_ENTRY_LIMIT: usize = 100;

pub open spec fn spec_reasoning_depth_name(d: ReasoningDepth) -> Seq<char> {
    match d {
        ReasoningDepth::Deep => "deep"@,
        ReasoningDepth::Standard => "standard"@,
        ReasoningDepth::Shallow => "shallow"@,
    }
}

pub open spec fn spec_execution_mode_name(m: ExecutionMode) -> Seq<char> {
    match m {
        ExecutionMode::Tools => "tools"@,
        ExecutionMode::Code => "code"@,
    }
}

pub open spec fn spec_runtime_mode_name(m: RuntimeMode) -> Seq<char> {
    match m {
        RuntimeMode::Cli => "cli"@,
        RuntimeMode::Cloud => "cloud"@,
        RuntimeMode::Browser => "browser"@,
    }
}

pub open spec fn spec_tool_format_name(f: ToolCallFormat) -> Seq<char> {
    match f {
        ToolCallFormat::JsonL => "json"@,
        ToolCallFormat::Xml => "xml"@,
        ToolCallFormat::Code => "code"@,
        ToolCallFormat::Provider => "tool_calling"@,
        ToolCallFormat::NoFormat => "none"@,
    }
}

/// `history_size` (default 5) times ten, saturating, clamped to
/// `[MIN_SCRATCHPAD_ENTRY_LIMIT, MAX_SCRATCHPAD_ENTRY_LIMIT]`.
pub open spec fn spec_scratchpad_entry_limit(history_size: Option<usize>) -> int {
    let h = history_size.unwrap_or(5);
    let suggested = if h * 10 > usize::MAX { usize::MAX as int } else { h * 10 };
    if suggested < 10 {
        10
    } else if suggested > 100 {
        100
    } else {
        suggested
    }
}

/// Index of the first `}` or whitespace character at or after `from`, or the
/// length of `s`.
pub open spec fn partial_name_end(s: Seq<char>, from: int) -> int
    decreases s.len() - from,
{
    if from < 0 || from >= s.len() {
        s.len() as int
    } else if s[from] == '}' || spec_is_whitespace(s[from]) {
        from
    } else {
        partial_name_end(s, from + 1)
    }
}

proof fn lemma_partial_name_end(s: Seq<char>, from: int)
    requires
        0 <= from <= s.len(),
    ensures
        from <= partial_name_end(s, from) <= s.len(),
    decreases s.len() - from,
{
    if from < s.len() && !(s[from] == '}' || spec_is_whitespace(s[from])) {
        lemma_partial_name_end(s, from + 1);
    }
}

/// Names after each `{{>` (leading whitespace skipped, ending at `}` or
/// whitespace), scanning from `pos`; empty names are skipped.
pub open spec fn partial_names_from(s: Seq<char>, pos: int) -> Seq<Seq<char>>
    decreases s.len() - pos,
{
    if pos < 0 || pos > s.len() {
        Seq::empty()
    } else {
        match first_occ(s, "{{>"@, pos) {
            None => Seq::empty(),
            Some(p) => {
                proof {
                    lemma_first_occ(s, "{{>"@, pos);
                    reveal_strlit("{{>");
                }
                let a = skip_ws(s, p + 3, s.len() as int);
                let e = partial_name_end(s, a);
                let name = s.subrange(a, e);
                if p + 3 <= s.len() {
                    (if name.len() > 0 {
                        seq![name]
                    } else {
                        Seq::empty()
                    }) + partial_names_from(s, p + 3)
                } else {
                    Seq::empty()
                }
            },
        }
    }
}

/// A tool definition, as far as prompt assembly reads it.
pub struct ToolDefinition {
    pub name: String,
    pub description: String,
    pub prompt: Option<String>,
}

pub struct ToolPromptEntry {
    pub name: String,
    pub prompt: String,
}

/// Per-tool prompt instructions: one (name, prompt) pair per tool in
/// definition order (deferred tools get an empty prompt), the concatenated
/// `## name` sections, and the list of non-empty, non-deferred prompts.
pub struct ToolPrompts {
    pub map: Vec<(String, String)>,
    pub concat: String,
    pub entries: Vec<ToolPromptEntry>,
}

pub open spec fn chars_or_empty(o: Option<String>) -> Seq<char> {
    match o {
        Some(s) => s@,
        None => Seq::empty(),
    }
}

pub open spec fn is_deferred(d: ToolDefinition, deferred: Seq<Seq<char>>) -> bool {
    deferred.contains(d.name@)
}

/// The prompt a tool contributes to the map.
pub open spec fn map_prompt(d: ToolDefinition, deferred: Seq<Seq<char>>) -> Seq<char> {
    if is_deferred(d, deferred) {
        Seq::empty()
    } else {
        chars_or_empty(d.prompt)
    }
}

/// Whether a tool's prompt appears in the concatenation and the entry list.
pub open spec fn listed(d: ToolDefinition, deferred: Seq<Seq<char>>) -> bool {
    !is_deferred(d, deferred) && chars_or_empty(d.prompt).len() > 0
}

pub open spec fn map_pairs(defs: Seq<ToolDefinition>, deferred: Seq<Seq<char>>) -> Seq<(Seq<char>, Seq<char>)> {
    defs.map_values(|d: ToolDefinition| (d.name@, map_prompt(d, deferred)))
}

pub open spec fn prompt_section(d: ToolDefinition) -> Seq<char> {
    "## "@ + d.name@ + "\n"@ + chars_or_empty(d.prompt) + "\n\n"@
}

pub open spec fn concat_sections(defs: Seq<ToolDefinition>, deferred: Seq<Seq<char>>) -> Seq<char>
    decreases defs.len(),
{
    if defs.len() == 0 {
        Seq::empty()
    } else {
        concat_sections(defs.drop_last(), deferred) + if listed(defs.last(), deferred) {
            prompt_section(defs.last())
        } else {
            Seq::empty()
        }
    }
}

pub open spec fn listed_entries(defs: Seq<ToolDefinition>, deferred: Seq<Seq<char>>) -> Seq<(Seq<char>, Seq<char>)>
    decreases defs.len(),
{
    if defs.len() == 0 {
        Seq::empty()
    } else if listed(defs.last(), deferred) {
        listed_entries(defs.drop_last(), deferred).push((defs.last().name@, chars_or_empty(defs.last().prompt)))
    } else {
        listed_entries(defs.drop_last(), deferred)
    }
}

pub open spec fn entry_views(e: Seq<ToolPromptEntry>) -> Seq<(Seq<char>, Seq<char>)> {
    e.map_values(|x: ToolPromptEntry| (x.name@, x.prompt@))
}

pub open spec fn pair_views(p: Seq<(String, String)>) -> Seq<(Seq<char>, Seq<char>)> {
    p.map_values(|x: (String, String)| (x.0@, x.1@))
}

fn contains_name(names: &[String], name: &String) -> (res: bool)
    ensures
        res == string_views(names@).contains(name@),
{
    let mut k: usize = 0;
    while k < names.len()
        invariant
            k <= names.len(),
            forall|m: int| 0 <= m < k ==> #[trigger] names@[m]@ != name@,
        decreases names.len() - k,
    {
        if names[k] == *name {
            assert(string_views(names@)[k as int] == name@);
            return true;
        }
        k = k + 1;
    }
    assert forall|m: int| 0 <= m < string_views(names@).len() implies string_views(names@)[m] != name@ by {
        assert(names@[m]@ != name@);
    }
    false
}

fn clone_opt_prompt(o: &Option<String>) -> (res: String)
    ensures
        res@ == chars_or_empty(*o),
{
    match o {
        Some(s) => s.clone(),
        None => String::new(),
    }
}

/// What the agent's message overrides add to the user turn, piece by
/// piece: a rendered template, or the parts a session value resolved to
/// (`None` when the session holds no value under the key).
pub enum OverridePiece {
    Rendered(String),
    Session(Option<Vec<Part>>),
}

/// The additional user data as a last text part, when it is included and
/// not empty.
pub open spec fn extra_text(data: String, wanted: bool) -> Seq<PartView> {
    if wanted && data@.len() > 0 {
        seq![PartView::Text(data)]
    } else {
        Seq::empty()
    }
}

pub open spec fn piece_parts(p: OverridePiece) -> Seq<PartView> {
    match p {
        OverridePiece::Rendered(t) => if t@.len() > 0 {
            seq![PartView::Text(t)]
        } else {
            Seq::empty()
        },
        OverridePiece::Session(Some(ps)) => parts_view(ps@),
        OverridePiece::Session(None) => Seq::empty(),
    }
}

pub open spec fn pieces_parts(ps: Seq<OverridePiece>) -> Seq<PartView>
    decreases ps.len(),
{
    if ps.len() == 0 {
        Seq::empty()
    } else {
        pieces_parts(ps.drop_last()) + piece_parts(ps.last())
    }
}

/// Builds the planning messages for an agent.
pub struct MessageFormatter<'a> {
    pub agent_def: &'a StandardDefinition,
    pub strategy: &'a AgentStrategy,
}

impl<'a> MessageFormatter<'a> {
    pub fn new(agent_def: &'a StandardDefinition, strategy: &'a AgentStrategy) -> (res: Self)
        ensures
            res.agent_def == agent_def,
            res.strategy == strategy,
    {
        MessageFormatter { agent_def, strategy }
    }

    pub fn reasoning_depth_name(strategy: &AgentStrategy) -> (res: &'static str)
        ensures
            res@ == spec_reasoning_depth_name(strategy.reasoning_depth),
    {
        match strategy.get_reasoning_depth() {
            ReasoningDepth::Deep => "deep",
            ReasoningDepth::Standard => "standard",
            ReasoningDepth::Shallow => "shallow",
        }
    }

    pub fn execution_mode_name(strategy: &AgentStrategy) -> (res: &'static str)
        ensures
            res@ == spec_execution_mode_name(strategy.execution_mode),
    {
        match strategy.get_execution_mode() {
            ExecutionMode::Tools => "tools",
            ExecutionMode::Code => "code",
        }
    }

    /// Lower-snake-case name of the runtime mode, as templates compare it.
    pub fn runtime_mode_name(mode: RuntimeMode) -> (res: &'static str)
        ensures
            res@ == spec_runtime_mode_name(mode),
    {
        match mode {
            RuntimeMode::Cli => "cli",
            RuntimeMode::Cloud => "cloud",
            RuntimeMode::Browser => "browser",
        }
    }

    pub fn tool_format_name(agent_def: &StandardDefinition) -> (res: &'static str)
        ensures
            res@ == spec_tool_format_name(agent_def.tool_format),
    {
        match agent_def.tool_format {
            ToolCallFormat::JsonL => "json",
            ToolCallFormat::Xml => "xml",
            ToolCallFormat::Code => "code",
            ToolCallFormat::Provider => "tool_calling",
            ToolCallFormat::NoFormat => "none",
        }
    }

    pub fn native_json_tools(agent_def: &StandardDefinition) -> (res: bool)
        ensures
            res == (agent_def.tool_format == ToolCallFormat::Provider),
    {
        match agent_def.tool_format {
            ToolCallFormat::Provider => true,
            _ => false,
        }
    }

    /// Number of scratchpad entries loaded for the prompt.
    pub fn scratchpad_entry_limit(agent_def: &StandardDefinition) -> (res: usize)
        ensures
            res == spec_scratchpad_entry_limit(agent_def.history_size),
    {
        let history_size = match agent_def.history_size {
            Some(h) => h,
            None => 5,
        };
        if history_size <= 1 {
            MIN_SCRATCHPAD_ENTRY_LIMIT
        } else if history_size >= 10 {
            MAX_SCRATCHPAD_ENTRY_LIMIT
        } else {
            history_size * 10
        }
    }

    /// Collect per-tool prompt instructions, skipping deferred tools (their
    /// prompts are delivered when the model loads them).
    pub fn collect_tool_prompts(tool_defs: &[ToolDefinition], deferred_names: &[String]) -> (res: ToolPrompts)
        ensures
            pair_views(res.map@) == map_pairs(tool_defs@, string_views(deferred_names@)),
            res.concat@ == concat_sections(tool_defs@, string_views(deferred_names@)),
            entry_views(res.entries@) == listed_entries(tool_defs@, string_views(deferred_names@)),
    {
        let ghost deferred = string_views(deferred_names@);
        let mut map: Vec<(String, String)> = Vec::new();
        let mut concat = String::new();
        let mut entries: Vec<ToolPromptEntry> = Vec::new();
        let mut i: usize = 0;
        while i < tool_defs.len()
            invariant
                i <= tool_defs.len(),
                deferred == string_views(deferred_names@),
                map@.len() == i,
                forall|k: int| 0 <= k < i ==> #[trigger] pair_views(map@)[k] == map_pairs(tool_defs@, deferred)[k],
                concat@ == concat_sections(tool_defs@.take(i as int), deferred),
                entry_views(entries@) == listed_entries(tool_defs@.take(i as int), deferred),
            decreases tool_defs.len() - i,
        {
            let def = &tool_defs[i];
            let ghost pre = tool_defs@.take(i as int);
            let ghost post = tool_defs@.take(i + 1);
            assert(post.drop_last() =~= pre);
            assert(post.last() == *def);
            let ghost old_raw = map@;
            let is_deferred = contains_name(deferred_names, &def.name);
            if is_deferred {
                map.push((def.name.clone(), String::new()));
                assert(pair_views(map@)[i as int] == map_pairs(tool_defs@, deferred)[i as int]);
                assert(concat_sections(post, deferred) =~= concat_sections(pre, deferred) + Seq::<char>::empty());
            } else {
                let prompt = clone_opt_prompt(&def.prompt);
                map.push((def.name.clone(), prompt.clone()));
                assert(pair_views(map@)[i as int] == map_pairs(tool_defs@, deferred)[i as int]);
                if !prompt.as_str().is_empty() {
                    let ghost c0 = concat@;
                    concat.append("## ");
                    concat.append(def.name.as_str());
                    concat.append("\n");
                    concat.append(prompt.as_str());
                    concat.append("\n\n");
                    assert(concat@ =~= c0 + prompt_section(*def));
                    let ghost e0 = entry_views(entries@);
                    entries.push(ToolPromptEntry { name: def.name.clone(), prompt });
                    assert(entry_views(entries@) =~= e0.push((def.name@, chars_or_empty(def.prompt))));
                } else {
                    assert(concat_sections(post, deferred) =~= concat_sections(pre, deferred) + Seq::<char>::empty());
                }
            }
            assert forall|k: int| 0 <= k < i + 1 implies #[trigger] pair_views(map@)[k] == map_pairs(tool_defs@, deferred)[k] by {
                if k < i {
                    assert(map@[k] == old_raw[k]);
                    assert(pair_views(old_raw)[k] == map_pairs(tool_defs@, deferred)[k]);
                }
            }
            i = i + 1;
        }
        assert(tool_defs@.take(i as int) =~= tool_defs@);
        assert(pair_views(map@) =~= map_pairs(tool_defs@, deferred));
        ToolPrompts { map, concat, entries }
    }

    /// Interleave user messages and tool/assistant messages by time: the stored
    /// copy of the current user message is replaced by `current_user_message`,
    /// both lists are ordered by `created_at` (stably), and each tool message is
    /// placed after the users created no later than it.
    pub fn interleave_user_and_tool_history(
        user_messages: Vec<Message>,
        tool_messages: Vec<Message>,
        current_user_message: &Message,
    ) -> (res: Vec<Message>)
        ensures
            messages_view(res@) == merge_by_time(
                sort_by_time(
                    messages_view(user_messages@).filter(other_message(current_user_message.id@)).push(
                        current_user_message@,
                    ),
                ),
                sort_by_time(messages_view(tool_messages@)),
            ),
    {
        let ghost uv = messages_view(user_messages@);
        let ghost pred = other_message(current_user_message.id@);
        // Drop any stored version of the current user message.
        let mut rest = user_messages;
        let mut users: Vec<Message> = Vec::new();
        let mut taken: usize = 0;
        let ghost n = uv.len();
        assert(n == rest.len());
        proof {
            reveal_with_fuel(Seq::filter, 1);
            assert(uv.take(0) =~= Seq::<MessageView>::empty());
        }
        while rest.len() > 0
            invariant
                taken + rest@.len() == n,
                n <= usize::MAX,
                n == uv.len(),
                pred == other_message(current_user_message.id@),
                messages_view(rest@) == uv.skip(taken as int),
                messages_view(users@) == uv.take(taken as int).filter(pred),
            decreases rest@.len(),
        {
            let ghost old_rest = rest@;
            let m = rest.remove(0);
            proof {
                reveal_with_fuel(Seq::filter, 1);
                assert(uv.skip(taken as int)[0] == m@);
                assert(uv.take(taken + 1).drop_last() =~= uv.take(taken as int));
                assert(uv.take(taken + 1).last() == m@);
                assert forall|k: int| 0 <= k < rest@.len() implies #[trigger] messages_view(rest@)[k] == uv.skip(taken + 1)[k] by {
                    assert(rest@[k] == old_rest[k + 1]);
                    assert(messages_view(old_rest)[k + 1] == uv.skip(taken as int)[k + 1]);
                }
                assert(messages_view(rest@) =~= uv.skip(taken + 1));
            }
            if m.id != current_user_message.id {
                let ghost before = messages_view(users@);
                users.push(m);
                assert(messages_view(users@) =~= before.push(m@));
            }
            taken = taken + 1;
        }
        assert(uv.take(taken as int) =~= uv);
        let ghost before = messages_view(users@);
        users.push(current_user_message.duplicate());
        assert(messages_view(users@) =~= before.push(current_user_message@));
        let users = sort_messages_by_time(users);
        let tools = sort_messages_by_time(tool_messages);
        merge_messages(users, tools)
    }

    pub fn is_observation_text(text: &str) -> (res: bool)
        ensures
            res == spec_is_observation_text(text@),
    {
        let c = crate::text::str_chars(text);
        let (a, b) = crate::text::trim_bounds(c.as_slice());
        let t = crate::text::slice_to_vec(c.as_slice(), a, b);
        let obs = crate::text::str_chars("Observation:");
        let act = crate::text::str_chars("Action:");
        crate::text::matches_at(t.as_slice(), obs.as_slice(), 0) || crate::text::matches_at(t.as_slice(), act.as_slice(), 0)
    }

    /// The system and user templates the prompt is rendered from: those a
    /// hook put in place, else the planner's own.
    pub fn templates_to_use(
        template_override: &PromptTemplateOverride,
        template: &str,
        user_template: &str,
    ) -> (res: (String, String))
        ensures
            res.0@ == (match template_override.system {
                Some(t) => t@,
                None => template@,
            }),
            res.1@ == (match template_override.user {
                Some(t) => t@,
                None => user_template@,
            }),
    {
        let system = match &template_override.system {
            Some(t) => t.clone(),
            None => owned(template),
        };
        let user = match &template_override.user {
            Some(t) => t.clone(),
            None => owned(user_template),
        };
        (system, user)
    }

    /// The step limit the prompt shows (the agent's own, else the default)
    /// and how many steps remain of it (none once it is reached).
    pub fn step_budget(max_iterations: Option<usize>, default_max: usize, current_steps: usize) -> (res: (usize, usize))
        ensures
            res.0 == (match max_iterations {
                Some(m) => m,
                None => default_max,
            }),
            res.1 == (if current_steps >= res.0 {
                0
            } else {
                res.0 - current_steps
            }),
    {
        let max_steps = match max_iterations {
            Some(m) => m,
            None => default_max,
        };
        (max_steps, max_steps.saturating_sub(current_steps))
    }

    /// The prompt's messages with the current user message appended when
    /// none of them has its id (when no history could be loaded).
    pub fn with_current_user(formatted: Vec<Message>, user_message: Message) -> (res: Vec<Message>)
        ensures
            (exists|k: int| 0 <= k < formatted@.len() && #[trigger] formatted@[k].id@ == user_message.id@) ==> res@
                == formatted@,
            !(exists|k: int| 0 <= k < formatted@.len() && #[trigger] formatted@[k].id@ == user_message.id@) ==> res@
                == formatted@.push(user_message),
    {
        let mut i: usize = 0;
        while i < formatted.len()
            invariant
                i <= formatted.len(),
                forall|k: int| 0 <= k < i ==> #[trigger] formatted@[k].id@ != user_message.id@,
            decreases formatted.len() - i,
        {
            if crate::text::str_eq(formatted[i].id.as_str(), user_message.id.as_str()) {
                return formatted;
            }
            i = i + 1;
        }
        let mut res = formatted;
        res.push(user_message);
        res
    }

    /// The user turn of the prompt: the message as a user message, with the
    /// additional user data (step limit, todos) as a last text part when
    /// there is any.
    pub fn build_user_message(message: &Message, additional_user_data: String) -> (res: Message)
        ensures
            res@ == (MessageView {
                role: MessageRole::User,
                parts: message@.parts + extra_text(additional_user_data, true),
                ..message@
            }),
    {
        let mut m = message.duplicate();
        m.role = MessageRole::User;
        let ghost before = parts_view(m.parts@);
        let extra = str_chars(additional_user_data.as_str());
        let ghost data = additional_user_data;
        if extra.len() > 0 {
            m.parts.push(Part::Text(additional_user_data));
        }
        assert(parts_view(m.parts@) =~= before + extra_text(data, true));
        m
    }

    /// The user turn when the agent overrides it: the message's parts, then
    /// each override piece in order (a rendered template when it is not
    /// empty, the parts a session value resolved to), then the additional
    /// user data when step counts are included (the default) and there is
    /// any.
    pub fn build_overridden_user_message(
        base_message: &Message,
        pieces: Vec<OverridePiece>,
        include_step_count: Option<bool>,
        user_additional_data: String,
    ) -> (res: Message)
        ensures
            res@ == (MessageView {
                role: MessageRole::User,
                parts: base_message@.parts + pieces_parts(pieces@) + extra_text(
                    user_additional_data,
                    include_step_count.unwrap_or(true),
                ),
                ..base_message@
            }),
    {
        let mut m = base_message.duplicate();
        m.role = MessageRole::User;
        let ghost base = parts_view(m.parts@);
        let ghost all = pieces@;
        let mut rest = pieces;
        let mut k: usize = 0;
        let n: usize = rest.len();
        assert(rest@ =~= all.skip(0));
        assert(all.take(0) =~= Seq::<OverridePiece>::empty());
        assert(base + pieces_parts(Seq::<OverridePiece>::empty()) =~= base);
        while rest.len() > 0
            invariant
                k + rest@.len() == all.len(),
                all.len() == n,
                rest@ == all.skip(k as int),
                m@.parts == base + pieces_parts(all.take(k as int)),
                m@.id == base_message@.id,
                m@.name == base_message@.name,
                m@.created_at == base_message@.created_at,
                m@.role == MessageRole::User,
            decreases rest@.len(),
        {
            let piece = rest.remove(0);
            proof {
                assert(all[k as int] == piece);
                assert(rest@ =~= all.skip(k + 1));
                assert(all.take(k + 1).drop_last() =~= all.take(k as int));
            }
            let ghost before = parts_view(m.parts@);
            match piece {
                OverridePiece::Rendered(t) => {
                    let tc = str_chars(t.as_str());
                    if tc.len() > 0 {
                        m.parts.push(Part::Text(t));
                    }
                    assert(parts_view(m.parts@) =~= before + piece_parts(all[k as int]));
                },
                OverridePiece::Session(resolved) => {
                    match resolved {
                        Some(ps) => {
                            let ghost added = parts_view(ps@);
                            let mut ps = ps;
                            m.parts.append(&mut ps);
                            assert(parts_view(m.parts@) =~= before + added);
                        },
                        None => {
                            assert(parts_view(m.parts@) =~= before + Seq::<PartView>::empty());
                        },
                    }
                },
            }
            proof {
                assert(pieces_parts(all.take(k + 1)) =~= pieces_parts(all.take(k as int)) + piece_parts(all[k as int]));
            }
            k = k + 1;
        }
        assert(all.take(k as int) =~= all);
        let ghost mid = parts_view(m.parts@);
        let extra = str_chars(user_additional_data.as_str());
        let ghost data = user_additional_data;
        let wanted = match include_step_count {
            Some(b) => b,
            None => true,
        };
        if wanted && extra.len() > 0 {
            m.parts.push(Part::Text(user_additional_data));
        }
        assert(parts_view(m.parts@) =~= mid + extra_text(data, include_step_count.unwrap_or(true)));
        m
    }

    /// Splits a step result's parts for the model's history: the tool
    /// results (each becomes a tool message), and the parts of the
    /// assistant message, which drops observation and action echoes and
    /// tool calls that no result of this step answers.
    pub fn history_parts(parts: Vec<Part>) -> (res: (Vec<Part>, Vec<Part>))
        ensures
            res.0@ == parts@.filter(|p: Part| keep_in_assistant(p, answered_calls(parts@))),
            res.1@ == parts@.filter(|p: Part| p is ToolResult),
    {
        let mut answered: Vec<String> = Vec::new();
        let mut i: usize = 0;
        while i < parts.len()
            invariant
                i <= parts.len(),
                forall|id: Seq<char>| string_views(answered@).contains(id) <==> exists|k: int|
                    0 <= k < i && #[trigger] answers(parts@[k], id),
            decreases parts.len() - i,
        {
            match &parts[i] {
                Part::ToolResult(tr) => {
                    let ghost before = answered@;
                    answered.push(tr.tool_call_id.clone());
                    proof {
                        assert(string_views(answered@) =~= string_views(before).push(tr.tool_call_id@));
                        assert forall|id: Seq<char>| string_views(answered@).contains(id) <==> exists|k: int|
                            0 <= k < i + 1 && #[trigger] answers(parts@[k], id) by {
                            if string_views(answered@).contains(id) {
                                let j = choose|j: int| 0 <= j < string_views(answered@).len() && string_views(answered@)[j] == id;
                                if j < string_views(before).len() {
                                    assert(string_views(before)[j] == id);
                                    assert(string_views(before).contains(id));
                                } else {
                                    assert(answers(parts@[i as int], id));
                                }
                            }
                            if exists|k: int| 0 <= k < i + 1 && #[trigger] answers(parts@[k], id) {
                                let k = choose|k: int| 0 <= k < i + 1 && #[trigger] answers(parts@[k], id);
                                if k < i {
                                    assert(string_views(before).contains(id));
                                    let j = choose|j: int| 0 <= j < string_views(before).len() && string_views(before)[j] == id;
                                    assert(string_views(answered@)[j] == string_views(before)[j]);
                                    assert(string_views(answered@).contains(id));
                                } else {
                                    assert(string_views(answered@)[string_views(answered@).len() - 1] == id);
                                }
                            }
                        }
                    }
                },
                _ => {
                    proof {
                        assert forall|id: Seq<char>| string_views(answered@).contains(id) <==> exists|k: int|
                            0 <= k < i + 1 && #[trigger] answers(parts@[k], id) by {
                            if exists|k: int| 0 <= k < i + 1 && #[trigger] answers(parts@[k], id) {
                                let k = choose|k: int| 0 <= k < i + 1 && #[trigger] answers(parts@[k], id);
                                assert(k < i);
                            }
                        }
                    }
                },
            }
            i = i + 1;
        }
        let ghost all = parts@;
        let ghost set = answered_calls(all);
        proof {
            assert forall|id: Seq<char>| string_views(answered@).contains(id) <==> set.contains(id) by {}
        }
        let ghost f_keep = |p: Part| keep_in_assistant(p, set);
        let ghost f_tool = |p: Part| p is ToolResult;
        let mut assistant: Vec<Part> = Vec::new();
        let mut tools: Vec<Part> = Vec::new();
        let mut rest = parts;
        let total: usize = rest.len();
        let mut taken: usize = 0;
        proof {
            reveal_with_fuel(Seq::filter, 1);
            assert(all.take(0) =~= Seq::<Part>::empty());
            assert(rest@ =~= all.skip(0));
        }
        while rest.len() > 0
            invariant
                taken + rest@.len() == all.len(),
                all.len() == total,
                rest@ == all.skip(taken as int),
                f_keep == (|p: Part| keep_in_assistant(p, set)),
                f_tool == (|p: Part| p is ToolResult),
                set == answered_calls(all),
                forall|id: Seq<char>| string_views(answered@).contains(id) <==> set.contains(id),
                assistant@ == all.take(taken as int).filter(f_keep),
                tools@ == all.take(taken as int).filter(f_tool),
            decreases rest@.len(),
        {
            let p = rest.remove(0);
            proof {
                reveal_with_fuel(Seq::filter, 1);
                assert(all.take(taken + 1).drop_last() =~= all.take(taken as int));
                assert(all.take(taken + 1).last() == p);
                assert(rest@ =~= all.skip(taken + 1));
            }
            let keep = match &p {
                Part::ToolResult(_) => false,
                Part::ToolCall(tc) => contains_str(&answered, tc.tool_call_id.as_str()),
                Part::Text(t) => !Self::is_observation_text(t.as_str()),
                _ => true,
            };
            let is_tool = match &p {
                Part::ToolResult(_) => true,
                _ => false,
            };
            if is_tool {
                tools.push(p);
            } else if keep {
                assistant.push(p);
            }
            taken = taken + 1;
        }
        assert(all.take(taken as int) =~= all);
        (assistant, tools)
    }
}

/// Whether part `p` is a result answering tool call `id`.
pub open spec fn answers(p: Part, id: Seq<char>) -> bool {
    match p {
        Part::ToolResult(tr) => tr.tool_call_id@ == id,
        _ => false,
    }
}

/// The tool calls that the results among `parts` answer.
pub open spec fn answered_calls(parts: Seq<Part>) -> Set<Seq<char>> {
    Set::new(|id: Seq<char>| exists|k: int| 0 <= k < parts.len() && #[trigger] answers(parts[k], id))
}

/// Whether a part stays in the assistant's history message.
pub open spec fn keep_in_assistant(p: Part, answered: Set<Seq<char>>) -> bool {
    match p {
        Part::ToolResult(_) => false,
        Part::ToolCall(tc) => answered.contains(tc.tool_call_id@),
        Part::Text(t) => !spec_is_observation_text(t@),
        _ => true,
    }
}

fn contains_str(v: &Vec<String>, s: &str) -> (res: bool)
    ensures
        res == string_views(v@).contains(s@),
{
    let sc = str_chars(s);
    let mut i: usize = 0;
    while i < v.len()
        invariant
            i <= v.len(),
            sc@ == s@,
            forall|k: int| 0 <= k < i ==> #[trigger] v@[k]@ != s@,
        decreases v.len() - i,
    {
        let vc = str_chars(v[i].as_str());
        if chars_eq(vc.as_slice(), sc.as_slice()) {
            assert(string_views(v@)[i as int] == s@);
            return true;
        }
        i = i + 1;
    }
    proof {
        if string_views(v@).contains(s@) {
            let k = choose|k: int| 0 <= k < string_views(v@).len() && string_views(v@)[k] == s@;
            assert(v@[k]@ != s@);
        }
    }
    false
}

/// A data value that asks for the turn to end (`should_continue: false`).
pub open spec fn says_stop(d: crate::message::DataPart) -> bool {
    d.should_continue == Some(false)
}

pub open spec fn result_part_says_stop(p: ResultPart) -> bool {
    match p {
        ResultPart::Data(d) => says_stop(d),
        _ => false,
    }
}

pub open spec fn any_result_part_says_stop(parts: Seq<ResultPart>) -> bool {
    exists|k: int| 0 <= k < parts.len() && #[trigger] result_part_says_stop(parts[k])
}

/// A part that ends the turn: a data part saying stop, or a tool result
/// carrying one among its own parts.
pub open spec fn part_says_stop(p: PartView) -> bool {
    match p {
        PartView::Data(d) => says_stop(d),
        PartView::ToolResult { parts, .. } => any_result_part_says_stop(parts),
        _ => false,
    }
}

/// Whether any part asks the agent loop to end the current turn
/// (`should_continue: false` at top level or inside a tool result).
pub fn parts_request_turn_end(parts: &[Part]) -> (res: bool)
    ensures
        res == exists|k: int| 0 <= k < parts@.len() && #[trigger] part_says_stop(parts@[k]@),
{
    let mut i: usize = 0;
    while i < parts.len()
        invariant
            i <= parts.len(),
            forall|k: int| 0 <= k < i ==> !#[trigger] part_says_stop(parts@[k]@),
        decreases parts.len() - i,
    {
        match &parts[i] {
            Part::Data(d) => {
                if d.should_continue == Some(false) {
                    assert(part_says_stop(parts@[i as int]@));
                    return true;
                }
            },
            Part::ToolResult(tr) => {
                let mut j: usize = 0;
                while j < tr.parts.len()
                    invariant
                        j <= tr.parts.len(),
                        i < parts.len(),
                        parts@[i as int] == Part::ToolResult(*tr),
                        forall|k: int| 0 <= k < j ==> !#[trigger] result_part_says_stop(tr.parts@[k]),
                    decreases tr.parts.len() - j,
                {
                    match &tr.parts[j] {
                        ResultPart::Data(d) => {
                            if d.should_continue == Some(false) {
                                assert(result_part_says_stop(tr.parts@[j as int]));
                                assert(any_result_part_says_stop(tr.parts@));
                                assert(parts@[i as int]@ == PartView::ToolResult {
                                    tool_call_id: tr.tool_call_id,
                                    tool_name: tr.tool_name,
                                    parts: tr.parts@,
                                });
                                assert(part_says_stop(parts@[i as int]@));
                                return true;
                            }
                        },
                        _ => {},
                    }
                    j = j + 1;
                }
            },
            _ => {},
        }
        i = i + 1;
    }
    false
}

proof fn lemma_insert_by_time_props(sorted: Seq<MessageView>, x: MessageView)
    requires
        time_sorted(sorted),
    ensures
        time_sorted(insert_by_time(sorted, x)),
        insert_by_time(sorted, x).to_multiset() == sorted.to_multiset().insert(x),
    decreases sorted.len(),
{
    broadcast use vstd::seq_lib::group_to_multiset_ensures;
    if sorted.len() > 0 && sorted.last().created_at > x.created_at {
        let dl = sorted.drop_last();
        lemma_insert_by_time_props(dl, x);
        let r = insert_by_time(dl, x);
        let out = r.push(sorted.last());
        assert(sorted =~= dl.push(sorted.last()));
        assert forall|i: int, j: int| 0 <= i < j < out.len() implies #[trigger] out[i].created_at
            <= #[trigger] out[j].created_at by {
            if j == out.len() - 1 {
                assert(out[i] == r[i]);
                assert(r.to_multiset().count(r[i]) > 0);
                if r[i] != x {
                    assert(dl.to_multiset().count(r[i]) > 0);
                    assert(dl.contains(r[i]));
                    let m = choose|m: int| 0 <= m < dl.len() && dl[m] == r[i];
                    assert(sorted[m] == r[i]);
                }
            } else {
                assert(out[i] == r[i] && out[j] == r[j]);
            }
        }
    } else if sorted.len() > 0 {
        let out = sorted.push(x);
        assert forall|i: int, j: int| 0 <= i < j < out.len() implies #[trigger] out[i].created_at
            <= #[trigger] out[j].created_at by {
            if j == out.len() - 1 {
                assert(out[i] == sorted[i]);
                if i < sorted.len() - 1 {
                    assert(sorted[i].created_at <= sorted[sorted.len() - 1].created_at);
                }
            } else {
                assert(out[i] == sorted[i] && out[j] == sorted[j]);
            }
        }
    } else {
        assert(seq![x] =~= Seq::<MessageView>::empty().push(x));
    }
}

/// Ordering by time yields a time-sorted rearrangement of the same messages.
pub proof fn lemma_sort_by_time(s: Seq<MessageView>)
    ensures
        time_sorted(sort_by_time(s)),
        sort_by_time(s).to_multiset() == s.to_multiset(),
    decreases s.len(),
{
    broadcast use vstd::seq_lib::group_to_multiset_ensures;
    if s.len() > 0 {
        lemma_sort_by_time(s.drop_last());
        lemma_insert_by_time_props(sort_by_time(s.drop_last()), s.last());
        assert(s =~= s.drop_last().push(s.last()));
    } else {
        assert(s.to_multiset() =~= Multiset::<MessageView>::empty());
        assert(sort_by_time(s).to_multiset() =~= Multiset::<MessageView>::empty());
    }
}

/// Merging two time-sorted sequences yields a time-sorted sequence holding
/// exactly the messages of both.
pub proof fn lemma_merge_by_time(u: Seq<MessageView>, t: Seq<MessageView>)
    requires
        time_sorted(u),
        time_sorted(t),
    ensures
        time_sorted(merge_by_time(u, t)),
        merge_by_time(u, t).to_multiset() == u.to_multiset().add(t.to_multiset()),
        merge_by_time(u, t).len() == u.len() + t.len(),
        merge_by_time(u, t).len() > 0 && u.len() > 0 && t.len() > 0 ==> merge_by_time(u, t)[0].created_at == if t[0].created_at < u[0].created_at {
            t[0].created_at
        } else {
            u[0].created_at
        },
    decreases u.len() + t.len(),
{
    broadcast use vstd::seq_lib::group_to_multiset_ensures;
    let m = merge_by_time(u, t);
    if u.len() == 0 {
        assert(u.to_multiset() =~= Multiset::<MessageView>::empty());
        assert(t.to_multiset() =~= u.to_multiset().add(t.to_multiset()));
    } else if t.len() == 0 {
        assert(t.to_multiset() =~= Multiset::<MessageView>::empty());
        assert(u.to_multiset() =~= u.to_multiset().add(t.to_multiset()));
    } else if t[0].created_at < u[0].created_at {
        let td = t.drop_first();
        assert(time_sorted(td));
        lemma_merge_by_time(u, td);
        let r = merge_by_time(u, td);
        assert(m == seq![t[0]] + r);
        assert(t =~= seq![t[0]] + td);
        vstd::seq_lib::lemma_multiset_commutative(seq![t[0]], r);
        vstd::seq_lib::lemma_multiset_commutative(seq![t[0]], td);
        assert forall|i: int, j: int| 0 <= i < j < m.len() implies #[trigger] m[i].created_at
            <= #[trigger] m[j].created_at by {
            assert(m[j] == r[j - 1]);
            if i == 0 {
                assert(r.to_multiset().count(r[j - 1]) > 0);
                assert(u.to_multiset().add(td.to_multiset()).count(r[j - 1]) > 0);
                if u.to_multiset().count(r[j - 1]) > 0 {
                    assert(u.contains(r[j - 1]));
                    let k = choose|k: int| 0 <= k < u.len() && u[k] == r[j - 1];
                    assert(u[0].created_at <= u[k].created_at || k == 0);
                } else {
                    assert(td.contains(r[j - 1]));
                    let k = choose|k: int| 0 <= k < td.len() && td[k] == r[j - 1];
                    assert(t[k + 1] == td[k]);
                }
            } else {
                assert(m[i] == r[i - 1]);
            }
        }
        assert(m.to_multiset() =~= u.to_multiset().add(t.to_multiset()));
    } else {
        let ud = u.drop_first();
        assert(time_sorted(ud));
        lemma_merge_by_time(ud, t);
        let r = merge_by_time(ud, t);
        assert(m == seq![u[0]] + r);
        assert(u =~= seq![u[0]] + ud);
        vstd::seq_lib::lemma_multiset_commutative(seq![u[0]], r);
        vstd::seq_lib::lemma_multiset_commutative(seq![u[0]], ud);
        assert forall|i: int, j: int| 0 <= i < j < m.len() implies #[trigger] m[i].created_at
            <= #[trigger] m[j].created_at by {
            assert(m[j] == r[j - 1]);
            if i == 0 {
                assert(r.to_multiset().count(r[j - 1]) > 0);
                if ud.to_multiset().count(r[j - 1]) > 0 {
                    assert(ud.contains(r[j - 1]));
                    let k = choose|k: int| 0 <= k < ud.len() && ud[k] == r[j - 1];
                    assert(u[k + 1] == ud[k]);
                } else {
                    assert(t.to_multiset().count(r[j - 1]) > 0);
                    assert(t.contains(r[j - 1]));
                    let k = choose|k: int| 0 <= k < t.len() && t[k] == r[j - 1];
                    assert(t[0].created_at <= t[k].created_at || k == 0);
                }
            } else {
                assert(m[i] == r[i - 1]);
            }
        }
        assert(m.to_multiset() =~= u.to_multiset().add(t.to_multiset()));
    }
}

/// The interleaved history is ordered by time and holds each tool message and
/// each user message (with the current one in place of its stored copy)
/// exactly once.
pub proof fn lemma_interleave_sorted_permutation(users: Seq<MessageView>, tools: Seq<MessageView>, current: MessageView)
    ensures
        ({
            let u = users.filter(other_message(current.id@)).push(current);
            let out = merge_by_time(sort_by_time(u), sort_by_time(tools));
            &&& time_sorted(out)
            &&& out.to_multiset() == u.to_multiset().add(tools.to_multiset())
            &&& out.contains(current)
        }),
{
    broadcast use vstd::seq_lib::group_to_multiset_ensures;
    let u = users.filter(other_message(current.id@)).push(current);
    lemma_sort_by_time(u);
    lemma_sort_by_time(tools);
    lemma_merge_by_time(sort_by_time(u), sort_by_time(tools));
    let out = merge_by_time(sort_by_time(u), sort_by_time(tools));
    assert(u.to_multiset().count(current) > 0);
    assert(out.to_multiset().count(current) > 0);
}

/// Extract partial names referenced in a template via `{{> name}}` syntax.
pub fn extract_partial_names(template: &str) -> (res: Vec<String>)
    ensures
        string_views(res@) == partial_names_from(template@, 0),
{
    let cv = str_chars(template);
    let s = cv.as_slice();
    let open = str_chars("{{>");
    proof {
        reveal_strlit("{{>");
    }
    let mut names: Vec<Vec<char>> = Vec::new();
    let mut pos: usize = 0;
    while pos <= s.len()
        invariant_except_break
            partial_names_from(s@, 0) == char_views(names@) + partial_names_from(s@, pos as int),
        invariant
            open@ == "{{>"@,
            open@.len() == 3,
        ensures
            partial_names_from(s@, 0) == char_views(names@),
        decreases s.len() + 1 - pos,
    {
        match find_first(s, open.as_slice(), pos) {
            None => {
                assert(char_views(names@) + Seq::<Seq<char>>::empty() =~= char_views(names@));
                break;
            },
            Some(p) => {
                proof {
                    lemma_first_occ(s@, "{{>"@, pos as int);
                }
                let a = skip_whitespace(s, p + 3, s.len());
                let mut e = a;
                proof {
                    lemma_partial_name_end(s@, a as int);
                }
                while e < s.len() && !(s[e] == '}' || is_whitespace(s[e]))
                    invariant
                        a <= e <= s.len(),
                        partial_name_end(s@, e as int) == partial_name_end(s@, a as int),
                    decreases s.len() - e,
                {
                    e = e + 1;
                }
                let name = crate::text::slice_to_vec(s, a, e);
                let ghost old_names = char_views(names@);
                if name.len() > 0 {
                    names.push(name);
                    assert(char_views(names@) =~= old_names.push(name@));
                    assert(old_names + (seq![name@] + partial_names_from(s@, p + 3)) =~= char_views(names@)
                        + partial_names_from(s@, p + 3));
                } else {
                    assert(old_names + (Seq::<Seq<char>>::empty() + partial_names_from(s@, p + 3)) =~= char_views(
                        names@,
                    ) + partial_names_from(s@, p + 3));
                }
                pos = p + 3;
            },
        }
    }
    let mut res: Vec<String> = Vec::new();
    let mut k: usize = 0;
    while k < names.len()
        invariant
            k <= names.len(),
            res@.len() == k,
            forall|m: int| 0 <= m < k ==> #[trigger] res@[m]@ == names@[m]@,
        decreases names.len() - k,
    {
        res.push(string_from_chars(names[k].as_slice()));
        k = k + 1;
    }
    assert(string_views(res@) =~= char_views(names@));
    res
}

} // verus!
