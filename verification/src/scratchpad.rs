//! The scratchpad as the planner's prompt shows it: tasks, thoughts and
//! actions of plan steps, and observations of executions, with a separator
//! where the executing task changes.
use vstd::prelude::*;
use crate::message::{Part, PartView, ToolCall, parts_view};
use crate::planning::{Action, PlanStep};
use crate::text::{join_strings, opt_chars, opt_str_chars, spec_join, str_chars, str_eq, str_views, string_from_chars};

verus! {

/// A scratchpad entry as the formatter reads it. An execution carries the
/// task it ran in and the observation its result gives.
pub enum ScratchpadEntry {
    Task(Vec<Part>),
    PlanStep(PlanStep),
    Execution { task_id: String, observation: String },
}

/// The texts among a task's parts, in order.
pub open spec fn part_texts(parts: Seq<PartView>) -> Seq<Seq<char>>
    decreases parts.len(),
{
    if parts.len() == 0 {
        Seq::empty()
    } else {
        let prev = part_texts(parts.drop_last());
        match parts.last() {
            PartView::Text(t) => prev.push(t@),
            _ => prev,
        }
    }
}

/// The lines of a step's tool calls.
pub open spec fn call_lines(calls: Seq<ToolCall>) -> Seq<char>
    decreases calls.len(),
{
    if calls.len() == 0 {
        Seq::empty()
    } else {
        call_lines(calls.drop_last()) + "Action: Call "@ + calls.last().tool_name@ + " tool with input: "@
            + calls.last().input@ + "\n"@
    }
}

pub open spec fn action_text(a: Action) -> Seq<char> {
    match a {
        Action::ToolCalls { tool_calls } => call_lines(tool_calls@),
        Action::Code { code, .. } => "Action: Execute code\n```\n"@ + code@ + "\n```\n"@,
    }
}

pub open spec fn thought_text(t: Option<String>) -> Seq<char> {
    match t {
        Some(s) => "Thought: "@ + s@ + "\n"@,
        None => Seq::empty(),
    }
}

/// The text of one entry, given the task of the last execution shown, and
/// that task afterwards.
pub open spec fn entry_text(e: ScratchpadEntry, current: Option<Seq<char>>) -> (Seq<char>, Option<Seq<char>>) {
    match e {
        ScratchpadEntry::Task(parts) => {
            let t = spec_join(part_texts(parts_view(parts@)), "\n"@);
            (if t.len() > 0 { "Task: "@ + t + "\n"@ } else { Seq::empty() }, current)
        },
        ScratchpadEntry::PlanStep(step) => (thought_text(step.thought) + action_text(step.action), current),
        ScratchpadEntry::Execution { task_id, observation } => {
            let sep: Seq<char> = if current is Some && current != Some(task_id@) {
                "\n---\n\n"@
            } else {
                Seq::empty()
            };
            (sep + "Observation: "@ + observation@ + "\n"@, Some(task_id@))
        },
    }
}

/// The text of entries shown in order, starting with `current` as the task
/// of the last execution shown.
pub open spec fn render(entries: Seq<ScratchpadEntry>, current: Option<Seq<char>>) -> Seq<char>
    decreases entries.len(),
{
    if entries.len() == 0 {
        Seq::empty()
    } else {
        let (t, next) = entry_text(entries[0], current);
        t + render(entries.drop_first(), next)
    }
}

/// Whether an entry is shown under the task filter: executions of the
/// filtered task, and every task and plan step.
pub open spec fn shown(e: ScratchpadEntry, filter: Option<Seq<char>>) -> bool {
    match filter {
        Some(f) => match e {
            ScratchpadEntry::Execution { task_id, .. } => task_id@ == f,
            _ => true,
        },
        None => true,
    }
}

pub open spec fn filtered(entries: Seq<ScratchpadEntry>, filter: Option<Seq<char>>) -> Seq<ScratchpadEntry>
    decreases entries.len(),
{
    if entries.len() == 0 {
        Seq::empty()
    } else {
        let prev = filtered(entries.drop_last(), filter);
        if shown(entries.last(), filter) {
            prev.push(entries.last())
        } else {
            prev
        }
    }
}

/// The most recent `limit` of `s` (all of it without a limit).
pub open spec fn most_recent<A>(s: Seq<A>, limit: Option<usize>) -> Seq<A> {
    match limit {
        Some(n) if n < s.len() => s.skip(s.len() - n),
        _ => s,
    }
}

/// The scratchpad text of `entries`: those shown under `task_id_filter`,
/// the most recent `limit` of them, rendered in order.
pub open spec fn spec_scratchpad(entries: Seq<ScratchpadEntry>, limit: Option<usize>, filter: Option<Seq<char>>) -> Seq<char> {
    render(most_recent(filtered(entries, filter), limit), None)
}

fn push_str(out: &mut Vec<char>, s: &str)
    ensures
        final(out)@ == old(out)@ + s@,
{
    let mut chars = str_chars(s);
    out.append(&mut chars);
}

fn task_text(parts: &Vec<Part>) -> (res: String)
    ensures
        res@ == spec_join(part_texts(parts_view(parts@)), "\n"@),
{
    let mut texts: Vec<String> = Vec::new();
    let mut i: usize = 0;
    while i < parts.len()
        invariant
            i <= parts.len(),
            str_views(texts@) == part_texts(parts_view(parts@.take(i as int))),
        decreases parts.len() - i,
    {
        proof {
            assert(parts_view(parts@.take(i + 1)).drop_last() =~= parts_view(parts@.take(i as int)));
            assert(parts_view(parts@.take(i + 1)).last() == parts@[i as int]@);
        }
        match &parts[i] {
            Part::Text(t) => {
                let ghost before = texts@;
                texts.push(t.clone());
                assert(str_views(texts@) =~= str_views(before).push(t@));
            },
            _ => {},
        }
        i = i + 1;
    }
    assert(parts@.take(i as int) =~= parts@);
    join_strings(texts.as_slice(), "\n")
}

fn push_action(out: &mut Vec<char>, action: &Action)
    ensures
        final(out)@ == old(out)@ + action_text(*action),
{
    match action {
        Action::ToolCalls { tool_calls } => {
            let ghost start = out@;
            let mut i: usize = 0;
            while i < tool_calls.len()
                invariant
                    i <= tool_calls.len(),
                    out@ == start + call_lines(tool_calls@.take(i as int)),
                decreases tool_calls.len() - i,
            {
                proof {
                    assert(tool_calls@.take(i + 1).drop_last() =~= tool_calls@.take(i as int));
                }
                let tc = &tool_calls[i];
                push_str(out, "Action: Call ");
                push_str(out, tc.tool_name.as_str());
                push_str(out, " tool with input: ");
                push_str(out, tc.input.as_str());
                push_str(out, "\n");
                i = i + 1;
            }
            assert(tool_calls@.take(i as int) =~= tool_calls@);
        },
        Action::Code { code, .. } => {
            push_str(out, "Action: Execute code\n```\n");
            push_str(out, code.as_str());
            push_str(out, "\n```\n");
        },
    }
}

/// Formats the scratchpad: the entries shown under `task_id_filter` (every
/// task and plan step, and the executions of that task), the most recent
/// `limit` of them, as `Task:`, `Thought:`, `Action:` and `Observation:`
/// lines, with a `---` separator where the executing task changes.
pub fn format_scratchpad_with_task_filter(
    entries: &[ScratchpadEntry],
    limit: Option<usize>,
    task_id_filter: Option<&str>,
) -> (res: String)
    ensures
        res@ == spec_scratchpad(entries@, limit, opt_str_chars(task_id_filter)),
{
    let ghost filter = opt_str_chars(task_id_filter);
    let mut idx: Vec<usize> = Vec::new();
    let mut i: usize = 0;
    while i < entries.len()
        invariant
            i <= entries.len(),
            filter == opt_str_chars(task_id_filter),
            idx@.len() <= i,
            forall|k: int| 0 <= k < idx@.len() ==> #[trigger] idx@[k] < entries.len(),
            idx@.map_values(|k: usize| entries@[k as int]) == filtered(entries@.take(i as int), filter),
        decreases entries.len() - i,
    {
        proof {
            assert(entries@.take(i + 1).drop_last() =~= entries@.take(i as int));
            assert(entries@.take(i + 1).last() == entries@[i as int]);
        }
        let keep = match task_id_filter {
            Some(f) => match &entries[i] {
                ScratchpadEntry::Execution { task_id, .. } => str_eq(task_id.as_str(), f),
                _ => true,
            },
            None => true,
        };
        assert(keep == shown(entries@[i as int], filter));
        if keep {
            let ghost before = idx@;
            idx.push(i);
            assert(idx@.map_values(|k: usize| entries@[k as int]) =~= before.map_values(|k: usize| entries@[k as int]).push(
                entries@[i as int],
            ));
        }
        i = i + 1;
    }
    assert(entries@.take(i as int) =~= entries@);
    let ghost sel = idx@.map_values(|k: usize| entries@[k as int]);
    let start: usize = match limit {
        Some(n) => if n < idx.len() {
            idx.len() - n
        } else {
            0
        },
        None => 0,
    };
    let ghost window = sel.skip(start as int);
    assert(window == most_recent(filtered(entries@, filter), limit)) by {
        if start == 0 {
            assert(sel.skip(0) =~= sel);
        }
    }
    let mut out: Vec<char> = Vec::new();
    let mut current: Option<String> = None;
    let mut j: usize = start;
    assert(window.skip(0) =~= window);
    while j < idx.len()
        invariant
            start <= j <= idx.len(),
            forall|k: int| 0 <= k < idx@.len() ==> #[trigger] idx@[k] < entries.len(),
            sel == idx@.map_values(|k: usize| entries@[k as int]),
            window == sel.skip(start as int),
            out@ + render(window.skip(j - start), opt_chars(current)) == render(window, None),
        decreases idx.len() - j,
    {
        let e = &entries[idx[j]];
        proof {
            let rest = window.skip(j - start);
            assert(rest[0] == *e);
            assert(rest.drop_first() =~= window.skip(j + 1 - start));
        }
        let ghost cur = opt_chars(current);
        let ghost before = out@;
        match e {
            ScratchpadEntry::Task(parts) => {
                let t = task_text(parts);
                let mut tc = str_chars(t.as_str());
                if tc.len() > 0 {
                    push_str(&mut out, "Task: ");
                    out.append(&mut tc);
                    push_str(&mut out, "\n");
                }
                assert(out@ == before + entry_text(*e, cur).0);
            },
            ScratchpadEntry::PlanStep(step) => {
                match &step.thought {
                    Some(th) => {
                        push_str(&mut out, "Thought: ");
                        push_str(&mut out, th.as_str());
                        push_str(&mut out, "\n");
                    },
                    None => {},
                }
                push_action(&mut out, &step.action);
                assert(out@ =~= before + entry_text(*e, cur).0);
            },
            ScratchpadEntry::Execution { task_id, observation } => {
                let same = match &current {
                    Some(c) => str_eq(c.as_str(), task_id.as_str()),
                    None => false,
                };
                if !same {
                    if current.is_some() {
                        push_str(&mut out, "\n---\n\n");
                    }
                    current = Some(task_id.clone());
                }
                push_str(&mut out, "Observation: ");
                push_str(&mut out, observation.as_str());
                push_str(&mut out, "\n");
                assert(opt_chars(current) == entry_text(*e, cur).1);
                assert(out@ =~= before + entry_text(*e, cur).0);
            },
        }
        j = j + 1;
    }
    assert(window.skip(j - start) =~= Seq::<ScratchpadEntry>::empty());
    assert(out@ + Seq::<char>::empty() =~= out@);
    string_from_chars(out.as_slice())
}

} // verus!
