//! The model's history in native tool-calling mode, built from scratchpad
//! entries: plan steps and tasks add nothing; each execution adds its
//! messages, all but the latest execution compacted first; compaction
//! summaries and re-injected skill content each add an assistant message.
use vstd::prelude::*;
use crate::model_log::{decimal, usize_to_decimal};
use crate::text::{str_chars, string_from_chars};

verus! {

/// A scratchpad entry as native history reads it.
pub enum HistoryEntry {
    PlanStep,
    Task,
    Execution,
    Summary { entries_summarized: usize, summary_text: String, timestamp: i64 },
    SkillContext { skill_id: String, content: String, timestamp: i64 },
}

/// What an entry adds to the history: the messages of the execution at
/// `index` (compacted or not), or an assistant message with this text.
pub enum HistoryItem {
    Execution { index: usize, compact: bool },
    Context { created_at: i64, text: String },
}

pub enum HistoryItemView {
    Execution { index: int, compact: bool },
    Context { created_at: i64, text: Seq<char> },
}

impl View for HistoryItem {
    type V = HistoryItemView;

    open spec fn view(&self) -> HistoryItemView {
        match self {
            HistoryItem::Execution { index, compact } => HistoryItemView::Execution { index: *index as int, compact: *compact },
            HistoryItem::Context { created_at, text } => HistoryItemView::Context { created_at: *created_at, text: text@ },
        }
    }
}

/// The index of the last execution entry, if any.
pub open spec fn latest_execution(es: Seq<HistoryEntry>) -> Option<int>
    decreases es.len(),
{
    if es.len() == 0 {
        None
    } else if es.last() is Execution {
        Some(es.len() - 1)
    } else {
        latest_execution(es.drop_last())
    }
}

pub open spec fn summary_message(n: usize, text: Seq<char>) -> Seq<char> {
    "[Context summary — "@ + decimal(n as nat) + " earlier entries compacted]: "@ + text
}

pub open spec fn skill_message(skill_id: Seq<char>, content: Seq<char>) -> Seq<char> {
    "[Skill context re-injected: "@ + skill_id + "]\n"@ + content
}

/// What the entry at `idx` adds, given the index of the latest execution.
pub open spec fn entry_items(e: HistoryEntry, idx: int, latest: Option<int>) -> Seq<HistoryItemView> {
    match e {
        HistoryEntry::PlanStep => Seq::empty(),
        HistoryEntry::Task => Seq::empty(),
        HistoryEntry::Execution => seq![HistoryItemView::Execution { index: idx, compact: latest != Some(idx) }],
        HistoryEntry::Summary { entries_summarized, summary_text, timestamp } => seq![
            HistoryItemView::Context { created_at: timestamp, text: summary_message(entries_summarized, summary_text@) },
        ],
        HistoryEntry::SkillContext { skill_id, content, timestamp } => seq![
            HistoryItemView::Context { created_at: timestamp, text: skill_message(skill_id@, content@) },
        ],
    }
}

/// What the first entries add, in order.
pub open spec fn history_items(es: Seq<HistoryEntry>, latest: Option<int>) -> Seq<HistoryItemView>
    decreases es.len(),
{
    if es.len() == 0 {
        Seq::empty()
    } else {
        history_items(es.drop_last(), latest) + entry_items(es.last(), es.len() - 1, latest)
    }
}

fn push_str(out: &mut Vec<char>, s: &str)
    ensures
        final(out)@ == old(out)@ + s@,
{
    let mut c = str_chars(s);
    out.append(&mut c);
}

/// The index of the last execution entry, if any.
pub fn latest_execution_index(entries: &[HistoryEntry]) -> (res: Option<usize>)
    ensures
        match res {
            Some(i) => latest_execution(entries@) == Some(i as int),
            None => latest_execution(entries@) is None,
        },
{
    let mut i: usize = entries.len();
    assert(entries@.take(i as int) =~= entries@);
    while i > 0
        invariant
            i <= entries.len(),
            latest_execution(entries@) == latest_execution(entries@.take(i as int)),
        decreases i,
    {
        proof {
            assert(entries@.take(i as int).drop_last() =~= entries@.take(i - 1));
        }
        if let HistoryEntry::Execution = &entries[i - 1] {
            return Some(i - 1);
        }
        i = i - 1;
    }
    None
}

/// What each entry adds to the native history, in order (see
/// `entry_items`): all executions but the latest are compacted.
pub fn native_history_items(entries: &[HistoryEntry]) -> (res: Vec<HistoryItem>)
    ensures
        res@.map_values(|x: HistoryItem| x@) == history_items(entries@, latest_execution(entries@)),
{
    assert(entries@.take(entries@.len() as int) =~= entries@);
    let latest = latest_execution_index(entries);
    let ghost lat = latest_execution(entries@);
    let mut items: Vec<HistoryItem> = Vec::new();
    let mut k: usize = 0;
    while k < entries.len()
        invariant
            k <= entries.len(),
            lat == latest_execution(entries@),
            match latest {
                Some(i) => lat == Some(i as int),
                None => lat is None,
            },
            items@.map_values(|x: HistoryItem| x@) == history_items(entries@.take(k as int), lat),
        decreases entries.len() - k,
    {
        proof {
            assert(entries@.take(k + 1).drop_last() =~= entries@.take(k as int));
            assert(entries@.take(k + 1).last() == entries@[k as int]);
        }
        let ghost before = items@.map_values(|x: HistoryItem| x@);
        match &entries[k] {
            HistoryEntry::PlanStep => {},
            HistoryEntry::Task => {},
            HistoryEntry::Execution => {
                let compact = match latest {
                    Some(i) => i != k,
                    None => true,
                };
                items.push(HistoryItem::Execution { index: k, compact });
            },
            HistoryEntry::Summary { entries_summarized, summary_text, timestamp } => {
                let mut t: Vec<char> = Vec::new();
                push_str(&mut t, "[Context summary — ");
                let mut d = usize_to_decimal(*entries_summarized);
                t.append(&mut d);
                push_str(&mut t, " earlier entries compacted]: ");
                push_str(&mut t, summary_text.as_str());
                assert(t@ =~= summary_message(*entries_summarized, summary_text@));
                items.push(HistoryItem::Context { created_at: *timestamp, text: string_from_chars(t.as_slice()) });
            },
            HistoryEntry::SkillContext { skill_id, content, timestamp } => {
                let mut t: Vec<char> = Vec::new();
                push_str(&mut t, "[Skill context re-injected: ");
                push_str(&mut t, skill_id.as_str());
                push_str(&mut t, "]\n");
                push_str(&mut t, content.as_str());
                assert(t@ =~= skill_message(skill_id@, content@));
                items.push(HistoryItem::Context { created_at: *timestamp, text: string_from_chars(t.as_slice()) });
            },
        }
        assert(items@.map_values(|x: HistoryItem| x@) =~= before + entry_items(entries@[k as int], k as int, lat));
        k = k + 1;
    }
    assert(entries@.take(k as int) =~= entries@);
    items
}

} // verus!
