//! The message history of a thread as the agent reads it: the messages of
//! its tasks (of one task, when asked), in the order they were created.
use vstd::prelude::*;
use crate::formatter::{lemma_sort_by_time, sort_by_time, sort_messages_by_time, time_sorted};
use crate::message::{Message, MessageView, messages_view};
use crate::text::{opt_str_chars, str_eq};

verus! {

/// What a task's log holds: a message, or an event (its serialized form),
/// which the history does not read.
pub enum TaskMessage {
    Message(Message),
    Event(String),
}

/// A task of the thread: its id and its log, in order.
pub struct TaskLog {
    pub task_id: String,
    pub entries: Vec<TaskMessage>,
}

/// The messages of a log, in order.
pub open spec fn log_messages(entries: Seq<TaskMessage>) -> Seq<MessageView>
    decreases entries.len(),
{
    if entries.len() == 0 {
        Seq::empty()
    } else {
        let prev = log_messages(entries.drop_last());
        match entries.last() {
            TaskMessage::Message(m) => prev.push(m@),
            TaskMessage::Event(_) => prev,
        }
    }
}

/// Whether a task is read under the filter.
pub open spec fn task_selected(task_id: Seq<char>, filter: Option<Seq<char>>) -> bool {
    match filter {
        Some(f) => task_id == f,
        None => true,
    }
}

/// The messages of the selected tasks, task after task.
pub open spec fn selected_messages(tasks: Seq<TaskLog>, filter: Option<Seq<char>>) -> Seq<MessageView>
    decreases tasks.len(),
{
    if tasks.len() == 0 {
        Seq::empty()
    } else {
        let prev = selected_messages(tasks.drop_last(), filter);
        if task_selected(tasks.last().task_id@, filter) {
            prev + log_messages(tasks.last().entries@)
        } else {
            prev
        }
    }
}

/// The thread's history: the messages of every task, or of the task named
/// by `task_filter`, ordered (stably) by when they were created.
pub fn collect_message_history(tasks: &Vec<TaskLog>, task_filter: Option<&str>) -> (res: Vec<Message>)
    ensures
        messages_view(res@) == sort_by_time(selected_messages(tasks@, opt_str_chars(task_filter))),
{
    let ghost filter = opt_str_chars(task_filter);
    let mut messages: Vec<Message> = Vec::new();
    let mut i: usize = 0;
    while i < tasks.len()
        invariant
            i <= tasks.len(),
            filter == opt_str_chars(task_filter),
            messages_view(messages@) == selected_messages(tasks@.take(i as int), filter),
        decreases tasks.len() - i,
    {
        let task = &tasks[i];
        let selected = match task_filter {
            Some(f) => str_eq(task.task_id.as_str(), f),
            None => true,
        };
        proof {
            assert(tasks@.take(i + 1).drop_last() =~= tasks@.take(i as int));
            assert(tasks@.take(i + 1).last() == tasks@[i as int]);
        }
        if selected {
            let ghost before = messages_view(messages@);
            let mut j: usize = 0;
            while j < task.entries.len()
                invariant
                    j <= task.entries.len(),
                    messages_view(messages@) == before + log_messages(task.entries@.take(j as int)),
                decreases task.entries.len() - j,
            {
                proof {
                    assert(task.entries@.take(j + 1).drop_last() =~= task.entries@.take(j as int));
                    assert(task.entries@.take(j + 1).last() == task.entries@[j as int]);
                }
                match &task.entries[j] {
                    TaskMessage::Message(m) => {
                        let ghost prev = messages_view(messages@);
                        messages.push(m.duplicate());
                        assert(messages_view(messages@) =~= prev.push(m@));
                    },
                    TaskMessage::Event(_) => {},
                }
                j = j + 1;
            }
            assert(task.entries@.take(j as int) =~= task.entries@);
        }
        i = i + 1;
    }
    assert(tasks@.take(i as int) =~= tasks@);
    sort_messages_by_time(messages)
}

/// A thread's history holds each message of the selected tasks exactly as
/// often as their logs do, ordered by creation time.
pub proof fn lemma_history_sorted_and_complete(tasks: Seq<TaskLog>, filter: Option<Seq<char>>)
    ensures
        time_sorted(sort_by_time(selected_messages(tasks, filter))),
        sort_by_time(selected_messages(tasks, filter)).to_multiset() == selected_messages(tasks, filter).to_multiset(),
{
    lemma_sort_by_time(selected_messages(tasks, filter));
}

} // verus!
