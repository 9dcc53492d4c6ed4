//! The identity of an execution context (its thread, task, run and agent,
//! and the task and run it was started from) and how it changes when a
//! context is forked, hands a subtask to another agent, or hands the
//! conversation over. Fresh ids are random.
use vstd::prelude::*;
use crate::agent_types::{ForkOptions, ForkType};
use crate::planning::new_uuid;

verus! {

pub struct ContextIds {
    pub thread_id: String,
    pub task_id: String,
    pub run_id: String,
    pub agent_id: String,
    pub parent_task_id: Option<String>,
    pub parent_run_id: Option<String>,
}

fn clone_opt(o: &Option<String>) -> (res: Option<String>)
    ensures
        res == *o,
{
    match o {
        Some(s) => Some(s.clone()),
        None => None,
    }
}

impl ContextIds {
    /// A context forked for branching or compaction: a new run; with a new
    /// task for `NewTask`, and a new thread and task for `NewThread`. The
    /// agent and the parents stay.
    pub fn fork(&self, options: &ForkOptions) -> (res: ContextIds)
        ensures
            res.agent_id == self.agent_id,
            res.parent_task_id == self.parent_task_id,
            res.parent_run_id == self.parent_run_id,
            options.fork_type != ForkType::NewThread ==> res.thread_id == self.thread_id,
            options.fork_type == ForkType::NewRun ==> res.task_id == self.task_id,
    {
        let thread_id = match options.fork_type {
            ForkType::NewThread => new_uuid(),
            _ => self.thread_id.clone(),
        };
        let task_id = match options.fork_type {
            ForkType::NewRun => self.task_id.clone(),
            _ => new_uuid(),
        };
        ContextIds {
            thread_id,
            task_id,
            run_id: new_uuid(),
            agent_id: self.agent_id.clone(),
            parent_task_id: clone_opt(&self.parent_task_id),
            parent_run_id: clone_opt(&self.parent_run_id),
        }
    }

    /// The context of a subtask run by `agent_id` in the same thread: a new
    /// task and run, whose parent task is this context's task.
    pub fn new_task(&self, agent_id: &str) -> (res: ContextIds)
        ensures
            res.thread_id == self.thread_id,
            res.agent_id@ == agent_id@,
            res.parent_task_id == Some(self.task_id),
            res.parent_run_id is None,
    {
        ContextIds {
            thread_id: self.thread_id.clone(),
            task_id: new_uuid(),
            run_id: new_uuid(),
            agent_id: agent_id.to_string(),
            parent_task_id: Some(self.task_id.clone()),
            parent_run_id: None,
        }
    }

    /// The context of an agent the conversation is handed over to: the same
    /// thread and task (so the same history), a new run, the same parent
    /// task.
    pub fn continue_as(&self, agent_id: &str) -> (res: ContextIds)
        ensures
            res.thread_id == self.thread_id,
            res.task_id == self.task_id,
            res.agent_id@ == agent_id@,
            res.parent_task_id == self.parent_task_id,
            res.parent_run_id is None,
    {
        ContextIds {
            thread_id: self.thread_id.clone(),
            task_id: self.task_id.clone(),
            run_id: new_uuid(),
            agent_id: agent_id.to_string(),
            parent_task_id: clone_opt(&self.parent_task_id),
            parent_run_id: None,
        }
    }
}

} // verus!
