//! Bookkeeping of the tracing spans opened for agent runs. Spans themselves
//! are outside values: the book hands out numeric handles, keeps which span
//! belongs to which run, step, reflection or tool call, and answers each
//! lifecycle event with the span operations the caller performs.
use vstd::prelude::*;
use dashmap::{DashMap, DashSet};
use crate::dash::{
    handles_of, handles_new, handles_insert, handles_remove, handles_get, step_ids_of, step_ids_new,
    step_ids_insert, step_ids_remove, step_ids_get, members_of, members_new, members_insert, members_remove,
    members_contains,
};

verus! {

#[derive(PartialEq, Eq, Structural, Clone, Copy, Debug)]
pub enum SpanKind {
    Agent,
    Plan,
    Step,
    Reflect,
    Tool,
}

/// The lifecycle events the book reacts to, with the ids they carry.
pub enum SpanEvent {
    PlanStarted,
    PlanFinished,
    StepStarted { step_id: String },
    StepCompleted { step_id: String },
    ReflectStarted,
    ReflectFinished,
    ToolExecutionStart { tool_call_id: String, step_id: String },
    ToolExecutionEnd { tool_call_id: String },
    /// Tool results, by the tool call ids of the responses in order.
    ToolResults { tool_call_ids: Vec<String> },
    RunError,
    RunFinished,
    Other,
}

/// An operation on spans for the caller to perform, in order.
#[derive(PartialEq, Eq, Structural, Clone, Copy, Debug)]
pub enum SpanOp {
    /// Open a span of `kind` inside span `parent` (or the current context
    /// when there is none) and keep it as `handle`.
    Open { kind: SpanKind, handle: u64, parent: Option<u64> },
    /// Keep the run's final-result slot as `slot`.
    Stash { slot: u64 },
    /// Drop span or slot `handle`, which a newer one replaced.
    Discard { handle: u64 },
    /// Record the event's data on span `handle` (for tool results, the
    /// response at `index`) and drop it.
    Finish { kind: SpanKind, handle: u64, index: usize },
    /// Record the tool's success on span `handle` and keep it.
    RecordToolEnd { handle: u64 },
    /// Take the run's final-result slot: read it at the end of the run, or
    /// drop it when the run failed.
    TakeFinalResult { slot: u64 },
}

pub struct SpanBook {
    /// Agent spans by run id.
    pub agent_spans: DashMap<String, u64>,
    /// Final-result slots by run id.
    pub agent_final_results: DashMap<String, u64>,
    /// Plan spans by run id.
    pub plan_spans: DashMap<String, u64>,
    /// Step spans by step id.
    pub step_spans: DashMap<String, u64>,
    /// The active step id of each run.
    pub current_step_id: DashMap<String, String>,
    /// Reflection spans by run id.
    pub reflect_spans: DashMap<String, u64>,
    /// Tool spans by tool call id.
    pub tool_spans: DashMap<String, u64>,
    /// Runs executed remotely: their forwarded step, plan and tool events
    /// open no spans here.
    pub remote_run_ids: DashSet<String>,
    next_handle: u64,
}

/// What the book holds.
pub struct BookView {
    pub agent: Map<Seq<char>, u64>,
    pub finals: Map<Seq<char>, u64>,
    pub plan: Map<Seq<char>, u64>,
    pub step: Map<Seq<char>, u64>,
    pub current: Map<Seq<char>, Seq<char>>,
    pub reflect: Map<Seq<char>, u64>,
    pub tool: Map<Seq<char>, u64>,
    pub remote: Set<Seq<char>>,
    pub next: u64,
}

pub open spec fn below(m: Map<Seq<char>, u64>, n: u64) -> bool {
    forall|k: Seq<char>| #[trigger] m.dom().contains(k) ==> m[k] < n
}

/// Every kept handle was handed out before `next`.
pub open spec fn handles_below(v: BookView) -> bool {
    &&& below(v.agent, v.next)
    &&& below(v.finals, v.next)
    &&& below(v.plan, v.next)
    &&& below(v.step, v.next)
    &&& below(v.reflect, v.next)
    &&& below(v.tool, v.next)
}

/// The span a plan or reflection span opens inside: the run's active step's
/// span, when there is one.
pub open spec fn step_parent(v: BookView, run: Seq<char>) -> Option<u64> {
    if v.current.dom().contains(run) && v.step.dom().contains(v.current[run]) {
        Some(v.step[v.current[run]])
    } else {
        None
    }
}

pub open spec fn discard_old(m: Map<Seq<char>, u64>, k: Seq<char>) -> Seq<SpanOp> {
    if m.dom().contains(k) {
        seq![SpanOp::Discard { handle: m[k] }]
    } else {
        Seq::empty()
    }
}

/// Tool results: each response whose call has a span finishes it.
pub open spec fn results_fold(tool: Map<Seq<char>, u64>, ids: Seq<String>) -> (Map<Seq<char>, u64>, Seq<SpanOp>)
    decreases ids.len(),
{
    if ids.len() == 0 {
        (tool, Seq::empty())
    } else {
        let prev = results_fold(tool, ids.drop_last());
        let k = ids.last()@;
        if prev.0.dom().contains(k) {
            (
                prev.0.remove(k),
                prev.1.push(SpanOp::Finish { kind: SpanKind::Tool, handle: prev.0[k], index: (ids.len() - 1) as usize }),
            )
        } else {
            prev
        }
    }
}

/// The book's answer to an event of run `run` (whose remote mark, if any,
/// has already been checked by `spec_on_event`).
pub open spec fn spec_handle(v: BookView, run: Seq<char>, ev: SpanEvent) -> (BookView, Seq<SpanOp>) {
    let h = v.next;
    let n = (v.next + 1) as u64;
    match ev {
        SpanEvent::PlanStarted => (
            BookView { plan: v.plan.insert(run, h), next: n, ..v },
            discard_old(v.plan, run).push(SpanOp::Open { kind: SpanKind::Plan, handle: h, parent: step_parent(v, run) }),
        ),
        SpanEvent::PlanFinished => if v.plan.dom().contains(run) {
            (
                BookView { plan: v.plan.remove(run), ..v },
                seq![SpanOp::Finish { kind: SpanKind::Plan, handle: v.plan[run], index: 0 }],
            )
        } else {
            (v, Seq::empty())
        },
        SpanEvent::StepStarted { step_id } => (
            BookView { step: v.step.insert(step_id@, h), current: v.current.insert(run, step_id@), next: n, ..v },
            discard_old(v.step, step_id@).push(SpanOp::Open { kind: SpanKind::Step, handle: h, parent: None }),
        ),
        SpanEvent::StepCompleted { step_id } => {
            let w = BookView { step: v.step.remove(step_id@), current: v.current.remove(run), ..v };
            if v.step.dom().contains(step_id@) {
                (w, seq![SpanOp::Finish { kind: SpanKind::Step, handle: v.step[step_id@], index: 0 }])
            } else {
                (w, Seq::empty())
            }
        },
        SpanEvent::ReflectStarted => (
            BookView { reflect: v.reflect.insert(run, h), next: n, ..v },
            discard_old(v.reflect, run).push(
                SpanOp::Open { kind: SpanKind::Reflect, handle: h, parent: step_parent(v, run) },
            ),
        ),
        SpanEvent::ReflectFinished => if v.reflect.dom().contains(run) {
            (
                BookView { reflect: v.reflect.remove(run), ..v },
                seq![SpanOp::Finish { kind: SpanKind::Reflect, handle: v.reflect[run], index: 0 }],
            )
        } else {
            (v, Seq::empty())
        },
        SpanEvent::ToolExecutionStart { tool_call_id, step_id } => (
            BookView { tool: v.tool.insert(tool_call_id@, h), next: n, ..v },
            discard_old(v.tool, tool_call_id@).push(
                SpanOp::Open {
                    kind: SpanKind::Tool,
                    handle: h,
                    parent: if v.step.dom().contains(step_id@) {
                        Some(v.step[step_id@])
                    } else {
                        None
                    },
                },
            ),
        ),
        SpanEvent::ToolExecutionEnd { tool_call_id } => if v.tool.dom().contains(tool_call_id@) {
            (v, seq![SpanOp::RecordToolEnd { handle: v.tool[tool_call_id@] }])
        } else {
            (v, Seq::empty())
        },
        SpanEvent::ToolResults { tool_call_ids } => {
            let r = results_fold(v.tool, tool_call_ids@);
            (BookView { tool: r.0, ..v }, r.1)
        },
        SpanEvent::RunError | SpanEvent::RunFinished => {
            let take: Seq<SpanOp> = if v.finals.dom().contains(run) {
                seq![SpanOp::TakeFinalResult { slot: v.finals[run] }]
            } else {
                Seq::empty()
            };
            let fin: Seq<SpanOp> = if v.agent.dom().contains(run) {
                seq![SpanOp::Finish { kind: SpanKind::Agent, handle: v.agent[run], index: 0 }]
            } else {
                Seq::empty()
            };
            (BookView { finals: v.finals.remove(run), agent: v.agent.remove(run), ..v }, take + fin)
        },
        SpanEvent::Other => (v, Seq::empty()),
    }
}

/// Whether the event opens a span (and so takes a new handle).
pub open spec fn opens_span(ev: SpanEvent) -> bool {
    ev is PlanStarted || ev is StepStarted || ev is ReflectStarted || ev is ToolExecutionStart
}

pub open spec fn is_run_end(ev: SpanEvent) -> bool {
    ev is RunError || ev is RunFinished
}

/// A remote run's forwarded events are ignored, except its end, which also
/// clears its remote mark.
pub open spec fn spec_on_event(v: BookView, run: Seq<char>, ev: SpanEvent) -> (BookView, Seq<SpanOp>) {
    if v.remote.contains(run) {
        if is_run_end(ev) {
            spec_handle(BookView { remote: v.remote.remove(run), ..v }, run, ev)
        } else {
            (v, Seq::empty())
        }
    } else {
        spec_handle(v, run, ev)
    }
}

impl SpanBook {
    pub closed spec fn book_view(&self) -> BookView {
        BookView {
            agent: handles_of(self.agent_spans),
            finals: handles_of(self.agent_final_results),
            plan: handles_of(self.plan_spans),
            step: handles_of(self.step_spans),
            current: step_ids_of(self.current_step_id),
            reflect: handles_of(self.reflect_spans),
            tool: handles_of(self.tool_spans),
            remote: members_of(self.remote_run_ids),
            next: self.next_handle,
        }
    }

    pub closed spec fn wf(&self) -> bool {
        handles_below(self.book_view())
    }

    pub fn new() -> (res: Self)
        ensures
            res.wf(),
            res.book_view().agent.dom().is_empty(),
            res.book_view().finals.dom().is_empty(),
            res.book_view().plan.dom().is_empty(),
            res.book_view().step.dom().is_empty(),
            res.book_view().current.dom().is_empty(),
            res.book_view().reflect.dom().is_empty(),
            res.book_view().tool.dom().is_empty(),
            res.book_view().remote.is_empty(),
            res.book_view().next == 0,
    {
        SpanBook {
            agent_spans: handles_new(),
            agent_final_results: handles_new(),
            plan_spans: handles_new(),
            step_spans: handles_new(),
            current_step_id: step_ids_new(),
            reflect_spans: handles_new(),
            tool_spans: handles_new(),
            remote_run_ids: members_new(),
            next_handle: 0,
        }
    }

    /// Whether handles remain for another run and its events.
    pub fn has_capacity(&self) -> (res: bool)
        ensures
            res == (self.book_view().next < u64::MAX - 2),
    {
        self.next_handle < u64::MAX - 2
    }

    fn discard_into(ops: &mut Vec<SpanOp>, replaced: Option<u64>)
        ensures
            final(ops)@ == old(ops)@ + (match replaced {
                Some(h) => seq![SpanOp::Discard { handle: h }],
                None => Seq::empty(),
            }),
    {
        match replaced {
            Some(h) => {
                ops.push(SpanOp::Discard { handle: h });
            },
            None => {
                assert(ops@ =~= ops@ + Seq::<SpanOp>::empty());
            },
        }
    }

    /// A run starts: open its agent span, inside the span of the run that
    /// spawned it when that one is kept, and keep a slot for its final
    /// result.
    pub fn before_execute(&mut self, run_id: String, parent_run_id: Option<&str>) -> (res: Vec<SpanOp>)
        requires
            old(self).wf(),
            old(self).book_view().next < u64::MAX - 2,
        ensures
            final(self).wf(),
            ({
                let v = old(self).book_view();
                let h = v.next;
                let parent = match parent_run_id {
                    Some(p) => if v.agent.dom().contains(p@) {
                        Some(v.agent[p@])
                    } else {
                        None
                    },
                    None => None,
                };
                &&& final(self).book_view() == BookView {
                    agent: v.agent.insert(run_id@, h),
                    finals: v.finals.insert(run_id@, (h + 1) as u64),
                    next: (h + 2) as u64,
                    ..v
                }
                &&& res@ == discard_old(v.agent, run_id@).push(
                    SpanOp::Open { kind: SpanKind::Agent, handle: h, parent },
                ) + discard_old(v.finals, run_id@).push(SpanOp::Stash { slot: (h + 1) as u64 })
            }),
    {
        let ghost v = self.book_view();
        let mut ops: Vec<SpanOp> = Vec::new();
        let parent = match parent_run_id {
            Some(p) => handles_get(&self.agent_spans, p),
            None => None,
        };
        let h = self.next_handle;
        self.next_handle = h + 1;
        let old_agent = handles_insert(&mut self.agent_spans, run_id.clone(), h);
        Self::discard_into(&mut ops, old_agent);
        ops.push(SpanOp::Open { kind: SpanKind::Agent, handle: h, parent });
        let slot = self.next_handle;
        self.next_handle = slot + 1;
        let ghost mid = ops@;
        let old_slot = handles_insert(&mut self.agent_final_results, run_id, slot);
        Self::discard_into(&mut ops, old_slot);
        ops.push(SpanOp::Stash { slot });
        proof {
            assert(ops@ =~= mid + discard_old(v.finals, run_id@).push(SpanOp::Stash { slot }));
            assert(self.book_view() =~= BookView {
                agent: v.agent.insert(run_id@, h),
                finals: v.finals.insert(run_id@, (h + 1) as u64),
                next: (h + 2) as u64,
                ..v
            });
        }
        ops
    }

    /// Marks a run as executed remotely; the handle of its agent span, if
    /// kept, to record that on.
    pub fn mark_run_as_remote(&mut self, run_id: String) -> (res: Option<u64>)
        requires
            old(self).wf(),
        ensures
            final(self).wf(),
            final(self).book_view() == (BookView {
                remote: old(self).book_view().remote.insert(run_id@),
                ..old(self).book_view()
            }),
            res == (if old(self).book_view().agent.dom().contains(run_id@) {
                Some(old(self).book_view().agent[run_id@])
            } else {
                None
            }),
    {
        let ghost v = self.book_view();
        let h = handles_get(&self.agent_spans, run_id.as_str());
        members_insert(&mut self.remote_run_ids, run_id);
        proof {
            assert(self.book_view() =~= BookView { remote: v.remote.insert(run_id@), ..v });
        }
        h
    }

    /// The handle of a run's agent span, if kept (to mark it as a workflow).
    pub fn agent_span(&self, run_id: &str) -> (res: Option<u64>)
        requires
            self.wf(),
        ensures
            res == (if self.book_view().agent.dom().contains(run_id@) {
                Some(self.book_view().agent[run_id@])
            } else {
                None
            }),
    {
        handles_get(&self.agent_spans, run_id)
    }

    fn open_step_parent(&self, run_id: &str) -> (res: Option<u64>)
        requires
            self.wf(),
        ensures
            res == step_parent(self.book_view(), run_id@),
    {
        match step_ids_get(&self.current_step_id, run_id) {
            Some(step) => handles_get(&self.step_spans, step.as_str()),
            None => None,
        }
    }

    /// The book's answer to an event of run `run_id`.
    #[verifier::rlimit(30)]
    pub fn on_event(&mut self, run_id: &str, ev: &SpanEvent) -> (res: Vec<SpanOp>)
        requires
            old(self).wf(),
            opens_span(*ev) ==> old(self).book_view().next < u64::MAX - 2,
        ensures
            final(self).wf(),
            (final(self).book_view(), res@) == spec_on_event(old(self).book_view(), run_id@, *ev),
    {
        let ghost v0 = self.book_view();
        if members_contains(&self.remote_run_ids, run_id) {
            let end = match ev {
                SpanEvent::RunError | SpanEvent::RunFinished => true,
                _ => false,
            };
            if !end {
                return Vec::new();
            }
            members_remove(&mut self.remote_run_ids, run_id);
            proof {
                assert(self.book_view() =~= BookView { remote: v0.remote.remove(run_id@), ..v0 });
            }
        }
        self.handle(run_id, ev)
    }

    #[verifier::rlimit(40)]
    fn handle(&mut self, run_id: &str, ev: &SpanEvent) -> (res: Vec<SpanOp>)
        requires
            old(self).wf(),
            opens_span(*ev) ==> old(self).book_view().next < u64::MAX - 2,
        ensures
            final(self).wf(),
            (final(self).book_view(), res@) == spec_handle(old(self).book_view(), run_id@, *ev),
    {
        let ghost v = self.book_view();
        let mut ops: Vec<SpanOp> = Vec::new();
        match ev {
            SpanEvent::PlanStarted => {
                let parent = self.open_step_parent(run_id);
                let h = self.next_handle;
                self.next_handle = h + 1;
                let old_span = handles_insert(&mut self.plan_spans, crate::text::owned(run_id), h);
                Self::discard_into(&mut ops, old_span);
                ops.push(SpanOp::Open { kind: SpanKind::Plan, handle: h, parent });
                proof {
                    assert(self.book_view() =~= BookView { plan: v.plan.insert(run_id@, h), next: (h + 1) as u64, ..v });
                }
            },
            SpanEvent::PlanFinished => {
                match handles_remove(&mut self.plan_spans, run_id) {
                    Some(h) => {
                        ops.push(SpanOp::Finish { kind: SpanKind::Plan, handle: h, index: 0 });
                        proof {
                            assert(self.book_view() =~= BookView { plan: v.plan.remove(run_id@), ..v });
                        }
                    },
                    None => {
                        proof {
                            assert(v.plan.remove(run_id@) =~= v.plan);
                        }
                    },
                }
            },
            SpanEvent::StepStarted { step_id } => {
                let h = self.next_handle;
                self.next_handle = h + 1;
                let old_span = handles_insert(&mut self.step_spans, step_id.clone(), h);
                Self::discard_into(&mut ops, old_span);
                step_ids_insert(&mut self.current_step_id, crate::text::owned(run_id), step_id.clone());
                ops.push(SpanOp::Open { kind: SpanKind::Step, handle: h, parent: None });
                proof {
                    assert(self.book_view() =~= BookView {
                        step: v.step.insert(step_id@, h),
                        current: v.current.insert(run_id@, step_id@),
                        next: (h + 1) as u64,
                        ..v
                    });
                }
            },
            SpanEvent::StepCompleted { step_id } => {
                let old_span = handles_remove(&mut self.step_spans, step_id.as_str());
                step_ids_remove(&mut self.current_step_id, run_id);
                match old_span {
                    Some(h) => {
                        ops.push(SpanOp::Finish { kind: SpanKind::Step, handle: h, index: 0 });
                    },
                    None => {},
                }
                proof {
                    assert(self.book_view() =~= BookView {
                        step: v.step.remove(step_id@),
                        current: v.current.remove(run_id@),
                        ..v
                    });
                }
            },
            SpanEvent::ReflectStarted => {
                let parent = self.open_step_parent(run_id);
                let h = self.next_handle;
                self.next_handle = h + 1;
                let old_span = handles_insert(&mut self.reflect_spans, crate::text::owned(run_id), h);
                Self::discard_into(&mut ops, old_span);
                ops.push(SpanOp::Open { kind: SpanKind::Reflect, handle: h, parent });
                proof {
                    assert(self.book_view() =~= BookView {
                        reflect: v.reflect.insert(run_id@, h),
                        next: (h + 1) as u64,
                        ..v
                    });
                }
            },
            SpanEvent::ReflectFinished => {
                match handles_remove(&mut self.reflect_spans, run_id) {
                    Some(h) => {
                        ops.push(SpanOp::Finish { kind: SpanKind::Reflect, handle: h, index: 0 });
                        proof {
                            assert(self.book_view() =~= BookView { reflect: v.reflect.remove(run_id@), ..v });
                        }
                    },
                    None => {
                        proof {
                            assert(v.reflect.remove(run_id@) =~= v.reflect);
                        }
                    },
                }
            },
            SpanEvent::ToolExecutionStart { tool_call_id, step_id } => {
                let parent = handles_get(&self.step_spans, step_id.as_str());
                let h = self.next_handle;
                self.next_handle = h + 1;
                let old_span = handles_insert(&mut self.tool_spans, tool_call_id.clone(), h);
                Self::discard_into(&mut ops, old_span);
                ops.push(SpanOp::Open { kind: SpanKind::Tool, handle: h, parent });
                proof {
                    assert(self.book_view() =~= BookView {
                        tool: v.tool.insert(tool_call_id@, h),
                        next: (h + 1) as u64,
                        ..v
                    });
                }
            },
            SpanEvent::ToolExecutionEnd { tool_call_id } => {
                match handles_get(&self.tool_spans, tool_call_id.as_str()) {
                    Some(h) => {
                        ops.push(SpanOp::RecordToolEnd { handle: h });
                    },
                    None => {},
                }
            },
            SpanEvent::ToolResults { tool_call_ids } => {
                let mut i: usize = 0;
                while i < tool_call_ids.len()
                    invariant
                        i <= tool_call_ids.len(),
                        self.wf(),
                        (self.book_view(), ops@) == ({
                            let r = results_fold(v.tool, tool_call_ids@.take(i as int));
                            (BookView { tool: r.0, ..v }, r.1)
                        }),
                    decreases tool_call_ids.len() - i,
                {
                    proof {
                        assert(tool_call_ids@.take(i + 1).drop_last() =~= tool_call_ids@.take(i as int));
                        assert(tool_call_ids@.take(i + 1).last() == tool_call_ids@[i as int]);
                    }
                    let ghost bv = self.book_view();
                    let ghost prev = results_fold(v.tool, tool_call_ids@.take(i as int));
                    let ghost next = results_fold(v.tool, tool_call_ids@.take(i + 1));
                    let ghost k = tool_call_ids@[i as int]@;
                    assert(bv.tool == prev.0);
                    match handles_remove(&mut self.tool_spans, tool_call_ids[i].as_str()) {
                        Some(h) => {
                            ops.push(SpanOp::Finish { kind: SpanKind::Tool, handle: h, index: i });
                            proof {
                                assert(prev.0.dom().contains(k));
                                assert(next.0 == prev.0.remove(k));
                                assert(ops@ == next.1);
                            }
                        },
                        None => {
                            proof {
                                assert(!prev.0.dom().contains(k));
                                assert(next == prev);
                                assert(prev.0.remove(k) =~= prev.0);
                            }
                        },
                    }
                    proof {
                        assert(handles_of(self.tool_spans) == next.0);
                        assert(self.book_view() =~= BookView { tool: next.0, ..v });
                    }
                    i = i + 1;
                }
                assert(tool_call_ids@.take(i as int) =~= tool_call_ids@);
            },
            SpanEvent::RunError | SpanEvent::RunFinished => {
                match handles_remove(&mut self.agent_final_results, run_id) {
                    Some(slot) => {
                        ops.push(SpanOp::TakeFinalResult { slot });
                    },
                    None => {},
                }
                let ghost mid = ops@;
                match handles_remove(&mut self.agent_spans, run_id) {
                    Some(h) => {
                        ops.push(SpanOp::Finish { kind: SpanKind::Agent, handle: h, index: 0 });
                    },
                    None => {},
                }
                proof {
                    assert(self.book_view() =~= BookView {
                        finals: v.finals.remove(run_id@),
                        agent: v.agent.remove(run_id@),
                        ..v
                    });
                    assert(ops@ =~= mid + if v.agent.dom().contains(run_id@) {
                        seq![SpanOp::Finish { kind: SpanKind::Agent, handle: v.agent[run_id@], index: 0 }]
                    } else {
                        Seq::empty()
                    });
                }
            },
            SpanEvent::Other => {},
        }
        ops
    }
}

/// Tool results finish exactly the spans of the calls they answer: after
/// them no answered call keeps a span, and every other call keeps its own.
pub proof fn lemma_results_fold(tool: Map<Seq<char>, u64>, ids: Seq<String>)
    ensures
        forall|k: Seq<char>| #[trigger] results_fold(tool, ids).0.dom().contains(k) <==> (tool.dom().contains(k)
            && !ids.map_values(|s: String| s@).contains(k)),
        forall|k: Seq<char>| #[trigger] results_fold(tool, ids).0.dom().contains(k) ==> results_fold(tool, ids).0[k]
            == tool[k],
    decreases ids.len(),
{
    if ids.len() > 0 {
        lemma_results_fold(tool, ids.drop_last());
        let views = ids.map_values(|s: String| s@);
        let prev_views = ids.drop_last().map_values(|s: String| s@);
        assert(views =~= prev_views.push(ids.last()@));
        assert forall|k: Seq<char>| views.contains(k) <==> (prev_views.contains(k) || k == ids.last()@) by {
            if views.contains(k) {
                let j = choose|j: int| 0 <= j < views.len() && views[j] == k;
                if j < prev_views.len() {
                    assert(prev_views[j] == k);
                }
            }
            if prev_views.contains(k) {
                let j = choose|j: int| 0 <= j < prev_views.len() && prev_views[j] == k;
                assert(views[j] == k);
            }
            if k == ids.last()@ {
                assert(views[views.len() - 1] == k);
            }
        }
        let prev = results_fold(tool, ids.drop_last());
        let cur = results_fold(tool, ids);
        assert forall|k: Seq<char>| #[trigger] cur.0.dom().contains(k) <==> (tool.dom().contains(k)
            && !views.contains(k)) by {
            assert(prev.0.dom().contains(k) <==> (tool.dom().contains(k) && !prev_views.contains(k)));
        }
        assert forall|k: Seq<char>| #[trigger] cur.0.dom().contains(k) implies cur.0[k] == tool[k] by {
            assert(prev.0.dom().contains(k));
        }
    }
}

/// Tool results of a run that is not remote remove exactly the spans of the
/// calls they answer and change nothing else the book keeps.
pub proof fn lemma_tool_results_remove_answered(v: BookView, run: Seq<char>, ids: Vec<String>)
    requires
        !v.remote.contains(run),
    ensures
        ({
            let w = spec_on_event(v, run, SpanEvent::ToolResults { tool_call_ids: ids }).0;
            &&& forall|k: Seq<char>| #[trigger] w.tool.dom().contains(k) <==> (v.tool.dom().contains(k)
                && !ids@.map_values(|s: String| s@).contains(k))
            &&& forall|k: Seq<char>| #[trigger] w.tool.dom().contains(k) ==> w.tool[k] == v.tool[k]
            &&& w == BookView { tool: w.tool, ..v }
        }),
{
    lemma_results_fold(v.tool, ids@);
}

/// The end of a tool's execution records on its span and keeps it, so that
/// its results can still be recorded; the results then finish it.
pub proof fn lemma_tool_span_lifecycle(v: BookView, run: Seq<char>, call: String, step: String, answered: Vec<String>)
    requires
        !v.remote.contains(run),
        answered@.map_values(|s: String| s@).contains(call@),
    ensures
        ({
            let started = spec_on_event(v, run, SpanEvent::ToolExecutionStart { tool_call_id: call, step_id: step }).0;
            let ended = spec_on_event(started, run, SpanEvent::ToolExecutionEnd { tool_call_id: call });
            let done = spec_on_event(ended.0, run, SpanEvent::ToolResults { tool_call_ids: answered }).0;
            &&& started.tool.dom().contains(call@)
            &&& started.tool[call@] == v.next
            &&& ended.0 == started
            &&& ended.1 == seq![SpanOp::RecordToolEnd { handle: v.next }]
            &&& !done.tool.dom().contains(call@)
        }),
{
    let started = spec_on_event(v, run, SpanEvent::ToolExecutionStart { tool_call_id: call, step_id: step }).0;
    lemma_results_fold(started.tool, answered@);
}

/// A remote run's forwarded events, other than its end, change nothing and
/// open nothing.
pub proof fn lemma_remote_events_ignored(v: BookView, run: Seq<char>, ev: SpanEvent)
    requires
        v.remote.contains(run),
        !is_run_end(ev),
    ensures
        spec_on_event(v, run, ev) == (v, Seq::<SpanOp>::empty()),
{
}

/// The end of a run, failed or not, forgets its agent span, its final-result
/// slot and its remote mark.
pub proof fn lemma_run_end_cleans_up(v: BookView, run: Seq<char>, ev: SpanEvent)
    requires
        is_run_end(ev),
    ensures
        !spec_on_event(v, run, ev).0.agent.dom().contains(run),
        !spec_on_event(v, run, ev).0.finals.dom().contains(run),
        !spec_on_event(v, run, ev).0.remote.contains(run),
{
}

/// Every span opened gets a handle that no kept span or slot has.
pub proof fn lemma_open_handles_fresh(v: BookView, run: Seq<char>, ev: SpanEvent)
    requires
        handles_below(v),
        v.next < u64::MAX - 2,
    ensures
        forall|i: int|
            0 <= i < spec_on_event(v, run, ev).1.len() ==> (#[trigger] spec_on_event(v, run, ev).1[i] matches SpanOp::Open {
                handle,
                ..
            } ==> handle == v.next && !v.agent.values().contains(handle) && !v.finals.values().contains(handle)
                && !v.plan.values().contains(handle) && !v.step.values().contains(handle)
                && !v.reflect.values().contains(handle) && !v.tool.values().contains(handle)),
{
    let r = spec_on_event(v, run, ev);
    assert forall|i: int| 0 <= i < r.1.len() implies (#[trigger] r.1[i] matches SpanOp::Open { handle, .. }
        ==> handle == v.next) by {
        match ev {
            SpanEvent::ToolResults { tool_call_ids } => {
                if !v.remote.contains(run) {
                    lemma_results_fold_ops(v.tool, tool_call_ids@);
                }
            },
            _ => {},
        }
    }
}

/// Tool results only finish spans.
pub proof fn lemma_results_fold_ops(tool: Map<Seq<char>, u64>, ids: Seq<String>)
    ensures
        forall|i: int| 0 <= i < results_fold(tool, ids).1.len() ==> #[trigger] results_fold(tool, ids).1[i] is Finish,
    decreases ids.len(),
{
    if ids.len() > 0 {
        lemma_results_fold_ops(tool, ids.drop_last());
    }
}

/// Tool results finish each span with the response of the call that owns
/// it: every `Finish` they produce is a tool span's, its index points at a
/// response in the results, and the span finished is the one kept for that
/// response's call.
pub proof fn lemma_results_fold_finish_own_response(tool: Map<Seq<char>, u64>, ids: Seq<String>)
    requires
        ids.len() <= usize::MAX,
    ensures
        forall|i: int|
            0 <= i < results_fold(tool, ids).1.len() ==> (#[trigger] results_fold(tool, ids).1[i] matches SpanOp::Finish {
                kind,
                handle,
                index,
            } ==> kind == SpanKind::Tool && index < ids.len() && tool.dom().contains(ids[index as int]@)
                && tool[ids[index as int]@] == handle),
    decreases ids.len(),
{
    if ids.len() > 0 {
        let prev_ids = ids.drop_last();
        lemma_results_fold_finish_own_response(tool, prev_ids);
        lemma_results_fold(tool, prev_ids);
        let prev = results_fold(tool, prev_ids);
        let cur = results_fold(tool, ids);
        assert forall|i: int| 0 <= i < cur.1.len() implies (#[trigger] cur.1[i] matches SpanOp::Finish {
            kind,
            handle,
            index,
        } ==> kind == SpanKind::Tool && index < ids.len() && tool.dom().contains(ids[index as int]@)
            && tool[ids[index as int]@] == handle) by {
            let k = ids.last()@;
            if i < prev.1.len() {
                assert(cur.1[i] == prev.1[i]);
                match prev.1[i] {
                    SpanOp::Finish { kind, handle, index } => {
                        assert(index < prev_ids.len());
                        assert(prev_ids[index as int] == ids[index as int]);
                    },
                    _ => {},
                }
            } else {
                assert(prev.0.dom().contains(k));
                assert(cur.1[i] == SpanOp::Finish { kind: SpanKind::Tool, handle: prev.0[k], index: (ids.len() - 1) as usize });
                assert(prev.0[k] == tool[k]);
                assert(tool.dom().contains(k));
                assert(ids[ids.len() - 1] == ids.last());
            }
        }
    }
}

/// For a run that is not remote, each `Finish` that tool results give
/// carries the index of the response whose call owns the finished span.
pub proof fn lemma_tool_results_finish_own_response(v: BookView, run: Seq<char>, ids: Vec<String>)
    requires
        !v.remote.contains(run),
    ensures
        ({
            let ops = spec_on_event(v, run, SpanEvent::ToolResults { tool_call_ids: ids }).1;
            forall|i: int|
                0 <= i < ops.len() ==> (#[trigger] ops[i] matches SpanOp::Finish { kind, handle, index } ==> kind
                    == SpanKind::Tool && index < ids@.len() && v.tool.dom().contains(ids@[index as int]@)
                    && v.tool[ids@[index as int]@] == handle)
        }),
{
    assert(ids@.len() <= usize::MAX) by {
        assert(ids@.len() == ids.len());
    }
    lemma_results_fold_finish_own_response(v.tool, ids@);
}

} // verus!
