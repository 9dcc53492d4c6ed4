# distri_core

The decision-making core of the distri agent runtime, written in Verus and
verified: every public function in `src/` carries a contract (private
helpers carry one where their callers' proofs need it), and the properties
that span several calls are stated and proved as public proof functions
(`lemma_*`).

## Layout

- `src/` — the verified library.
  - `agent_loop` — the execution loop as a state machine (plan, run a step,
    replan, reflect, stop), completion validation; the results of tool and
    code steps are built in `tool_batch`.
  - `span_book` — bookkeeping of tracing spans per run, step and tool call.
  - `connections`, `delegation`, `tool_batch` — declared connections, the
    sub-agent and skill listings, tool-call batches and external tools.
  - `formatter`, `context_size`, `skill_tracker` — history ordering, tool
    prompts, user turns, scratchpad trimming, skill re-injection.
  - `history`, `scratchpad`, `native_history`, `usage` — a thread's
    message history, the scratchpad text of the prompt, the native
    tool-calling history (which executions are compacted, summary and skill
    messages), token accounting per step and per run.
  - `prompt_validation`, `code_plan`, `planning` — template checks and the
    validation report, code plans from model output, plan steps, the
    planner's retries, replanning.
  - `a2a_history` — the order tasks are replayed to A2A clients.
  - `trace`, `model_log`, `pricing`, `plugins`, `browser_sessions`,
    `agent_types`, `message`, `definition` — trace ids, log truncation,
    pricing-key choice, plugin prefixes, session table, shared types.
  - `text` — character-level helpers.
  - `dash` — the concurrent maps and sets of `dashmap` that span and
    session bookkeeping keep, with what each method used does to them.
- `tests/` — tests of the library on concrete values.
- `app/` — glue the verifier does not see: environment, JSON values,
  floating-point costs and ratios, OpenTelemetry contexts, the serde forms
  of library types, and drivers that run the library's state machines
  against the outside work (model calls, tools, spans).
