//! The parts of an agent definition that the planning and validation logic reads.
use vstd::prelude::*;

verus! {

/// How tool calls are expected to appear in model output.
#[derive(PartialEq, Eq, Structural, Clone, Copy, Debug)]
pub enum ToolCallFormat {
    JsonL,
    Xml,
    Code,
    Provider,
    NoFormat,
}

/// Where the agent runs.
#[derive(PartialEq, Eq, Structural, Clone, Copy, Debug)]
pub enum RuntimeMode {
    Cli,
    Cloud,
    Browser,
}

#[derive(PartialEq, Eq, Structural, Clone, Copy, Debug)]
pub enum ReasoningDepth {
    Shallow,
    Standard,
    Deep,
}

#[derive(PartialEq, Eq, Structural, Clone, Copy, Debug)]
pub enum ExecutionMode {
    Tools,
    Code,
}

/// When the planner re-plans.
#[derive(PartialEq, Eq, Structural, Clone, Copy, Debug)]
pub enum ReplanningTrigger {
    Never,
    AfterFailures,
    AfterNIterations(usize),
    AfterReflection,
}

#[derive(PartialEq, Eq, Structural, Clone, Copy, Debug)]
pub struct ReplanningConfig {
    pub enabled: bool,
    pub trigger: ReplanningTrigger,
}

/// The strategy settings of an agent, as resolved for planning.
#[derive(PartialEq, Eq, Structural, Clone, Copy, Debug)]
pub struct AgentStrategy {
    pub reasoning_depth: ReasoningDepth,
    pub execution_mode: ExecutionMode,
    pub replanning: ReplanningConfig,
}

impl AgentStrategy {
    pub fn get_reasoning_depth(&self) -> (res: ReasoningDepth)
        ensures
            res == self.reasoning_depth,
    {
        self.reasoning_depth
    }

    pub fn get_execution_mode(&self) -> (res: ExecutionMode)
        ensures
            res == self.execution_mode,
    {
        self.execution_mode
    }

    pub fn get_replanning(&self) -> (res: ReplanningConfig)
        ensures
            res == self.replanning,
    {
        self.replanning
    }
}

/// Agent definition fields used by prompt validation and message formatting.
pub struct StandardDefinition {
    pub name: String,
    pub instructions: String,
    pub append_default_instructions: Option<bool>,
    pub history_size: Option<usize>,
    pub max_iterations: Option<usize>,
    pub tool_format: ToolCallFormat,
    pub strategy: Option<AgentStrategy>,
}

} // verus!
