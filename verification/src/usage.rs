//! Token accounting of a run: cumulative counters, the counts at the start
//! of the current step, and the per-step and whole-run figures derived from
//! them. Prices are applied to these figures by the caller.
use vstd::prelude::*;
use crate::model_log::{decimal, usize_to_decimal};
use crate::text::string_from_chars;

verus! {

/// The token counters of a run.
pub struct UsageCounters {
    /// Input plus output tokens over the run.
    pub tokens: u32,
    pub input_tokens: u32,
    pub output_tokens: u32,
    pub cached_tokens: u32,
    /// The counters when the current step started.
    pub step_input_start: u32,
    pub step_output_start: u32,
    pub step_cached_start: u32,
    /// Loop iterations taken so far.
    pub current_iteration: usize,
    /// The model the tokens were spent on, for pricing.
    pub model: Option<String>,
}

/// Token figures of a step or of a whole run.
pub struct TokenCounts {
    pub total_tokens: u32,
    pub input_tokens: u32,
    pub output_tokens: u32,
    pub cached_tokens: u32,
    pub model: Option<String>,
}

/// `a - b`, or 0 when `b` is larger.
pub open spec fn sat_sub(a: u32, b: u32) -> int {
    if b > a {
        0
    } else {
        a - b
    }
}

/// A call of the model: its input, output and cached tokens.
pub type TokenSpend = (u32, u32, u32);

/// The sums of a sequence of spends: (input, output, cached).
pub open spec fn spend_sums(spends: Seq<TokenSpend>) -> (int, int, int)
    decreases spends.len(),
{
    if spends.len() == 0 {
        (0, 0, 0)
    } else {
        let prev = spend_sums(spends.drop_last());
        let s = spends.last();
        (prev.0 + s.0, prev.1 + s.1, prev.2 + s.2)
    }
}

/// The counters after recording `spend`.
pub open spec fn spec_after_spend(u: UsageCounters, spend: TokenSpend) -> UsageCounters {
    UsageCounters {
        tokens: (u.tokens + spend.0 + spend.1) as u32,
        input_tokens: (u.input_tokens + spend.0) as u32,
        output_tokens: (u.output_tokens + spend.1) as u32,
        cached_tokens: (u.cached_tokens + spend.2) as u32,
        ..u
    }
}

/// Whether recording `spend` keeps every counter within `u32`.
pub open spec fn spend_fits(u: UsageCounters, spend: TokenSpend) -> bool {
    &&& u.tokens + spend.0 + spend.1 <= u32::MAX
    &&& u.input_tokens + spend.0 <= u32::MAX
    &&& u.output_tokens + spend.1 <= u32::MAX
    &&& u.cached_tokens + spend.2 <= u32::MAX
}

/// The counters after recording each spend in turn.
pub open spec fn spec_after_spends(u: UsageCounters, spends: Seq<TokenSpend>) -> UsageCounters
    decreases spends.len(),
{
    if spends.len() == 0 {
        u
    } else {
        spec_after_spend(spec_after_spends(u, spends.drop_last()), spends.last())
    }
}

/// The counters after the current step is marked as starting.
pub open spec fn spec_snapshot(u: UsageCounters) -> UsageCounters {
    UsageCounters {
        step_input_start: u.input_tokens,
        step_output_start: u.output_tokens,
        step_cached_start: u.cached_tokens,
        ..u
    }
}

/// The text that reports the iteration count against its limit: `i/max`.
pub open spec fn iteration_text(current: usize, max_iterations: usize) -> Seq<char> {
    decimal(current as nat) + seq!['/'] + decimal(max_iterations as nat)
}

fn clone_model(m: &Option<String>) -> (res: Option<String>)
    ensures
        res == *m,
{
    match m {
        Some(s) => Some(s.clone()),
        None => None,
    }
}

impl UsageCounters {
    /// All counters at zero, no model.
    pub fn new() -> (res: Self)
        ensures
            res.tokens == 0 && res.input_tokens == 0 && res.output_tokens == 0 && res.cached_tokens == 0,
            res.step_input_start == 0 && res.step_output_start == 0 && res.step_cached_start == 0,
            res.current_iteration == 0,
            res.model is None,
    {
        UsageCounters {
            tokens: 0,
            input_tokens: 0,
            output_tokens: 0,
            cached_tokens: 0,
            step_input_start: 0,
            step_output_start: 0,
            step_cached_start: 0,
            current_iteration: 0,
            model: None,
        }
    }

    /// Records a call's input and output tokens, none of them cached.
    pub fn increment_usage(&mut self, input_tokens: u32, output_tokens: u32)
        requires
            spend_fits(*old(self), (input_tokens, output_tokens, 0)),
        ensures
            *final(self) == spec_after_spend(*old(self), (input_tokens, output_tokens, 0)),
    {
        self.increment_usage_with_cache(input_tokens, output_tokens, 0);
    }

    /// Records a call's input, output and cached tokens.
    pub fn increment_usage_with_cache(&mut self, input_tokens: u32, output_tokens: u32, cached_tokens: u32)
        requires
            spend_fits(*old(self), (input_tokens, output_tokens, cached_tokens)),
        ensures
            *final(self) == spec_after_spend(*old(self), (input_tokens, output_tokens, cached_tokens)),
    {
        self.tokens = self.tokens + input_tokens + output_tokens;
        self.input_tokens = self.input_tokens + input_tokens;
        self.output_tokens = self.output_tokens + output_tokens;
        self.cached_tokens = self.cached_tokens + cached_tokens;
    }

    /// Names the model the run's tokens are spent on.
    pub fn set_usage_model(&mut self, model: String)
        ensures
            *final(self) == (UsageCounters { model: Some(model), ..*old(self) }),
    {
        self.model = Some(model);
    }

    /// Counts one more loop iteration.
    pub fn increment_iteration(&mut self)
        requires
            old(self).current_iteration < usize::MAX,
        ensures
            *final(self) == (UsageCounters { current_iteration: (old(self).current_iteration + 1) as usize, ..*old(self) }),
    {
        self.current_iteration = self.current_iteration + 1;
    }

    /// Marks the start of a step: the current counters become its baseline.
    pub fn snapshot_step_start(&mut self)
        ensures
            *final(self) == spec_snapshot(*old(self)),
    {
        self.step_input_start = self.input_tokens;
        self.step_output_start = self.output_tokens;
        self.step_cached_start = self.cached_tokens;
    }

    /// The tokens spent since the step started (a counter below its
    /// baseline counts 0).
    pub fn get_step_usage(&self) -> (res: TokenCounts)
        requires
            sat_sub(self.input_tokens, self.step_input_start) + sat_sub(self.output_tokens, self.step_output_start)
                <= u32::MAX,
        ensures
            res.input_tokens == sat_sub(self.input_tokens, self.step_input_start),
            res.output_tokens == sat_sub(self.output_tokens, self.step_output_start),
            res.cached_tokens == sat_sub(self.cached_tokens, self.step_cached_start),
            res.total_tokens == res.input_tokens + res.output_tokens,
            res.model == self.model,
    {
        let delta_input = self.input_tokens.saturating_sub(self.step_input_start);
        let delta_output = self.output_tokens.saturating_sub(self.step_output_start);
        let delta_cached = self.cached_tokens.saturating_sub(self.step_cached_start);
        TokenCounts {
            total_tokens: delta_input + delta_output,
            input_tokens: delta_input,
            output_tokens: delta_output,
            cached_tokens: delta_cached,
            model: clone_model(&self.model),
        }
    }

    /// The run's cumulative figures.
    pub fn get_total_usage(&self) -> (res: TokenCounts)
        ensures
            res.total_tokens == self.tokens,
            res.input_tokens == self.input_tokens,
            res.output_tokens == self.output_tokens,
            res.cached_tokens == self.cached_tokens,
            res.model == self.model,
    {
        TokenCounts {
            total_tokens: self.tokens,
            input_tokens: self.input_tokens,
            output_tokens: self.output_tokens,
            cached_tokens: self.cached_tokens,
            model: clone_model(&self.model),
        }
    }

    /// The iteration count against its limit, as `i/max`.
    pub fn get_iteration_info(&self, max_iterations: usize) -> (res: String)
        ensures
            res@ == iteration_text(self.current_iteration, max_iterations),
    {
        let mut chars = usize_to_decimal(self.current_iteration);
        chars.push('/');
        let mut tail = usize_to_decimal(max_iterations);
        chars.append(&mut tail);
        string_from_chars(chars.as_slice())
    }
}

/// Whether each spend, recorded in turn from `u`, keeps every counter
/// within `u32`.
pub open spec fn spends_fit(u: UsageCounters, spends: Seq<TokenSpend>) -> bool {
    forall|i: int| 0 <= i < spends.len() ==> spend_fits(#[trigger] spec_after_spends(u, spends.take(i)), spends[i])
}

/// Recording spends grows each counter by exactly the sum of what was
/// spent, keeps the step baseline, and keeps the run total equal to input
/// plus output tokens when it was so before.
pub proof fn lemma_spends_add_up(u: UsageCounters, spends: Seq<TokenSpend>)
    requires
        spends_fit(u, spends),
    ensures
        spec_after_spends(u, spends).input_tokens == u.input_tokens + spend_sums(spends).0,
        spec_after_spends(u, spends).output_tokens == u.output_tokens + spend_sums(spends).1,
        spec_after_spends(u, spends).cached_tokens == u.cached_tokens + spend_sums(spends).2,
        spec_after_spends(u, spends).step_input_start == u.step_input_start,
        spec_after_spends(u, spends).step_output_start == u.step_output_start,
        spec_after_spends(u, spends).step_cached_start == u.step_cached_start,
        u.tokens == u.input_tokens + u.output_tokens ==> spec_after_spends(u, spends).tokens
            == spec_after_spends(u, spends).input_tokens + spec_after_spends(u, spends).output_tokens,
    decreases spends.len(),
{
    if spends.len() > 0 {
        let prev = spends.drop_last();
        assert forall|i: int| 0 <= i < prev.len() implies spend_fits(
            #[trigger] spec_after_spends(u, prev.take(i)),
            prev[i],
        ) by {
            assert(prev.take(i) =~= spends.take(i));
            assert(spend_fits(spec_after_spends(u, spends.take(i)), spends[i]));
        }
        lemma_spends_add_up(u, prev);
        let k = spends.len() - 1;
        assert(spends.take(k) =~= prev);
        assert(spend_fits(spec_after_spends(u, spends.take(k)), spends[k]));
    }
}

/// Within one step, the step's figures are exactly what was spent since the
/// step started, whatever the counters held before.
pub proof fn lemma_step_usage_counts_the_step(u: UsageCounters, spends: Seq<TokenSpend>)
    requires
        spends_fit(spec_snapshot(u), spends),
    ensures
        ({
            let w = spec_after_spends(spec_snapshot(u), spends);
            &&& sat_sub(w.input_tokens, w.step_input_start) == spend_sums(spends).0
            &&& sat_sub(w.output_tokens, w.step_output_start) == spend_sums(spends).1
            &&& sat_sub(w.cached_tokens, w.step_cached_start) == spend_sums(spends).2
        }),
{
    lemma_spends_add_up(spec_snapshot(u), spends);
    lemma_spend_sums_nonneg(spends);
}

proof fn lemma_spend_sums_nonneg(spends: Seq<TokenSpend>)
    ensures
        spend_sums(spends).0 >= 0,
        spend_sums(spends).1 >= 0,
        spend_sums(spends).2 >= 0,
    decreases spends.len(),
{
    if spends.len() > 0 {
        lemma_spend_sums_nonneg(spends.drop_last());
    }
}

} // verus!
