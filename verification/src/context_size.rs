//! Trimming of scratchpad entries to a token budget, and the emergency reset.
//!
//! Entries are described by their kind; token estimates are computed by the
//! caller (from the formatted entries) and passed in. The functions return
//! the indices of the entries to keep, in the order the trimmed scratchpad
//! lists them.
use vstd::prelude::*;

verus! {

/// What the trimming logic needs to know of a scratchpad entry.
#[derive(PartialEq, Eq, Structural, Clone, Copy, Debug)]
pub enum EntryKind {
    /// The user's task.
    Task,
    /// Re-injected skill content; always preserved.
    SkillContext,
    /// Anything else (plan steps, executions, summaries).
    Other,
}

/// Settings of the mechanical trimming (the token limit, the minimum number
/// of entries to keep, and whether the user task is preserved at the top).
pub struct ContextSizeManager {
    pub max_tokens: usize,
    pub min_entries: usize,
    pub preserve_user_task: bool,
}

/// Indices `0..n` of entries satisfying `p`, in order.
pub open spec fn indices_where(kinds: Seq<EntryKind>, p: spec_fn(EntryKind) -> bool) -> Seq<int>
    decreases kinds.len(),
{
    if kinds.len() == 0 {
        Seq::empty()
    } else if p(kinds.last()) {
        indices_where(kinds.drop_last(), p).push(kinds.len() - 1)
    } else {
        indices_where(kinds.drop_last(), p)
    }
}

pub open spec fn is_task(k: EntryKind) -> bool {
    k == EntryKind::Task
}

pub open spec fn is_skill(k: EntryKind) -> bool {
    k == EntryKind::SkillContext
}

/// Entries that trimming may drop: everything but skill context, and but
/// tasks when the user task is preserved.
pub open spec fn trimmable(preserve_user_task: bool) -> spec_fn(EntryKind) -> bool {
    |k: EntryKind| k == EntryKind::Other || (k == EntryKind::Task && !preserve_user_task)
}

/// Entries an emergency reset may drop: neither task nor skill context.
pub open spec fn droppable(k: EntryKind) -> bool {
    k == EntryKind::Other
}

/// The preserved head: the first task (when preserved), then every skill
/// context entry in order.
pub open spec fn preserved_head(kinds: Seq<EntryKind>, preserve_user_task: bool) -> Seq<int> {
    let tasks = indices_where(kinds, |k: EntryKind| is_task(k));
    let head = if preserve_user_task && tasks.len() > 0 {
        seq![tasks[0]]
    } else {
        Seq::<int>::empty()
    };
    head + indices_where(kinds, |k: EntryKind| is_skill(k))
}

/// How many of the most recent entries (tokens listed oldest first) are kept:
/// walking back from the newest, an entry is kept while it fits within `max`
/// or fewer than `min_keep` entries have been kept; the first one that does
/// neither stops the walk.
pub open spec fn keep_recent(tokens: Seq<usize>, current: int, max: int, min_keep: int, kept: int) -> int
    decreases tokens.len(),
{
    if tokens.len() == 0 {
        kept
    } else if current + tokens.last() <= max || kept < min_keep {
        keep_recent(tokens.drop_last(), current + tokens.last(), max, min_keep, kept + 1)
    } else {
        kept
    }
}

pub open spec fn sum_tokens(tokens: Seq<usize>) -> int
    decreases tokens.len(),
{
    if tokens.len() == 0 {
        0
    } else {
        sum_tokens(tokens.drop_last()) + tokens.last()
    }
}

/// Tokens of the entries at `idx`.
pub open spec fn tokens_at(tokens: Seq<usize>, idx: Seq<int>) -> Seq<usize> {
    idx.map_values(|i: int| tokens[i])
}

impl ContextSizeManager {
    /// Minimum number of trimmable entries always kept.
    pub open spec fn min_threshold(&self, kinds: Seq<EntryKind>) -> int {
        if self.preserve_user_task && indices_where(kinds, |k: EntryKind| is_task(k)).len() > 0 {
            if self.min_entries >= 1 {
                self.min_entries - 1
            } else {
                0
            }
        } else {
            self.min_entries as int
        }
    }

    /// Indices kept by `trim_scratchpad_entries`.
    pub open spec fn spec_trim(&self, kinds: Seq<EntryKind>, tokens: Seq<usize>, preserved_tokens: usize) -> Seq<int> {
        let others = indices_where(kinds, trimmable(self.preserve_user_task));
        let head = preserved_head(kinds, self.preserve_user_task);
        if others.len() <= self.min_entries {
            head + others
        } else {
            let k = keep_recent(
                tokens_at(tokens, others),
                preserved_tokens as int,
                self.max_tokens as int,
                self.min_threshold(kinds),
                0,
            );
            head + others.skip(others.len() - k)
        }
    }

    /// Indices kept by `emergency_reset`.
    pub open spec fn spec_emergency_reset(&self, kinds: Seq<EntryKind>) -> Seq<int> {
        let rest = indices_where(kinds, |k: EntryKind| droppable(k));
        let keep = if rest.len() < 2 {
            rest.len() as int
        } else {
            2
        };
        preserved_head(kinds, self.preserve_user_task) + rest.skip(rest.len() - keep)
    }

    pub fn new(max_tokens: usize, min_entries: usize, preserve_user_task: bool) -> (res: Self)
        ensures
            res.max_tokens == max_tokens,
            res.min_entries == min_entries,
            res.preserve_user_task == preserve_user_task,
    {
        ContextSizeManager { max_tokens, min_entries, preserve_user_task }
    }

    /// The default settings: 8000 tokens, at least 3 entries, user task
    /// preserved.
    pub fn default() -> (res: Self)
        ensures
            res.max_tokens == 8000,
            res.min_entries == 3,
            res.preserve_user_task,
    {
        ContextSizeManager { max_tokens: 8000, min_entries: 3, preserve_user_task: true }
    }

    /// The default settings with another token limit.
    pub fn with_max_tokens(max_tokens: usize) -> (res: Self)
        ensures
            res.max_tokens == max_tokens,
            res.min_entries == 3,
            res.preserve_user_task,
    {
        ContextSizeManager { max_tokens, min_entries: 3, preserve_user_task: true }
    }

    /// The entries trimming always keeps, in order: the user task (first
    /// one, when preserved) and every skill context entry. `preserved_tokens`
    /// of `trim_scratchpad_entries` is the estimate of these together.
    pub fn preserved_entries(&self, kinds: &[EntryKind]) -> (res: Vec<usize>)
        ensures
            usizes(res@) == preserved_head(kinds@, self.preserve_user_task),
    {
        let (task, skills, _others) = partition(kinds, self.preserve_user_task);
        let mut res: Vec<usize> = Vec::new();
        match task {
            Some(t) => {
                if self.preserve_user_task {
                    res.push(t);
                }
            },
            None => {},
        }
        let ghost head = usizes(res@);
        let mut skills = skills;
        res.append(&mut skills);
        assert(usizes(res@) =~= preserved_head(kinds@, self.preserve_user_task));
        res
    }

    /// Trim scratchpad entries to fit within the token limit, keeping the
    /// user task at the top, every skill context entry, and the most recent
    /// other entries. `entry_tokens[i]` is the estimate for entry `i`;
    /// `preserved_tokens` the estimate for `preserved_entries` together.
    pub fn trim_scratchpad_entries(&self, kinds: &[EntryKind], entry_tokens: &[usize], preserved_tokens: usize) -> (res: Vec<
        usize,
    >)
        requires
            entry_tokens@.len() == kinds@.len(),
            preserved_tokens + sum_tokens(entry_tokens@) <= usize::MAX,
        ensures
            usizes(res@) == self.spec_trim(kinds@, entry_tokens@, preserved_tokens),
    {
        if kinds.len() == 0 {
            let res: Vec<usize> = Vec::new();
            proof {
                assert(indices_where(kinds@, trimmable(self.preserve_user_task)) =~= Seq::<int>::empty());
                assert(indices_where(kinds@, |k: EntryKind| is_task(k)) =~= Seq::<int>::empty());
                assert(indices_where(kinds@, |k: EntryKind| is_skill(k)) =~= Seq::<int>::empty());
                assert(usizes(res@) =~= self.spec_trim(kinds@, entry_tokens@, preserved_tokens));
            }
            return res;
        }
        let (task, skills, others) = partition(kinds, self.preserve_user_task);
        let mut res: Vec<usize> = Vec::new();
        let has_task = match task {
            Some(t) => {
                if self.preserve_user_task {
                    res.push(t);
                }
                self.preserve_user_task
            },
            None => false,
        };
        let mut skills = skills;
        res.append(&mut skills);
        let ghost head = usizes(res@);
        assert(head =~= preserved_head(kinds@, self.preserve_user_task));
        let ghost ov = usizes(others@);
        if others.len() <= self.min_entries {
            let mut others = others;
            res.append(&mut others);
            assert(usizes(res@) =~= head + ov);
            return res;
        }
        let min_threshold = if has_task {
            if self.min_entries >= 1 {
                self.min_entries - 1
            } else {
                0
            }
        } else {
            self.min_entries
        };
        proof {
            lemma_others_sum(kinds@, entry_tokens@, self.preserve_user_task);
        }
        // Walk back from the most recent entry while entries fit (or the
        // minimum has not been reached).
        let ghost toks = tokens_at(entry_tokens@, ov);
        let mut current: usize = preserved_tokens;
        let mut kept: usize = 0;
        let mut j: usize = others.len();
        assert(toks.take(j as int) =~= toks);
        while j > 0
            invariant_except_break
                j + kept == others.len(),
                keep_recent(toks, preserved_tokens as int, self.max_tokens as int, min_threshold as int, 0)
                    == keep_recent(toks.take(j as int), current as int, self.max_tokens as int, min_threshold as int, kept as int),
                current + sum_tokens(toks.take(j as int)) <= usize::MAX,
            invariant
                j <= others.len(),
                ov == usizes(others@),
                toks == tokens_at(entry_tokens@, ov),
                toks.len() == others.len(),
                forall|m: int| 0 <= m < others@.len() ==> #[trigger] others@[m] < kinds@.len(),
                entry_tokens@.len() == kinds@.len(),
            ensures
                kept == keep_recent(toks, preserved_tokens as int, self.max_tokens as int, min_threshold as int, 0),
                kept <= others.len(),
            decreases j,
        {
            let idx = others[j - 1];
            let t = entry_tokens[idx];
            let ghost pre = toks.take(j as int);
            assert(pre.last() == t);
            assert(pre.drop_last() =~= toks.take(j - 1));
            proof {
                lemma_sum_nonneg(toks.take(j - 1));
            }
            if (current + t <= self.max_tokens) || kept < min_threshold {
                current = current + t;
                kept = kept + 1;
                j = j - 1;
            } else {
                break;
            }
        }
        proof {
            if j == 0 {
                assert(toks.take(0) =~= Seq::<usize>::empty());
            }
        }
        let ghost min_spec = self.min_threshold(kinds@);
        assert(min_threshold as int == min_spec);
        let mut i: usize = others.len() - kept;
        while i < others.len()
            invariant
                others.len() - kept <= i <= others.len(),
                ov == usizes(others@),
                ov.len() == others@.len(),
                kept <= others.len(),
                usizes(res@) == head + ov.subrange(others.len() - kept, i as int),
            decreases others.len() - i,
        {
            let ghost prev = usizes(res@);
            res.push(others[i]);
            assert(usizes(res@) =~= prev.push(others@[i as int] as int));
            assert(ov[i as int] == others@[i as int] as int);
            assert(ov.subrange(others.len() - kept, i + 1) =~= ov.subrange(others.len() - kept, i as int).push(ov[i as int]));
            i = i + 1;
            assert(usizes(res@) =~= head + ov.subrange(others.len() - kept, i as int));
        }
        assert(ov.subrange(others.len() - kept, others.len() as int) =~= ov.skip(others.len() - kept));
        res
    }

    /// Emergency reset: keep the user task (when preserved), every skill
    /// context entry, and the last two other entries.
    pub fn emergency_reset(&self, kinds: &[EntryKind]) -> (res: Vec<usize>)
        ensures
            usizes(res@) == self.spec_emergency_reset(kinds@),
    {
        let (task, skills, _) = partition(kinds, true);
        let rest = indices_of(kinds, EntryKind::Other);
        let mut res: Vec<usize> = Vec::new();
        match task {
            Some(t) => {
                if self.preserve_user_task {
                    res.push(t);
                }
            },
            None => {},
        }
        let mut skills = skills;
        res.append(&mut skills);
        let ghost head = usizes(res@);
        assert(head =~= preserved_head(kinds@, self.preserve_user_task));
        let keep = if rest.len() < 2 {
            rest.len()
        } else {
            2
        };
        let mut i = rest.len() - keep;
        let ghost rv = usizes(rest@);
        proof {
            assert(rv =~= indices_where(kinds@, |k: EntryKind| droppable(k))) by {
                lemma_indices_where_ext(kinds@, |k: EntryKind| k == EntryKind::Other, |k: EntryKind| droppable(k));
            }
        }
        while i < rest.len()
            invariant
                rest.len() - keep <= i <= rest.len(),
                rv == usizes(rest@),
                rv.len() == rest@.len(),
                keep <= rest.len(),
                usizes(res@) == head + rv.subrange(rest.len() - keep, i as int),
            decreases rest.len() - i,
        {
            let ghost prev = usizes(res@);
            res.push(rest[i]);
            assert(usizes(res@) =~= prev.push(rest@[i as int] as int));
            assert(rv[i as int] == rest@[i as int] as int);
            assert(rv.subrange(rest.len() - keep, i + 1) =~= rv.subrange(rest.len() - keep, i as int).push(rv[i as int]));
            i = i + 1;
            assert(usizes(res@) =~= head + rv.subrange(rest.len() - keep, i as int));
        }
        assert(rv.subrange(rest.len() - keep, rest.len() as int) =~= rv.skip(rest.len() - keep));
        res
    }
}

/// What a Tier 2 summary covers: the entries to summarize (neither task nor
/// skill context) and the timestamps of the first and last of them.
pub struct SummaryPlan {
    pub entries: Vec<usize>,
    pub from_timestamp: i64,
    pub to_timestamp: i64,
}

/// Selects the entries a Tier 2 summary replaces. With none, both timestamps
/// are 0 (the empty summary).
pub fn plan_tier2_summary(kinds: &[EntryKind], timestamps: &[i64]) -> (res: SummaryPlan)
    requires
        timestamps@.len() == kinds@.len(),
    ensures
        usizes(res.entries@) == indices_where(kinds@, |k: EntryKind| droppable(k)),
        res.entries@.len() == 0 ==> res.from_timestamp == 0 && res.to_timestamp == 0,
        res.entries@.len() > 0 ==> res.from_timestamp == timestamps@[res.entries@[0] as int]
            && res.to_timestamp == timestamps@[res.entries@[res.entries@.len() - 1] as int],
{
    let entries = indices_of(kinds, EntryKind::Other);
    proof {
        lemma_indices_where_ext(kinds@, |k: EntryKind| k == EntryKind::Other, |k: EntryKind| droppable(k));
    }
    if entries.len() == 0 {
        SummaryPlan { entries, from_timestamp: 0, to_timestamp: 0 }
    } else {
        let from_timestamp = timestamps[entries[0]];
        let to_timestamp = timestamps[entries[entries.len() - 1]];
        SummaryPlan { entries, from_timestamp, to_timestamp }
    }
}

pub open spec fn usizes(s: Seq<usize>) -> Seq<int> {
    s.map_values(|x: usize| x as int)
}

proof fn lemma_indices_where_ext(kinds: Seq<EntryKind>, p: spec_fn(EntryKind) -> bool, q: spec_fn(EntryKind) -> bool)
    requires
        forall|k: EntryKind| #[trigger] p(k) == q(k),
    ensures
        indices_where(kinds, p) == indices_where(kinds, q),
    decreases kinds.len(),
{
    if kinds.len() > 0 {
        lemma_indices_where_ext(kinds.drop_last(), p, q);
    }
}

proof fn lemma_indices_where_bounds(kinds: Seq<EntryKind>, p: spec_fn(EntryKind) -> bool)
    ensures
        forall|m: int| 0 <= m < indices_where(kinds, p).len() ==> 0 <= #[trigger] indices_where(kinds, p)[m] < kinds.len()
            && p(kinds[indices_where(kinds, p)[m]]),
        forall|a: int, b: int| 0 <= a < b < indices_where(kinds, p).len() ==> #[trigger] indices_where(kinds, p)[a] < #[trigger] indices_where(kinds, p)[b],
    decreases kinds.len(),
{
    if kinds.len() > 0 {
        lemma_indices_where_bounds(kinds.drop_last(), p);
        let d = kinds.drop_last();
        assert forall|m: int| 0 <= m < indices_where(kinds, p).len() implies 0 <= #[trigger] indices_where(kinds, p)[m] < kinds.len()
            && p(kinds[indices_where(kinds, p)[m]]) by {
            if m < indices_where(d, p).len() {
                assert(indices_where(kinds, p)[m] == indices_where(d, p)[m]);
                assert(kinds[indices_where(d, p)[m]] == d[indices_where(d, p)[m]]);
            }
        }
    }
}

/// Indices of entries of the given kind, in order.
fn indices_of(kinds: &[EntryKind], kind: EntryKind) -> (res: Vec<usize>)
    ensures
        usizes(res@) == indices_where(kinds@, |k: EntryKind| k == kind),
        forall|m: int| 0 <= m < res@.len() ==> #[trigger] res@[m] < kinds@.len(),
{
    let mut res: Vec<usize> = Vec::new();
    let mut i: usize = 0;
    while i < kinds.len()
        invariant
            i <= kinds.len(),
            usizes(res@) == indices_where(kinds@.take(i as int), |k: EntryKind| k == kind),
            forall|m: int| 0 <= m < res@.len() ==> #[trigger] res@[m] < i,
        decreases kinds.len() - i,
    {
        assert(kinds@.take(i + 1).drop_last() =~= kinds@.take(i as int));
        if kinds[i] == kind {
            res.push(i);
        }
        i = i + 1;
        assert(usizes(res@) =~= indices_where(kinds@.take(i as int), |k: EntryKind| k == kind));
    }
    assert(kinds@.take(i as int) =~= kinds@);
    res
}

/// The first task, the skill context entries, and the trimmable entries.
fn partition(kinds: &[EntryKind], preserve_user_task: bool) -> (res: (Option<usize>, Vec<usize>, Vec<usize>))
    ensures
        match res.0 {
            Some(t) => indices_where(kinds@, |k: EntryKind| is_task(k)).len() > 0 && t as int == indices_where(
                kinds@,
                |k: EntryKind| is_task(k),
            )[0],
            None => indices_where(kinds@, |k: EntryKind| is_task(k)).len() == 0,
        },
        usizes(res.1@) == indices_where(kinds@, |k: EntryKind| is_skill(k)),
        usizes(res.2@) == indices_where(kinds@, trimmable(preserve_user_task)),
        forall|m: int| 0 <= m < res.2@.len() ==> #[trigger] res.2@[m] < kinds@.len(),
{
    let tasks = indices_of(kinds, EntryKind::Task);
    let skills = indices_of(kinds, EntryKind::SkillContext);
    let mut others: Vec<usize> = Vec::new();
    let mut i: usize = 0;
    let ghost p = trimmable(preserve_user_task);
    while i < kinds.len()
        invariant
            i <= kinds.len(),
            p == trimmable(preserve_user_task),
            usizes(others@) == indices_where(kinds@.take(i as int), p),
            forall|m: int| 0 <= m < others@.len() ==> #[trigger] others@[m] < i,
        decreases kinds.len() - i,
    {
        assert(kinds@.take(i + 1).drop_last() =~= kinds@.take(i as int));
        if kinds[i] == EntryKind::Other || (kinds[i] == EntryKind::Task && !preserve_user_task) {
            others.push(i);
        }
        i = i + 1;
        assert(usizes(others@) =~= indices_where(kinds@.take(i as int), p));
    }
    assert(kinds@.take(i as int) =~= kinds@);
    proof {
        lemma_indices_where_ext(kinds@, |k: EntryKind| k == EntryKind::Task, |k: EntryKind| is_task(k));
        lemma_indices_where_ext(kinds@, |k: EntryKind| k == EntryKind::SkillContext, |k: EntryKind| is_skill(k));
    }
    let first = if tasks.len() > 0 {
        Some(tasks[0])
    } else {
        None
    };
    (first, skills, others)
}

proof fn lemma_sum_take_le(toks: Seq<usize>, j: int)
    requires
        0 <= j <= toks.len(),
    ensures
        sum_tokens(toks.take(j)) <= sum_tokens(toks),
        sum_tokens(toks.take(j)) >= 0,
    decreases toks.len(),
{
    if j < toks.len() {
        lemma_sum_take_le(toks.drop_last(), j);
        assert(toks.drop_last().take(j) =~= toks.take(j));
        lemma_sum_nonneg(toks.drop_last());
    } else {
        assert(toks.take(j) =~= toks);
        lemma_sum_nonneg(toks);
    }
}

proof fn lemma_sum_nonneg(toks: Seq<usize>)
    ensures
        sum_tokens(toks) >= 0,
    decreases toks.len(),
{
    if toks.len() > 0 {
        lemma_sum_nonneg(toks.drop_last());
    }
}

/// The tokens of a subsequence of the entries sum to no more than all tokens.
proof fn lemma_sum_subseq(tokens: Seq<usize>, idx: Seq<int>)
    requires
        forall|m: int| 0 <= m < idx.len() ==> 0 <= #[trigger] idx[m] < tokens.len(),
        forall|a: int, b: int| 0 <= a < b < idx.len() ==> #[trigger] idx[a] < #[trigger] idx[b],
    ensures
        sum_tokens(tokens_at(tokens, idx)) <= sum_tokens(tokens),
    decreases tokens.len(),
{
    lemma_sum_nonneg(tokens);
    if idx.len() == 0 {
        assert(tokens_at(tokens, idx) =~= Seq::<usize>::empty());
    } else if tokens.len() > 0 {
        let last = tokens.len() - 1;
        if idx.last() == last {
            let di = idx.drop_last();
            assert forall|m: int| 0 <= m < di.len() implies 0 <= #[trigger] di[m] < tokens.drop_last().len() by {
                assert(idx[m] < idx[idx.len() - 1]);
            }
            lemma_sum_subseq(tokens.drop_last(), di);
            assert(tokens_at(tokens, idx).drop_last() =~= tokens_at(tokens.drop_last(), di));
        } else {
            assert forall|m: int| 0 <= m < idx.len() implies 0 <= #[trigger] idx[m] < tokens.drop_last().len() by {
                if m < idx.len() - 1 {
                    assert(idx[m] < idx[idx.len() - 1]);
                }
            }
            lemma_sum_subseq(tokens.drop_last(), idx);
            assert(tokens_at(tokens, idx) =~= tokens_at(tokens.drop_last(), idx));
        }
    }
}

proof fn lemma_others_sum(kinds: Seq<EntryKind>, tokens: Seq<usize>, preserve: bool)
    requires
        tokens.len() == kinds.len(),
    ensures
        sum_tokens(tokens_at(tokens, indices_where(kinds, trimmable(preserve)))) <= sum_tokens(tokens),
        forall|j: int| 0 <= j <= indices_where(kinds, trimmable(preserve)).len() ==> sum_tokens(
            #[trigger] tokens_at(tokens, indices_where(kinds, trimmable(preserve))).take(j),
        ) <= sum_tokens(tokens),
{
    let idx = indices_where(kinds, trimmable(preserve));
    lemma_indices_where_bounds(kinds, trimmable(preserve));
    lemma_sum_subseq(tokens, idx);
    assert forall|j: int| 0 <= j <= idx.len() implies sum_tokens(#[trigger] tokens_at(tokens, idx).take(j))
        <= sum_tokens(tokens) by {
        lemma_sum_take_le(tokens_at(tokens, idx), j);
    }
}

proof fn lemma_keep_recent(tokens: Seq<usize>, current: int, max: int, min_keep: int, kept: int)
    requires
        0 <= kept,
    ensures
        kept <= keep_recent(tokens, current, max, min_keep, kept) <= kept + tokens.len(),
        keep_recent(tokens, current, max, min_keep, kept) >= if kept + tokens.len() < min_keep {
            kept + tokens.len()
        } else if kept < min_keep {
            min_keep
        } else {
            kept
        },
        ({
            let k = keep_recent(tokens, current, max, min_keep, kept);
            k > min_keep && k > kept ==> current + sum_tokens(tokens.skip(tokens.len() - (k - kept))) <= max
        }),
    decreases tokens.len(),
{
    if tokens.len() > 0 {
        let t = tokens.last();
        let dl = tokens.drop_last();
        if current + t <= max || kept < min_keep {
            lemma_keep_recent(dl, current + t, max, min_keep, kept + 1);
            let k = keep_recent(tokens, current, max, min_keep, kept);
            if k > min_keep && k > kept {
                let n = k - kept;
                let tail = tokens.skip(tokens.len() - n);
                assert(tail.last() == t);
                assert(tail.drop_last() =~= dl.skip(dl.len() - (n - 1)));
                assert(sum_tokens(tail) == sum_tokens(tail.drop_last()) + t);
                if n == 1 {
                    assert(tail.drop_last() =~= Seq::<usize>::empty());
                    assert(sum_tokens(tail.drop_last()) == 0);
                    assert(current + t <= max);
                } else {
                    assert(current + t + sum_tokens(dl.skip(dl.len() - (n - 1))) <= max);
                }
            }
        }
    }
}

/// Trimming keeps the preserved head (the user task when preserved, then all
/// skill context entries) in front, followed by the most recent trimmable
/// entries in the order they came in.
pub proof fn lemma_trim_shape(m: &ContextSizeManager, kinds: Seq<EntryKind>, tokens: Seq<usize>, preserved_tokens: usize)
    ensures
        ({
            let res = m.spec_trim(kinds, tokens, preserved_tokens);
            let head = preserved_head(kinds, m.preserve_user_task);
            let others = indices_where(kinds, trimmable(m.preserve_user_task));
            &&& res.take(head.len() as int) == head
            &&& res.skip(head.len() as int) == others.skip(others.len() - (res.len() - head.len()))
            &&& head.len() <= res.len() <= head.len() + others.len()
        }),
{
    let res = m.spec_trim(kinds, tokens, preserved_tokens);
    let head = preserved_head(kinds, m.preserve_user_task);
    let others = indices_where(kinds, trimmable(m.preserve_user_task));
    if others.len() <= m.min_entries {
        assert(res.take(head.len() as int) =~= head);
        assert(res.skip(head.len() as int) =~= others.skip(0));
    } else {
        lemma_keep_recent(tokens_at(tokens, others), preserved_tokens as int, m.max_tokens as int, m.min_threshold(kinds), 0);
        assert(res.take(head.len() as int) =~= head);
        let k = keep_recent(tokens_at(tokens, others), preserved_tokens as int, m.max_tokens as int, m.min_threshold(kinds), 0);
        assert(res.skip(head.len() as int) =~= others.skip(others.len() - k));
    }
}

/// When trimming drops entries, it keeps at least the minimum number of
/// trimmable entries (all of them if there are fewer), and once more than that
/// minimum is kept, the preserved head and the kept entries fit the token limit.
pub proof fn lemma_trim_budget(m: &ContextSizeManager, kinds: Seq<EntryKind>, tokens: Seq<usize>, preserved_tokens: usize)
    requires
        tokens.len() == kinds.len(),
        indices_where(kinds, trimmable(m.preserve_user_task)).len() > m.min_entries,
    ensures
        ({
            let others = indices_where(kinds, trimmable(m.preserve_user_task));
            let head = preserved_head(kinds, m.preserve_user_task);
            let kept = m.spec_trim(kinds, tokens, preserved_tokens).len() - head.len();
            &&& kept >= m.min_threshold(kinds)
            &&& kept > m.min_threshold(kinds) ==> preserved_tokens + sum_tokens(
                tokens_at(tokens, others.skip(others.len() - kept)),
            ) <= m.max_tokens
        }),
{
    let others = indices_where(kinds, trimmable(m.preserve_user_task));
    let toks = tokens_at(tokens, others);
    lemma_keep_recent(toks, preserved_tokens as int, m.max_tokens as int, m.min_threshold(kinds), 0);
    let k = keep_recent(toks, preserved_tokens as int, m.max_tokens as int, m.min_threshold(kinds), 0);
    assert(tokens_at(tokens, others.skip(others.len() - k)) =~= toks.skip(toks.len() - k));
    assert(m.min_threshold(kinds) <= m.min_entries);
}

/// The emergency reset keeps the preserved head and the last (at most two)
/// entries that are neither task nor skill context.
pub proof fn lemma_emergency_reset_shape(m: &ContextSizeManager, kinds: Seq<EntryKind>)
    ensures
        ({
            let res = m.spec_emergency_reset(kinds);
            let head = preserved_head(kinds, m.preserve_user_task);
            let rest = indices_where(kinds, |k: EntryKind| droppable(k));
            &&& res.take(head.len() as int) == head
            &&& res.len() - head.len() == (if rest.len() < 2 { rest.len() as int } else { 2 })
            &&& forall|i: int| head.len() <= i < res.len() ==> droppable(kinds[#[trigger] res[i]])
        }),
{
    let res = m.spec_emergency_reset(kinds);
    let head = preserved_head(kinds, m.preserve_user_task);
    let rest = indices_where(kinds, |k: EntryKind| droppable(k));
    lemma_indices_where_bounds(kinds, |k: EntryKind| droppable(k));
    assert(res.take(head.len() as int) =~= head);
    let keep = if rest.len() < 2 { rest.len() as int } else { 2 };
    assert forall|i: int| head.len() <= i < res.len() implies droppable(kinds[#[trigger] res[i]]) by {
        assert(res[i] == rest[rest.len() - keep + (i - head.len())]);
    }
}

} // verus!
