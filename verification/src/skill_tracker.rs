use vstd::prelude::*;

verus! {

broadcast use vstd::seq_lib::group_filter_ensures;

/// Snapshot of a skill loaded via inline context
pub struct SkillSnapshot {
    pub skill_id: String,
    pub content: String,
    pub loaded_at: i64,
    pub estimated_tokens: usize,
}

/// Rough token estimate used for skill content: four UTF-8 bytes per token.
pub open spec fn spec_estimate_tokens(content: Seq<char>) -> usize {
    (vstd::utf8::encode_utf8(content).len() as usize) / 4
}

/// Insert `x` into a sequence ordered by descending `loaded_at`, after every
/// element loaded at the same time or later (so equal timestamps keep the
/// order in which they were tracked).
pub open spec fn insert_by_recency(sorted: Seq<SkillSnapshot>, x: SkillSnapshot) -> Seq<SkillSnapshot>
    decreases sorted.len(),
{
    if sorted.len() == 0 {
        seq![x]
    } else if sorted.last().loaded_at >= x.loaded_at {
        sorted.push(x)
    } else {
        insert_by_recency(sorted.drop_last(), x).push(sorted.last())
    }
}

/// Stable ordering of snapshots by descending `loaded_at`.
pub open spec fn order_by_recency(s: Seq<SkillSnapshot>) -> Seq<SkillSnapshot>
    decreases s.len(),
{
    if s.len() == 0 {
        Seq::empty()
    } else {
        insert_by_recency(order_by_recency(s.drop_last()), s.last())
    }
}

/// Greedy selection: walk `s` in order and keep every snapshot whose tokens
/// still fit into `budget` given the tokens `used` by the ones kept before it.
pub open spec fn select_within_budget(s: Seq<SkillSnapshot>, budget: nat, used: nat) -> Seq<SkillSnapshot>
    decreases s.len(),
{
    if s.len() == 0 {
        Seq::empty()
    } else if used + s[0].estimated_tokens <= budget {
        seq![s[0]] + select_within_budget(s.drop_first(), budget, (used + s[0].estimated_tokens) as nat)
    } else {
        select_within_budget(s.drop_first(), budget, used)
    }
}

/// Sum of estimated tokens of a sequence of snapshots.
pub open spec fn total_tokens(s: Seq<SkillSnapshot>) -> nat
    decreases s.len(),
{
    if s.len() == 0 {
        0
    } else {
        (s[0].estimated_tokens + total_tokens(s.drop_first())) as nat
    }
}

/// Holds of the snapshots whose id is not `id`.
pub open spec fn other_id(id: Seq<char>) -> spec_fn(SkillSnapshot) -> bool {
    |s: SkillSnapshot| s.skill_id@ != id
}

/// The character sequences of a sequence of strings.
pub open spec fn string_views(s: Seq<String>) -> Seq<Seq<char>> {
    s.map_values(|x: String| x@)
}

pub open spec fn deref_all(s: Seq<&SkillSnapshot>) -> Seq<SkillSnapshot> {
    s.map_values(|r: &SkillSnapshot| *r)
}

/// Tracks skills loaded inline for post-compaction re-injection.
///
/// When compaction drops old scratchpad entries, skill content loaded in earlier
/// turns would be lost. The tracker preserves skill content so it can be
/// re-injected as `SkillContext` scratchpad entries after compaction.
///
/// Snapshots are kept in a list with unique skill ids, in tracking order,
/// rather than in a `HashMap` keyed by skill id: vstd specifies a `HashMap`
/// only for key types whose hashing it models (integers, `bool`, boxes of
/// them), not for `String`, so a map keyed by skill id would carry no usable
/// contract; the list also gives the load order that candidates follow.
pub struct ActiveSkillTracker {
    skills: Vec<SkillSnapshot>,
    max_reinjection_tokens: usize,
}

impl ActiveSkillTracker {
    /// The tracked snapshots, in the order in which they were (last) tracked.
    pub closed spec fn snapshots(&self) -> Seq<SkillSnapshot> {
        self.skills@
    }

    pub closed spec fn max_tokens(&self) -> nat {
        self.max_reinjection_tokens as nat
    }

    /// Skill ids are unique and every snapshot carries the estimate of its content.
    pub open spec fn wf(&self) -> bool {
        &&& forall|i: int, j: int|
            0 <= i < j < self.snapshots().len() ==> #[trigger] self.snapshots()[i].skill_id@
                != #[trigger] self.snapshots()[j].skill_id@
        &&& forall|i: int|
            0 <= i < self.snapshots().len() ==> #[trigger] self.snapshots()[i].estimated_tokens
                == spec_estimate_tokens(self.snapshots()[i].content@)
    }

    /// The ids of the tracked skills.
    pub open spec fn ids(&self) -> Seq<Seq<char>> {
        self.snapshots().map_values(|s: SkillSnapshot| s.skill_id@)
    }

    /// The snapshots chosen for re-injection.
    pub open spec fn candidates(&self) -> Seq<SkillSnapshot> {
        select_within_budget(order_by_recency(self.snapshots()), self.max_tokens(), 0)
    }

    pub fn default() -> (res: Self)
        ensures
            res.wf(),
            res.snapshots().len() == 0,
            res.max_tokens() == 25_000,
    {
        ActiveSkillTracker { skills: Vec::new(), max_reinjection_tokens: 25_000 }
    }

    pub fn new(max_reinjection_tokens: usize) -> (res: Self)
        ensures
            res.wf(),
            res.snapshots().len() == 0,
            res.max_tokens() == max_reinjection_tokens,
    {
        ActiveSkillTracker { skills: Vec::new(), max_reinjection_tokens }
    }

    /// Record a skill that was loaded inline. If the same skill_id is loaded
    /// again, the newer version replaces the old one.
    pub fn track(&mut self, skill_id: String, content: String, loaded_at: i64)
        requires
            old(self).wf(),
        ensures
            final(self).wf(),
            final(self).max_tokens() == old(self).max_tokens(),
            final(self).snapshots() == old(self).snapshots().filter(other_id(skill_id@)).push(
                SkillSnapshot {
                    skill_id,
                    content,
                    loaded_at,
                    estimated_tokens: spec_estimate_tokens(content@),
                },
            ),
    {
        let estimated_tokens = content.as_str().len() / 4;
        let ghost pred = other_id(skill_id@);
        let ghost old_skills = self.skills@;
        assert(old(self).snapshots() == old_skills);
        assert(forall|a: int, b: int|
            0 <= a < b < old_skills.len() ==> #[trigger] old_skills[a].skill_id@
                != #[trigger] old_skills[b].skill_id@);
        let mut i: usize = 0;
        let mut removed: bool = false;
        while i < self.skills.len()
            invariant
                i <= self.skills.len(),
                self.max_reinjection_tokens == old(self).max_reinjection_tokens,
                old_skills == old(self).skills@,
                pred == other_id(skill_id@),
                !removed ==> self.skills@ == old_skills,
                removed ==> self.skills@ == old_skills.filter(pred),
                removed ==> i == self.skills.len(),
                !removed ==> forall|k: int| 0 <= k < i ==> #[trigger] self.skills@[k].skill_id@ != skill_id@,
                forall|a: int, b: int|
                    0 <= a < b < old_skills.len() ==> #[trigger] old_skills[a].skill_id@
                        != #[trigger] old_skills[b].skill_id@,
            decreases self.skills.len() - i + (if removed { 0int } else { 1int }),
        {
            if self.skills[i].skill_id == skill_id {
                proof {
                    lemma_filter_removes_unique(old_skills, i as int, skill_id@);
                    assert(old_skills.filter(pred) == old_skills.remove(i as int));
                }
                self.skills.remove(i);
                assert(self.skills@ == old_skills.filter(pred));
                removed = true;
                i = self.skills.len();
            } else {
                i = i + 1;
            }
        }
        proof {
            if !removed {
                lemma_filter_keeps_all(old_skills, skill_id@);
            }
        }
        let snapshot = SkillSnapshot { skill_id, content, loaded_at, estimated_tokens };
        self.skills.push(snapshot);
        proof {
            let s = self.skills@;
            let f = old_skills.filter(pred);
            assert(s == f.push(snapshot));
            assert forall|a: int, b: int|
                0 <= a < b < s.len() implies #[trigger] s[a].skill_id@ != #[trigger] s[b].skill_id@ by {
                if b == s.len() - 1 {
                    assert(pred(f[a]));
                } else {
                    lemma_filter_preserves_distinct(old_skills, skill_id@, a, b);
                }
            }
            assert forall|a: int| 0 <= a < s.len() implies #[trigger] s[a].estimated_tokens
                == spec_estimate_tokens(s[a].content@) by {
                if a < s.len() - 1 {
                    assert(f.contains(f[a]));
                    old_skills.lemma_filter_contains_rev(pred, f[a]);
                }
            }
        }
    }

    /// Return skills to re-inject, ordered most-recently-loaded first,
    /// fitting within the token budget.
    pub fn get_reinjection_candidates(&self) -> (res: Vec<&SkillSnapshot>)
        ensures
            deref_all(res@) == self.candidates(),
    {
        if self.skills.len() == 0 {
            let res: Vec<&SkillSnapshot> = Vec::new();
            assert(deref_all(res@) =~= Seq::<SkillSnapshot>::empty());
            return res;
        }
        // Order by loaded_at, most recent first (stable insertion sort).

        let mut sorted: Vec<&SkillSnapshot> = Vec::new();
        let mut i: usize = 0;
        while i < self.skills.len()
            invariant
                i <= self.skills.len(),
                deref_all(sorted@) == order_by_recency(self.skills@.take(i as int)),
            decreases self.skills.len() - i,
        {
            let x: &SkillSnapshot = &self.skills[i];
            let mut j: usize = sorted.len();
            while j > 0 && sorted[j - 1].loaded_at < x.loaded_at
                invariant
                    j <= sorted.len(),
                    forall|k: int| j <= k < sorted.len() ==> #[trigger] sorted@[k].loaded_at < x.loaded_at,
                decreases j,
            {
                j = j - 1;
            }
            proof {
                lemma_insert_by_recency_at(deref_all(sorted@), *x, j as int);
                assert(self.skills@.take(i + 1).drop_last() =~= self.skills@.take(i as int));
                assert(deref_all(sorted@.insert(j as int, x)) =~= deref_all(sorted@).subrange(
                    0,
                    j as int,
                ).push(*x) + deref_all(sorted@).subrange(j as int, sorted@.len() as int));
            }
            sorted.insert(j, x);
            i = i + 1;
        }
        assert(self.skills@.take(self.skills@.len() as int) =~= self.skills@);

        let mut result: Vec<&SkillSnapshot> = Vec::new();
        let mut budget_used: usize = 0;
        let mut k: usize = 0;
        assert(deref_all(sorted@).skip(0) =~= deref_all(sorted@));
        assert(deref_all(result@) =~= Seq::<SkillSnapshot>::empty());
        assert(deref_all(result@) + self.candidates() =~= self.candidates());
        while k < sorted.len()
            invariant
                k <= sorted.len(),
                budget_used <= self.max_reinjection_tokens,
                deref_all(result@) + select_within_budget(
                    deref_all(sorted@).skip(k as int),
                    self.max_reinjection_tokens as nat,
                    budget_used as nat,
                ) == self.candidates(),
                deref_all(sorted@) == order_by_recency(self.skills@),
            decreases sorted.len() - k,
        {
            let skill = sorted[k];
            let ghost rest = deref_all(sorted@).skip(k as int);
            assert(rest.drop_first() =~= deref_all(sorted@).skip(k + 1));
            assert(rest[0] == *skill);
            if skill.estimated_tokens <= self.max_reinjection_tokens - budget_used {
                budget_used = budget_used + skill.estimated_tokens;
                proof {
                    assert(deref_all(result@.push(skill)) =~= deref_all(result@) + seq![*skill]);
                }
                result.push(skill);
            }
            k = k + 1;
        }
        assert(deref_all(sorted@).skip(sorted.len() as int) =~= Seq::<SkillSnapshot>::empty());
        assert(deref_all(result@) + Seq::<SkillSnapshot>::empty() =~= deref_all(result@));
        result
    }

    /// Get skill IDs currently tracked
    pub fn tracked_skill_ids(&self) -> (res: Vec<String>)
        ensures
            string_views(res@) == self.ids(),
    {
        let mut res: Vec<String> = Vec::new();
        let mut i: usize = 0;
        while i < self.skills.len()
            invariant
                i <= self.skills.len(),
                res@.len() == i,
                forall|k: int| 0 <= k < i ==> #[trigger] res@[k]@ == self.skills@[k].skill_id@,
            decreases self.skills.len() - i,
        {
            let id = self.skills[i].skill_id.clone();
            res.push(id);
            i = i + 1;
        }
        assert(string_views(res@) =~= self.ids());
        res
    }

    pub fn is_empty(&self) -> (res: bool)
        ensures
            res <==> self.snapshots().len() == 0,
    {
        self.skills.len() == 0
    }

    /// An independent copy of this tracker.
    pub fn clone(&self) -> (res: Self)
        ensures
            res.snapshots() == self.snapshots(),
            res.max_tokens() == self.max_tokens(),
    {
        let mut skills: Vec<SkillSnapshot> = Vec::new();
        let mut i: usize = 0;
        while i < self.skills.len()
            invariant
                i <= self.skills.len(),
                skills@ == self.skills@.take(i as int),
            decreases self.skills.len() - i,
        {
            let s = &self.skills[i];
            skills.push(
                SkillSnapshot {
                    skill_id: s.skill_id.clone(),
                    content: s.content.clone(),
                    loaded_at: s.loaded_at,
                    estimated_tokens: s.estimated_tokens,
                },
            );
            i = i + 1;
            assert(skills@ =~= self.skills@.take(i as int));
        }
        assert(self.skills@.take(i as int) =~= self.skills@);
        ActiveSkillTracker { skills, max_reinjection_tokens: self.max_reinjection_tokens }
    }
}

proof fn lemma_filter_keeps_all(s: Seq<SkillSnapshot>, id: Seq<char>)
    requires
        forall|k: int| 0 <= k < s.len() ==> #[trigger] s[k].skill_id@ != id,
    ensures
        s.filter(other_id(id)) == s,
    decreases s.len(),
{
    reveal_with_fuel(Seq::filter, 1);
    if s.len() > 0 {
        lemma_filter_keeps_all(s.drop_last(), id);
        assert(s.drop_last().push(s.last()) =~= s);
    }
}

/// Removing the only snapshot with a given id is filtering that id out.
proof fn lemma_filter_removes_unique(s: Seq<SkillSnapshot>, i: int, id: Seq<char>)
    requires
        0 <= i < s.len(),
        s[i].skill_id@ == id,
        forall|a: int, b: int| 0 <= a < b < s.len() ==> #[trigger] s[a].skill_id@ != #[trigger] s[b].skill_id@,
    ensures
        s.filter(other_id(id)) == s.remove(i),
    decreases s.len(),
{
    reveal_with_fuel(Seq::filter, 1);
    let pred = other_id(id);
    if i == s.len() - 1 {
        assert forall|k: int| 0 <= k < s.drop_last().len() implies #[trigger] s.drop_last()[k].skill_id@ != id by {
            assert(s[k].skill_id@ != s[i].skill_id@);
        }
        lemma_filter_keeps_all(s.drop_last(), id);
        assert(s.remove(i) =~= s.drop_last());
    } else {
        lemma_filter_removes_unique(s.drop_last(), i, id);
        assert(s.last().skill_id@ != s[i].skill_id@);
        assert(s.remove(i) =~= s.drop_last().remove(i).push(s.last()));
    }
}

proof fn lemma_filter_preserves_distinct(s: Seq<SkillSnapshot>, id: Seq<char>, a: int, b: int)
    requires
        forall|x: int, y: int| 0 <= x < y < s.len() ==> #[trigger] s[x].skill_id@ != #[trigger] s[y].skill_id@,
        0 <= a < b < s.filter(other_id(id)).len(),
    ensures
        s.filter(other_id(id))[a].skill_id@ != s.filter(other_id(id))[b].skill_id@,
    decreases s.len(),
{
    reveal_with_fuel(Seq::filter, 1);
    let pred = other_id(id);
    let f = s.filter(pred);
    let fd = s.drop_last().filter(pred);
    if s.len() > 0 {
        if pred(s.last()) {
            assert(f == fd.push(s.last()));
            if b == f.len() - 1 {
                assert(fd.contains(fd[a]));
                s.drop_last().lemma_filter_contains_rev(pred, fd[a]);
                let k2 = choose|k2: int| 0 <= k2 < s.drop_last().len() && s.drop_last()[k2] == fd[a];
                assert(s[k2] == fd[a]);
                assert(s[k2].skill_id@ != s[s.len() - 1].skill_id@);
            } else {
                lemma_filter_preserves_distinct(s.drop_last(), id, a, b);
            }
        } else {
            assert(f == fd);
            lemma_filter_preserves_distinct(s.drop_last(), id, a, b);
        }
    }
}

/// Inserting into a recency-ordered sequence at the first position after the
/// prefix loaded no earlier than `x` is what `insert_by_recency` computes.
proof fn lemma_insert_by_recency_at(sorted: Seq<SkillSnapshot>, x: SkillSnapshot, j: int)
    requires
        0 <= j <= sorted.len(),
        forall|k: int| j <= k < sorted.len() ==> #[trigger] sorted[k].loaded_at < x.loaded_at,
        j > 0 ==> sorted[j - 1].loaded_at >= x.loaded_at,
    ensures
        insert_by_recency(sorted, x) == sorted.subrange(0, j).push(x) + sorted.subrange(j, sorted.len() as int),
    decreases sorted.len(),
{
    if sorted.len() == 0 {
        assert(sorted.subrange(0, j).push(x) + sorted.subrange(j, sorted.len() as int) =~= seq![x]);
    } else if j == sorted.len() {
        assert(sorted.subrange(0, j) =~= sorted);
        assert(sorted.subrange(0, j).push(x) + sorted.subrange(j, sorted.len() as int) =~= sorted.push(x));
    } else {
        lemma_insert_by_recency_at(sorted.drop_last(), x, j);
        assert(sorted.drop_last().subrange(0, j) =~= sorted.subrange(0, j));
        assert((sorted.drop_last().subrange(0, j).push(x) + sorted.drop_last().subrange(
            j,
            sorted.len() - 1,
        )).push(sorted.last()) =~= sorted.subrange(0, j).push(x) + sorted.subrange(j, sorted.len() as int));
    }
}

/// Snapshots ordered by non-increasing `loaded_at`.
pub open spec fn recency_sorted(s: Seq<SkillSnapshot>) -> bool {
    forall|i: int, j: int| 0 <= i < j < s.len() ==> #[trigger] s[i].loaded_at >= #[trigger] s[j].loaded_at
}

proof fn lemma_insert_members(sorted: Seq<SkillSnapshot>, x: SkillSnapshot)
    ensures
        insert_by_recency(sorted, x).len() == sorted.len() + 1,
        forall|k: int|
            0 <= k < insert_by_recency(sorted, x).len() ==> #[trigger] insert_by_recency(sorted, x)[k] == x
                || sorted.contains(insert_by_recency(sorted, x)[k]),
    decreases sorted.len(),
{
    if sorted.len() > 0 && sorted.last().loaded_at < x.loaded_at {
        lemma_insert_members(sorted.drop_last(), x);
        let r = insert_by_recency(sorted.drop_last(), x);
        assert forall|k: int| 0 <= k < r.push(sorted.last()).len() implies #[trigger] r.push(sorted.last())[k]
            == x || sorted.contains(r.push(sorted.last())[k]) by {
            if k < r.len() {
                if r[k] != x {
                    let m = choose|m: int| 0 <= m < sorted.drop_last().len() && sorted.drop_last()[m] == r[k];
                    assert(sorted[m] == r[k]);
                }
            } else {
                assert(sorted[sorted.len() - 1] == sorted.last());
            }
        }
    } else if sorted.len() > 0 {
        assert forall|k: int| 0 <= k < sorted.push(x).len() implies #[trigger] sorted.push(x)[k] == x
            || sorted.contains(sorted.push(x)[k]) by {
            if k < sorted.len() {
                assert(sorted[k] == sorted.push(x)[k]);
            }
        }
    }
}

proof fn lemma_insert_sorted(sorted: Seq<SkillSnapshot>, x: SkillSnapshot)
    requires
        recency_sorted(sorted),
    ensures
        recency_sorted(insert_by_recency(sorted, x)),
    decreases sorted.len(),
{
    if sorted.len() > 0 && sorted.last().loaded_at < x.loaded_at {
        let dl = sorted.drop_last();
        lemma_insert_sorted(dl, x);
        lemma_insert_members(dl, x);
        let r = insert_by_recency(dl, x);
        let out = r.push(sorted.last());
        assert forall|i: int, j: int| 0 <= i < j < out.len() implies #[trigger] out[i].loaded_at
            >= #[trigger] out[j].loaded_at by {
            if j == out.len() - 1 {
                assert(out[i] == r[i]);
                if r[i] != x {
                    let m = choose|m: int| 0 <= m < dl.len() && dl[m] == r[i];
                    assert(sorted[m] == r[i]);
                    assert(sorted[m].loaded_at >= sorted[sorted.len() - 1].loaded_at);
                }
            } else {
                assert(out[i] == r[i] && out[j] == r[j]);
            }
        }
    } else if sorted.len() > 0 {
        let out = sorted.push(x);
        assert forall|i: int, j: int| 0 <= i < j < out.len() implies #[trigger] out[i].loaded_at
            >= #[trigger] out[j].loaded_at by {
            if j == out.len() - 1 {
                assert(out[i] == sorted[i]);
                assert(sorted[i].loaded_at >= sorted[sorted.len() - 1].loaded_at || i == sorted.len() - 1);
            } else {
                assert(out[i] == sorted[i] && out[j] == sorted[j]);
            }
        }
    }
}

proof fn lemma_order_sorted_members(s: Seq<SkillSnapshot>)
    ensures
        recency_sorted(order_by_recency(s)),
        order_by_recency(s).len() == s.len(),
        forall|k: int| 0 <= k < order_by_recency(s).len() ==> s.contains(#[trigger] order_by_recency(s)[k]),
    decreases s.len(),
{
    if s.len() > 0 {
        let d = s.drop_last();
        lemma_order_sorted_members(d);
        lemma_insert_sorted(order_by_recency(d), s.last());
        lemma_insert_members(order_by_recency(d), s.last());
        let o = order_by_recency(s);
        assert forall|k: int| 0 <= k < o.len() implies s.contains(#[trigger] o[k]) by {
            if o[k] == s.last() {
                assert(s[s.len() - 1] == s.last());
            } else {
                let m = choose|m: int| 0 <= m < order_by_recency(d).len() && order_by_recency(d)[m] == o[k];
                let m2 = choose|m2: int| 0 <= m2 < d.len() && d[m2] == order_by_recency(d)[m];
                assert(s[m2] == o[k]);
            }
        }
    }
}

proof fn lemma_select_sorted_members(s: Seq<SkillSnapshot>, budget: nat, used: nat)
    requires
        used <= budget,
    ensures
        recency_sorted(s) ==> recency_sorted(select_within_budget(s, budget, used)),
        forall|k: int|
            0 <= k < select_within_budget(s, budget, used).len() ==> s.contains(
                #[trigger] select_within_budget(s, budget, used)[k],
            ),
        total_tokens(select_within_budget(s, budget, used)) + used <= budget,
    decreases s.len(),
{
    if s.len() > 0 {
        let d = s.drop_first();
        let out = select_within_budget(s, budget, used);
        if used + s[0].estimated_tokens <= budget {
            let u2 = (used + s[0].estimated_tokens) as nat;
            lemma_select_sorted_members(d, budget, u2);
            let r = select_within_budget(d, budget, u2);
            assert(out == seq![s[0]] + r);
            assert(out.drop_first() =~= r);
            assert forall|k: int| 0 <= k < out.len() implies s.contains(#[trigger] out[k]) by {
                if k == 0 {
                    assert(s[0] == out[0]);
                } else {
                    assert(out[k] == r[k - 1]);
                    let m = choose|m: int| 0 <= m < d.len() && d[m] == r[k - 1];
                    assert(s[m + 1] == out[k]);
                }
            }
            if recency_sorted(s) {
                assert(recency_sorted(d));
                assert forall|i: int, j: int| 0 <= i < j < out.len() implies #[trigger] out[i].loaded_at
                    >= #[trigger] out[j].loaded_at by {
                    assert(out[j] == r[j - 1]);
                    if i == 0 {
                        let m = choose|m: int| 0 <= m < d.len() && d[m] == r[j - 1];
                        assert(s[m + 1] == out[j]);
                        assert(s[0] == out[0]);
                    } else {
                        assert(out[i] == r[i - 1]);
                    }
                }
            }
        } else {
            lemma_select_sorted_members(d, budget, used);
            let r = select_within_budget(d, budget, used);
            assert forall|k: int| 0 <= k < out.len() implies s.contains(#[trigger] out[k]) by {
                let m = choose|m: int| 0 <= m < d.len() && d[m] == r[k];
                assert(s[m + 1] == out[k]);
            }
            if recency_sorted(s) {
                assert(recency_sorted(d));
            }
        }
    }
}

/// Re-injection candidates come most recently loaded first.
pub proof fn lemma_candidates_most_recent_first(t: &ActiveSkillTracker)
    ensures
        recency_sorted(t.candidates()),
{
    lemma_order_sorted_members(t.snapshots());
    lemma_select_sorted_members(order_by_recency(t.snapshots()), t.max_tokens(), 0);
}

/// The estimated tokens of all re-injection candidates together stay within
/// the tracker's re-injection budget.
pub proof fn lemma_candidates_within_budget(t: &ActiveSkillTracker)
    ensures
        total_tokens(t.candidates()) <= t.max_tokens(),
{
    lemma_select_sorted_members(order_by_recency(t.snapshots()), t.max_tokens(), 0);
}

/// Every re-injection candidate is one of the tracked snapshots.
pub proof fn lemma_candidates_are_tracked(t: &ActiveSkillTracker)
    ensures
        forall|k: int| 0 <= k < t.candidates().len() ==> t.snapshots().contains(#[trigger] t.candidates()[k]),
{
    lemma_order_sorted_members(t.snapshots());
    lemma_select_sorted_members(order_by_recency(t.snapshots()), t.max_tokens(), 0);
    let o = order_by_recency(t.snapshots());
    assert forall|k: int| 0 <= k < t.candidates().len() implies t.snapshots().contains(#[trigger] t.candidates()[k]) by {
        let m = choose|m: int| 0 <= m < o.len() && o[m] == t.candidates()[k];
    }
}

/// Tracking a skill leaves exactly one snapshot with its id, carrying the new
/// content and load time, and keeps every other tracked skill.
pub proof fn lemma_track_replaces(before: ActiveSkillTracker, after: ActiveSkillTracker, id: String, content: String, at: i64)
    requires
        before.wf(),
        after.snapshots() == before.snapshots().filter(other_id(id@)).push(
            SkillSnapshot { skill_id: id, content, loaded_at: at, estimated_tokens: spec_estimate_tokens(content@) },
        ),
    ensures
        after.snapshots().last().content == content,
        after.snapshots().last().loaded_at == at,
        forall|k: int| 0 <= k < after.snapshots().len() - 1 ==> #[trigger] after.snapshots()[k].skill_id@ != id@,
        forall|k: int|
            0 <= k < before.snapshots().len() && before.snapshots()[k].skill_id@ != id@ ==> after.snapshots().contains(
                #[trigger] before.snapshots()[k],
            ),
{
    let f = before.snapshots().filter(other_id(id@));
    assert forall|k: int| 0 <= k < after.snapshots().len() - 1 implies #[trigger] after.snapshots()[k].skill_id@ != id@ by {
        assert(after.snapshots()[k] == f[k]);
        assert(other_id(id@)(f[k]));
    }
    assert forall|k: int|
        0 <= k < before.snapshots().len() && before.snapshots()[k].skill_id@ != id@ implies after.snapshots().contains(
            #[trigger] before.snapshots()[k],
        ) by {
        before.snapshots().lemma_filter_contains(other_id(id@), k);
        let m = choose|m: int| 0 <= m < f.len() && f[m] == before.snapshots()[k];
        assert(after.snapshots()[m] == f[m]);
    }
}

} // verus!
