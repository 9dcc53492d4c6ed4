//! The order in which a thread's tasks are replayed to an A2A client: tasks
//! without messages are dropped, the rest ordered (stably) by the time of
//! their last message.
use vstd::prelude::*;
use vstd::multiset::Multiset;

verus! {

/// The tasks that have messages, as (task index, time of the last message),
/// in task order.
pub open spec fn nonempty_tasks(last: Seq<Option<i64>>) -> Seq<(int, i64)>
    decreases last.len(),
{
    if last.len() == 0 {
        Seq::empty()
    } else {
        let prev = nonempty_tasks(last.drop_last());
        match last.last() {
            Some(t) => prev.push(((last.len() - 1) as int, t)),
            None => prev,
        }
    }
}

/// Insert after every entry whose time is the same or earlier.
pub open spec fn insert_by_last(sorted: Seq<(int, i64)>, x: (int, i64)) -> Seq<(int, i64)>
    decreases sorted.len(),
{
    if sorted.len() == 0 {
        seq![x]
    } else if sorted.last().1 <= x.1 {
        sorted.push(x)
    } else {
        insert_by_last(sorted.drop_last(), x).push(sorted.last())
    }
}

/// Stable ordering by ascending time (what a stable `sort_by` gives).
pub open spec fn sort_by_last(s: Seq<(int, i64)>) -> Seq<(int, i64)>
    decreases s.len(),
{
    if s.len() == 0 {
        Seq::empty()
    } else {
        insert_by_last(sort_by_last(s.drop_last()), s.last())
    }
}

pub open spec fn ordered_by_last(s: Seq<(int, i64)>) -> bool {
    forall|i: int, j: int| 0 <= i < j < s.len() ==> #[trigger] s[i].1 <= #[trigger] s[j].1
}

proof fn lemma_insert_by_last_at(sorted: Seq<(int, i64)>, x: (int, i64), j: int)
    requires
        0 <= j <= sorted.len(),
        forall|k: int| j <= k < sorted.len() ==> #[trigger] sorted[k].1 > x.1,
        j > 0 ==> sorted[j - 1].1 <= x.1,
    ensures
        insert_by_last(sorted, x) == sorted.insert(j, x),
    decreases sorted.len(),
{
    if sorted.len() == 0 {
        assert(sorted.insert(j, x) =~= seq![x]);
    } else if j == sorted.len() {
        assert(sorted.insert(j, x) =~= sorted.push(x));
    } else {
        lemma_insert_by_last_at(sorted.drop_last(), x, j);
        assert(sorted.drop_last().insert(j, x).push(sorted.last()) =~= sorted.insert(j, x));
    }
}

pub open spec fn pair_ints(v: Seq<(usize, i64)>) -> Seq<(int, i64)> {
    v.map_values(|p: (usize, i64)| (p.0 as int, p.1))
}

/// The order of a thread's tasks for replay, by task index, given the time
/// of each task's last message (`None` for a task without messages).
pub fn order_task_histories(last: &[Option<i64>]) -> (res: Vec<usize>)
    ensures
        res@.map_values(|i: usize| i as int) == sort_by_last(nonempty_tasks(last@)).map_values(
            |p: (int, i64)| p.0,
        ),
{
    let mut pairs: Vec<(usize, i64)> = Vec::new();
    let mut i: usize = 0;
    while i < last.len()
        invariant
            i <= last.len(),
            pair_ints(pairs@) == nonempty_tasks(last@.take(i as int)),
            pairs@.len() <= i,
        decreases last.len() - i,
    {
        assert(last@.take(i + 1).drop_last() =~= last@.take(i as int));
        match last[i] {
            Some(t) => {
                let ghost before = pairs@;
                pairs.push((i, t));
                assert(pair_ints(pairs@) =~= pair_ints(before).push((i as int, t)));
            },
            None => {},
        }
        i = i + 1;
    }
    assert(last@.take(i as int) =~= last@);
    let ghost orig = pair_ints(pairs@);
    let mut sorted: Vec<(usize, i64)> = Vec::new();
    let mut k: usize = 0;
    assert(orig.take(0) =~= Seq::<(int, i64)>::empty());
    while k < pairs.len()
        invariant
            k <= pairs.len(),
            orig == pair_ints(pairs@),
            sorted@.len() == k,
            pair_ints(sorted@) == sort_by_last(orig.take(k as int)),
        decreases pairs.len() - k,
    {
        let x = pairs[k];
        let mut j: usize = sorted.len();
        while j > 0 && sorted[j - 1].1 > x.1
            invariant
                j <= sorted.len(),
                forall|m: int| j <= m < sorted.len() ==> #[trigger] sorted@[m].1 > x.1,
            decreases j,
        {
            j = j - 1;
        }
        proof {
            let sv = pair_ints(sorted@);
            assert forall|m: int| j <= m < sv.len() implies #[trigger] sv[m].1 > x.1 by {
                assert(sv[m] == (sorted@[m].0 as int, sorted@[m].1));
            }
            if j > 0 {
                assert(sv[j - 1] == (sorted@[j - 1].0 as int, sorted@[j - 1].1));
            }
            lemma_insert_by_last_at(sv, (x.0 as int, x.1), j as int);
            assert(orig.take(k + 1).drop_last() =~= orig.take(k as int));
            assert(orig.take(k + 1).last() == (x.0 as int, x.1));
        }
        let ghost before = pair_ints(sorted@);
        sorted.insert(j, x);
        assert(pair_ints(sorted@) =~= before.insert(j as int, (x.0 as int, x.1)));
        k = k + 1;
    }
    assert(orig.take(k as int) =~= orig);
    let mut out: Vec<usize> = Vec::new();
    let mut m: usize = 0;
    while m < sorted.len()
        invariant
            m <= sorted.len(),
            out@.len() == m,
            forall|q: int| 0 <= q < m ==> #[trigger] out@[q] == sorted@[q].0,
        decreases sorted.len() - m,
    {
        out.push(sorted[m].0);
        m = m + 1;
    }
    proof {
        let lhs = out@.map_values(|i: usize| i as int);
        let rhs = pair_ints(sorted@).map_values(|p: (int, i64)| p.0);
        assert forall|q: int| 0 <= q < lhs.len() implies lhs[q] == rhs[q] by {
            assert(out@[q] == sorted@[q].0);
        }
        assert(lhs =~= rhs);
    }
    out
}

proof fn lemma_insert_by_last_props(sorted: Seq<(int, i64)>, x: (int, i64))
    requires
        ordered_by_last(sorted),
    ensures
        ordered_by_last(insert_by_last(sorted, x)),
        insert_by_last(sorted, x).to_multiset() == sorted.to_multiset().insert(x),
    decreases sorted.len(),
{
    broadcast use vstd::seq_lib::group_to_multiset_ensures;
    if sorted.len() == 0 {
        assert(seq![x] =~= Seq::<(int, i64)>::empty().push(x));
    } else if sorted.last().1 <= x.1 {
    } else {
        let d = sorted.drop_last();
        assert(ordered_by_last(d));
        lemma_insert_by_last_props(d, x);
        let r = insert_by_last(d, x);
        assert(sorted =~= d.push(sorted.last()));
        assert forall|i: int, j: int| 0 <= i < j < r.push(sorted.last()).len() implies #[trigger] r.push(
            sorted.last(),
        )[i].1 <= #[trigger] r.push(sorted.last())[j].1 by {
            if j == r.len() {
                let e = r[i];
                assert(r.to_multiset().count(e) > 0);
                assert(d.to_multiset().insert(x).count(e) > 0);
                if e != x {
                    assert(d.to_multiset().count(e) > 0);
                    assert(d.contains(e));
                    let k = choose|k: int| 0 <= k < d.len() && d[k] == e;
                    assert(sorted[k] == e);
                }
            }
        }
    }
}

/// The replay order lists every task that has messages exactly once, in
/// order of the time of its last message; tasks with equal times keep their
/// order.
pub proof fn lemma_replay_order(s: Seq<(int, i64)>)
    ensures
        ordered_by_last(sort_by_last(s)),
        sort_by_last(s).to_multiset() == s.to_multiset(),
    decreases s.len(),
{
    broadcast use vstd::seq_lib::group_to_multiset_ensures;
    if s.len() > 0 {
        lemma_replay_order(s.drop_last());
        lemma_insert_by_last_props(sort_by_last(s.drop_last()), s.last());
        assert(s =~= s.drop_last().push(s.last()));
    } else {
        assert(s.to_multiset() =~= Multiset::<(int, i64)>::empty());
        assert(sort_by_last(s).to_multiset() =~= Multiset::<(int, i64)>::empty());
    }
}

/// Whether a status update ends the client's stream: only the end of the
/// root run (one without a parent task) does.
pub fn is_final_update(run_ended: bool, has_parent_task: bool) -> (res: bool)
    ensures
        res == (run_ended && !has_parent_task),
{
    run_ended && !has_parent_task
}

} // verus!
