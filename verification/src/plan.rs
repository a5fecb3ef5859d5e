//! Execution plans: the actions of the configuration, in the order they run.
use crate::action::Actions;
use crate::config::{GlobalConfig, HermitConfig};
use crate::render::pairs_view;
use crate::sorted::SortedMap;
use crate::tags::{RequireSet, TagSet};
use vstd::prelude::*;

verus! {

/// The actions to run, each with the key (among all files) of the file it
/// came from.
#[derive(Debug)]
pub struct ExecutionPlan {
    pub actions: Vec<(String, Actions)>,
}

/// Whether every requirement of `rs` holds for the active tags.
pub open spec fn all_hold(rs: RequireSet, active: TagSet) -> bool {
    forall|i: int| 0 <= i < rs.keys().len() ==> (#[trigger] rs.keys()[i]).holds(active)
}

/// The entries whose requirements all hold, in their order.
pub open spec fn kept(s: Seq<(String, Actions)>, active: TagSet) -> Seq<(String, Actions)>
    decreases s.len(),
{
    if s.len() == 0 {
        Seq::empty()
    } else {
        let rest = kept(s.drop_last(), active);
        if all_hold(s.last().1.spec_requires(), active) {
            rest.push(s.last())
        } else {
            rest
        }
    }
}

/// Two lists of entries that agree entry by entry: the same file keys and
/// the same actions.
pub open spec fn same_entries(a: Seq<(String, Actions)>, b: Seq<(String, Actions)>) -> bool {
    &&& a.len() == b.len()
    &&& forall|i: int| 0 <= i < a.len() ==> (#[trigger] a[i]).0 == b[i].0 && a[i].1.eqv(&b[i].1)
}

/// Every action's requirements are well formed.
pub open spec fn entries_wf(s: Seq<(String, Actions)>) -> bool {
    forall|i: int| 0 <= i < s.len() ==> (#[trigger] s[i]).1.wf()
}

/// The entries of the given order, in their order.
pub open spec fn with_order(s: Seq<(String, Actions)>, o: u64) -> Seq<(String, Actions)>
    decreases s.len(),
{
    if s.len() == 0 {
        Seq::empty()
    } else {
        let rest = with_order(s.drop_last(), o);
        if s.last().1.spec_order() == o {
            rest.push(s.last())
        } else {
            rest
        }
    }
}

/// Whether the entries are in ascending order.
pub open spec fn sorted_by_order(s: Seq<(String, Actions)>) -> bool {
    forall|i: int, j: int| 0 <= i < j < s.len() ==> (#[trigger] s[i]).1.spec_order() <= (#[trigger] s[j]).1.spec_order()
}

/// Whether every requirement of a set holds for the active tags.
pub fn all_match(rs: &RequireSet, active: &TagSet) -> (r: bool)
    requires
        rs.wf(),
        active.wf(),
    ensures
        r == all_hold(*rs, *active),
{
    let n = rs.len();
    let mut j: usize = 0;
    while j < n
        invariant
            rs.wf(),
            active.wf(),
            n == rs.keys().len(),
            j <= n,
            forall|k: int| 0 <= k < j ==> (#[trigger] rs.keys()[k]).holds(*active),
        decreases n - j,
    {
        if !rs.key(j).matches(active) {
            return false;
        }
        j = j + 1;
    }
    true
}

/// Filtering a list whose last entry is known.
proof fn lemma_kept_step(s: Seq<(String, Actions)>, i: int, active: TagSet)
    requires
        0 <= i < s.len(),
    ensures
        kept(s.take(i + 1), active) == if all_hold(s[i].1.spec_requires(), active) {
            kept(s.take(i), active).push(s[i])
        } else {
            kept(s.take(i), active)
        },
{
    assert(s.take(i + 1).drop_last() =~= s.take(i));
    assert(s.take(i + 1).last() == s[i]);
}

/// Selecting a list whose last entry is known.
proof fn lemma_with_order_step(s: Seq<(String, Actions)>, o: u64)
    requires
        s.len() > 0,
    ensures
        with_order(s, o) == if s.last().1.spec_order() == o {
            with_order(s.drop_last(), o).push(s.last())
        } else {
            with_order(s.drop_last(), o)
        },
{
}

/// Selecting by order distributes over concatenation.
pub proof fn lemma_with_order_concat(a: Seq<(String, Actions)>, b: Seq<(String, Actions)>, o: u64)
    ensures
        with_order(a + b, o) == with_order(a, o) + with_order(b, o),
    decreases b.len(),
{
    if b.len() == 0 {
        assert(a + b =~= a);
        assert(with_order(a, o) + with_order(b, o) =~= with_order(a, o));
    } else {
        lemma_with_order_concat(a, b.drop_last(), o);
        assert((a + b).drop_last() =~= a + b.drop_last());
        assert((a + b).last() == b.last());
        if b.last().1.spec_order() == o {
            assert(with_order(a + b, o) =~= with_order(a, o) + with_order(b, o));
        } else {
            assert(with_order(a + b, o) =~= with_order(a, o) + with_order(b, o));
        }
    }
}

/// Nothing is selected where no entry has the order.
pub proof fn lemma_with_order_none(s: Seq<(String, Actions)>, o: u64)
    requires
        forall|i: int| 0 <= i < s.len() ==> (#[trigger] s[i]).1.spec_order() != o,
    ensures
        with_order(s, o) == Seq::<(String, Actions)>::empty(),
    decreases s.len(),
{
    if s.len() > 0 {
        lemma_with_order_none(s.drop_last(), o);
    }
}

impl ExecutionPlan {
    /// The entries.
    pub fn iter(&self) -> (r: &Vec<(String, Actions)>)
        ensures
            *r == self.actions,
    {
        &self.actions
    }

    /// The plan with only the actions whose requirements all hold for the
    /// active tags, in the same order.
    pub fn filter_actions_by_tags(&self, active_tags: &TagSet) -> (r: ExecutionPlan)
        requires
            entries_wf(self.actions@),
            active_tags.wf(),
        ensures
            same_entries(r.actions@, kept(self.actions@, *active_tags)),
            entries_wf(r.actions@),
    {
        let ghost s = self.actions@;
        let mut filtered: Vec<(String, Actions)> = Vec::new();
        let n = self.actions.len();
        let mut i: usize = 0;
        while i < n
            invariant
                s == self.actions@,
                n == s.len(),
                entries_wf(s),
                active_tags.wf(),
                i <= n,
                same_entries(filtered@, kept(s.take(i as int), *active_tags)),
                entries_wf(filtered@),
            decreases n - i,
        {
            let (cfg, action) = &self.actions[i];
            proof {
                lemma_kept_step(s, i as int, *active_tags);
            }
            if all_match(action.requirements(), active_tags) {
                let ghost pre = filtered@;
                filtered.push((cfg.clone(), action.duplicate()));
                proof {
                    let k = kept(s.take(i as int), *active_tags).push(s[i as int]);
                    assert forall|j: int| 0 <= j < filtered@.len() implies (#[trigger] filtered@[j]).0 == k[j].0
                        && filtered@[j].1.eqv(&k[j].1) by {
                        if j < pre.len() {
                            assert(filtered@[j] == pre[j]);
                        }
                    }
                }
            }
            i = i + 1;
        }
        proof {
            assert(s.take(n as int) =~= s);
        }
        ExecutionPlan { actions: filtered }
    }
}

/// The plan of the given actions, sorted by order; actions of the same
/// order keep the order in which they were given.
pub fn create_execution_plan(entries: Vec<(String, Actions)>) -> (r: ExecutionPlan)
    ensures
        sorted_by_order(r.actions@),
        forall|o: u64| #[trigger] with_order(r.actions@, o) == with_order(entries@, o),
        r.actions@.len() == entries@.len(),
{
    let ghost orig = entries@;
    let mut input = entries;
    let mut out: Vec<(String, Actions)> = Vec::new();
    let ghost mut i: int = 0;
    assert(orig.skip(0) =~= orig);
    while input.len() > 0
        invariant
            0 <= i <= orig.len(),
            input@ == orig.skip(i),
            sorted_by_order(out@),
            out@.len() == i,
            forall|o: u64| #[trigger] with_order(out@, o) == with_order(orig.take(i), o),
        decreases input.len(),
    {
        let x = input.remove(0);
        assert(input@ =~= orig.skip(i + 1));
        let ord = x.1.get_order();
        let mut p = out.len();
        while p > 0 && out[p - 1].1.get_order() > ord
            invariant
                p <= out@.len(),
                sorted_by_order(out@),
                forall|k: int| p <= k < out@.len() ==> (#[trigger] out@[k]).1.spec_order() > ord,
            decreases p,
        {
            p = p - 1;
        }
        let ghost pre = out@;
        proof {
            assert forall|k: int| 0 <= k < p implies (#[trigger] pre[k]).1.spec_order() <= ord by {
                if p > 0 {
                    assert(pre[p - 1].1.spec_order() <= ord);
                    if k < p - 1 {
                        assert(pre[k].1.spec_order() <= pre[p - 1].1.spec_order());
                    }
                }
            }
        }
        out.insert(p, x);
        proof {
            let a = pre.take(p as int);
            let b = pre.skip(p as int);
            assert(pre =~= a + b);
            assert(out@ =~= a + seq![x] + b);
            assert(orig.take(i + 1) =~= orig.take(i).push(x));
            assert(orig[i] == x);
            assert forall|o: u64| #[trigger] with_order(out@, o) == with_order(orig.take(i + 1), o) by {
                lemma_with_order_concat(a + seq![x], b, o);
                lemma_with_order_concat(a, seq![x], o);
                lemma_with_order_concat(a, b, o);
                lemma_with_order_step(orig.take(i + 1), o);
                assert(orig.take(i + 1).drop_last() =~= orig.take(i));
                assert(seq![x].drop_last() =~= Seq::<(String, Actions)>::empty());
                lemma_with_order_step(seq![x], o);
                if o == ord {
                    assert forall|k: int| 0 <= k < b.len() implies (#[trigger] b[k]).1.spec_order() != o by {
                        assert(b[k] == pre[p + k]);
                    }
                    lemma_with_order_none(b, o);
                    assert(with_order(pre, o) =~= with_order(a, o));
                }
            }
            assert forall|j: int, k: int| 0 <= j < k < out@.len() implies (#[trigger] out@[j]).1.spec_order() <= (
            #[trigger] out@[k]).1.spec_order() by {
                if k < p {
                    assert(out@[j] == pre[j] && out@[k] == pre[k]);
                } else if k == p {
                    assert(out@[j] == pre[j]);
                } else if j < p {
                    assert(out@[j] == pre[j] && out@[k] == pre[k - 1]);
                } else if j == p {
                    assert(out@[k] == pre[k - 1]);
                } else {
                    assert(out@[j] == pre[j - 1] && out@[k] == pre[k - 1]);
                }
            }
            i = i + 1;
        }
    }
    proof {
        assert(orig.take(i) =~= orig);
    }
    ExecutionPlan { actions: out }
}


/// Lists that agree entry by entry filter to lists that agree entry by entry.
proof fn lemma_kept_same(a: Seq<(String, Actions)>, b: Seq<(String, Actions)>, active: TagSet)
    requires
        same_entries(a, b),
    ensures
        same_entries(kept(a, active), kept(b, active)),
    decreases a.len(),
{
    if a.len() > 0 {
        assert(same_entries(a.drop_last(), b.drop_last()));
        lemma_kept_same(a.drop_last(), b.drop_last(), active);
        let x = a.last();
        let y = b.last();
        assert(x.1.eqv(&y.1));
        assert(x.1.spec_requires().keys() == y.1.spec_requires().keys());
        let ka = kept(a.drop_last(), active);
        let kb = kept(b.drop_last(), active);
        if all_hold(x.1.spec_requires(), active) {
            assert forall|j: int| 0 <= j < ka.len() + 1 implies (#[trigger] ka.push(x)[j]).0 == kb.push(y)[j].0
                && ka.push(x)[j].1.eqv(&kb.push(y)[j].1) by {
                if j < ka.len() {
                    assert(ka.push(x)[j] == ka[j]);
                    assert(kb.push(y)[j] == kb[j]);
                }
            }
        }
    }
}

/// Filtering a filtered list again keeps all of it.
proof fn lemma_kept_twice(s: Seq<(String, Actions)>, active: TagSet)
    ensures
        kept(kept(s, active), active) == kept(s, active),
    decreases s.len(),
{
    if s.len() > 0 {
        lemma_kept_twice(s.drop_last(), active);
        let rest = kept(s.drop_last(), active);
        if all_hold(s.last().1.spec_requires(), active) {
            assert(rest.push(s.last()).drop_last() =~= rest);
        }
    }
}

/// The entries kept by a filter come from the list in their order: the list
/// is sorted where it was.
proof fn lemma_kept_sorted(s: Seq<(String, Actions)>, active: TagSet)
    requires
        sorted_by_order(s),
    ensures
        sorted_by_order(kept(s, active)),
        forall|j: int| 0 <= j < kept(s, active).len() ==> exists|k: int| 0 <= k < s.len() && #[trigger] kept(s, active)[j] == s[k],
        kept(s, active).len() > 0 && s.len() > 0 ==> kept(s, active).last().1.spec_order() <= s.last().1.spec_order(),
    decreases s.len(),
{
    if s.len() > 0 {
        let t = s.drop_last();
        assert(sorted_by_order(t)) by {
            assert forall|i: int, j: int| 0 <= i < j < t.len() implies (#[trigger] t[i]).1.spec_order() <= (
            #[trigger] t[j]).1.spec_order() by {
                assert(t[i] == s[i] && t[j] == s[j]);
            }
        }
        lemma_kept_sorted(t, active);
        let rest = kept(t, active);
        assert forall|j: int| 0 <= j < rest.len() implies exists|k: int| 0 <= k < s.len() && #[trigger] rest[j] == s[k] by {
            let k = choose|k: int| 0 <= k < t.len() && #[trigger] rest[j] == t[k];
            assert(s[k] == t[k]);
        }
        if rest.len() > 0 {
            let k = choose|k: int| 0 <= k < t.len() && #[trigger] rest[rest.len() - 1] == t[k];
            assert(s[k] == t[k]);
            assert(s[k].1.spec_order() <= s[s.len() - 1].1.spec_order());
        }
        if all_hold(s.last().1.spec_requires(), active) {
            let r = rest.push(s.last());
            assert forall|i: int, j: int| 0 <= i < j < r.len() implies (#[trigger] r[i]).1.spec_order() <= (
            #[trigger] r[j]).1.spec_order() by {
                if j == rest.len() {
                    assert(r[i] == rest[i]);
                    assert(rest[i].1.spec_order() <= rest.last().1.spec_order()) by {
                        if i < rest.len() - 1 {
                            assert(rest[i].1.spec_order() <= rest[rest.len() - 1].1.spec_order());
                        }
                    }
                } else {
                    assert(r[i] == rest[i] && r[j] == rest[j]);
                }
            }
            assert forall|j: int| 0 <= j < r.len() implies exists|k: int| 0 <= k < s.len() && #[trigger] r[j] == s[k] by {
                if j < rest.len() {
                    assert(r[j] == rest[j]);
                    let k = choose|k: int| 0 <= k < s.len() && #[trigger] rest[j] == s[k];
                    assert(r[j] == s[k]);
                } else {
                    assert(r[j] == s[s.len() - 1]);
                }
            }
        }
    }
}

/// Filtering is idempotent: filtering the result of a filter again, with the
/// same active tags, keeps every entry of it.
pub proof fn law_filter_idempotent(s: Seq<(String, Actions)>, once: Seq<(String, Actions)>, active: TagSet)
    requires
        same_entries(once, kept(s, active)),
    ensures
        same_entries(kept(once, active), kept(s, active)),
{
    lemma_kept_same(once, kept(s, active), active);
    lemma_kept_twice(s, active);
}

/// Filtering keeps a plan's order: a plan sorted by order stays sorted.
pub proof fn law_filter_keeps_order(s: Seq<(String, Actions)>, once: Seq<(String, Actions)>, active: TagSet)
    requires
        sorted_by_order(s),
        same_entries(once, kept(s, active)),
    ensures
        sorted_by_order(once),
{
    lemma_kept_sorted(s, active);
    let k = kept(s, active);
    assert forall|i: int, j: int| 0 <= i < j < once.len() implies (#[trigger] once[i]).1.spec_order() <= (
    #[trigger] once[j]).1.spec_order() by {
        assert(once[i].1.eqv(&k[i].1));
        assert(once[j].1.eqv(&k[j].1));
        assert(k[i].1.spec_order() <= k[j].1.spec_order());
    }
}

/// An entry is kept exactly when all of its requirements hold: every kept
/// entry satisfies its requirements, and an entry whose requirements all
/// hold is kept.
pub proof fn law_filter_exact(s: Seq<(String, Actions)>, active: TagSet)
    ensures
        forall|j: int| 0 <= j < kept(s, active).len() ==> all_hold((#[trigger] kept(s, active)[j]).1.spec_requires(), active),
        kept(s, active).len() <= s.len(),
    decreases s.len(),
{
    if s.len() > 0 {
        law_filter_exact(s.drop_last(), active);
        let rest = kept(s.drop_last(), active);
        if all_hold(s.last().1.spec_requires(), active) {
            assert forall|j: int| 0 <= j < rest.push(s.last()).len() implies all_hold(
                (#[trigger] rest.push(s.last())[j]).1.spec_requires(),
                active,
            ) by {
                if j < rest.len() {
                    assert(rest.push(s.last())[j] == rest[j]);
                }
            }
        }
    }
}

/// The actions among the results of preparing entries, in the given order,
/// each with its file's key.
pub open spec fn built_ok(b: Seq<(String, Result<Actions, String>)>) -> Seq<(String, Actions)>
    decreases b.len(),
{
    if b.len() == 0 {
        Seq::empty()
    } else {
        let rest = built_ok(b.drop_last());
        match b.last().1 {
            Ok(a) => rest.push((b.last().0, a)),
            Err(_) => rest,
        }
    }
}

/// The messages among the results of preparing entries, in the given order,
/// each with its file's key.
pub open spec fn built_errors(b: Seq<(String, Result<Actions, String>)>) -> Seq<(Seq<char>, Seq<char>)>
    decreases b.len(),
{
    if b.len() == 0 {
        Seq::empty()
    } else {
        let rest = built_errors(b.drop_last());
        match b.last().1 {
            Ok(_) => rest,
            Err(m) => rest.push((b.last().0@, m@)),
        }
    }
}

/// The plan of the entries of the configuration, given what preparing each
/// entry gave, in the order the files and their entries are read: the
/// actions that could be prepared, sorted stably by order (see
/// `create_execution_plan`), and the messages of those that could not,
/// which are left out of the plan.
pub fn create_plan_from(built: Vec<(String, Result<Actions, String>)>) -> (r: (ExecutionPlan, Vec<(String, String)>))
    ensures
        sorted_by_order(r.0.actions@),
        forall|o: u64| #[trigger] with_order(r.0.actions@, o) == with_order(built_ok(built@), o),
        r.0.actions@.len() == built_ok(built@).len(),
        pairs_view(r.1@) == built_errors(built@),
{
    let ghost orig = built@;
    let mut input = built;
    let mut oks: Vec<(String, Actions)> = Vec::new();
    let mut errors: Vec<(String, String)> = Vec::new();
    let ghost mut i: int = 0;
    assert(orig.skip(0) =~= orig);
    assert(orig.take(0) =~= Seq::<(String, Result<Actions, String>)>::empty());
    while input.len() > 0
        invariant
            0 <= i <= orig.len(),
            input@ == orig.skip(i),
            oks@ == built_ok(orig.take(i)),
            pairs_view(errors@) == built_errors(orig.take(i)),
        decreases input.len(),
    {
        let x = input.remove(0);
        proof {
            assert(input@ =~= orig.skip(i + 1));
            assert(x == orig[i]);
            assert(orig.take(i + 1).drop_last() =~= orig.take(i));
            assert(orig.take(i + 1).last() == orig[i]);
        }
        let (key, res) = x;
        match res {
            Ok(a) => {
                oks.push((key, a));
            },
            Err(m) => {
                let ghost pre = errors@;
                errors.push((key, m));
                proof {
                    assert(pairs_view(errors@) =~= pairs_view(pre).push((orig[i].0@, m@)));
                }
            },
        }
        proof {
            i = i + 1;
        }
    }
    proof {
        assert(orig.take(i) =~= orig);
    }
    (create_execution_plan(oks), errors)
}


/// The positions, in plan order, of the first `n` entries whose order is `o`.
pub open spec fn positions_with(s: Seq<(String, Actions)>, o: u64, n: int) -> Seq<usize>
    decreases n,
{
    if n <= 0 {
        Seq::empty()
    } else {
        let rest = positions_with(s, o, n - 1);
        if s[n - 1].1.spec_order() == o {
            rest.push((n - 1) as usize)
        } else {
            rest
        }
    }
}

/// Whether one of the first `n` entries has order `o`.
pub open spec fn order_present(s: Seq<(String, Actions)>, o: u64, n: int) -> bool {
    exists|i: int| 0 <= i < n && i < s.len() && (#[trigger] s[i]).1.spec_order() == o
}

/// Whether a group has order `o`.
pub open spec fn grouped(r: Seq<(u64, Vec<usize>)>, o: u64) -> bool {
    exists|k: int| 0 <= k < r.len() && (#[trigger] r[k]).0 == o
}

/// Whether `o` is among the orders.
pub open spec fn listed(v: Seq<u64>, o: u64) -> bool {
    exists|k: int| 0 <= k < v.len() && (#[trigger] v[k]) == o
}

/// The positions of the entries with order `o`.
fn positions_of(actions: &Vec<(String, Actions)>, o: u64) -> (r: Vec<usize>)
    ensures
        r@ == positions_with(actions@, o, actions@.len() as int),
{
    let mut r: Vec<usize> = Vec::new();
    let mut i: usize = 0;
    while i < actions.len()
        invariant
            i <= actions@.len(),
            r@ == positions_with(actions@, o, i as int),
        decreases actions.len() - i,
    {
        if actions[i].1.get_order() == o {
            r.push(i);
        }
        i = i + 1;
    }
    r
}

/// The groups of a plan for running in parallel: one per order present, in
/// ascending order, each with the positions of the actions of that order in
/// plan order.
pub fn order_groups(actions: &Vec<(String, Actions)>) -> (r: Vec<(u64, Vec<usize>)>)
    ensures
        forall|a: int, b: int| 0 <= a < b < r@.len() ==> (#[trigger] r@[a]).0 < (#[trigger] r@[b]).0,
        forall|k: int| 0 <= k < r@.len() ==> (#[trigger] r@[k]).1@ == positions_with(actions@, r@[k].0, actions@.len() as int),
        forall|o: u64| #[trigger] grouped(r@, o) == order_present(actions@, o, actions@.len() as int),
{
    let mut orders: Vec<u64> = Vec::new();
    let mut i: usize = 0;
    while i < actions.len()
        invariant
            i <= actions@.len(),
            forall|a: int, b: int| 0 <= a < b < orders@.len() ==> (#[trigger] orders@[a]) < (#[trigger] orders@[b]),
            forall|o: u64| #[trigger] listed(orders@, o) == order_present(actions@, o, i as int),
        decreases actions.len() - i,
    {
        let o = actions[i].1.get_order();
        let mut p: usize = 0;
        while p < orders.len() && orders[p] < o
            invariant
                p <= orders@.len(),
                forall|k: int| 0 <= k < p ==> (#[trigger] orders@[k]) < o,
            decreases orders.len() - p,
        {
            p = p + 1;
        }
        let ghost pre = orders@;
        if p < orders.len() && orders[p] == o {
        } else {
            orders.insert(p, o);
            proof {
                if p < pre.len() {
                    assert(pre[p as int] != o);
                    assert(pre[p as int] > o);
                }
                assert(orders@ =~= pre.insert(p as int, o));
                assert forall|a: int, b: int| 0 <= a < b < orders@.len() implies (#[trigger] orders@[a]) < (#[trigger] orders@[b]) by {
                    if b < p {
                        assert(pre[a] < pre[b]);
                    } else if b == p {
                        assert(pre[a] < o);
                    } else if a < p {
                        assert(pre[a] < o);
                        assert(pre[p as int] > o);
                        if b - 1 > p {
                            assert(pre[p as int] < pre[b - 1]);
                        }
                    } else if a == p {
                        assert(pre[p as int] > o);
                        if b - 1 > p {
                            assert(pre[p as int] < pre[b - 1]);
                        }
                    } else {
                        assert(pre[a - 1] < pre[b - 1]);
                    }
                }
            }
        }
        proof {
            assert forall|x: u64| #[trigger] listed(orders@, x) == order_present(actions@, x, i + 1) by {
                if order_present(actions@, x, i + 1) {
                    let j = choose|j: int| 0 <= j < i + 1 && j < actions@.len() && (#[trigger] actions@[j]).1.spec_order() == x;
                    if j < i {
                        assert(order_present(actions@, x, i as int));
                        assert(listed(pre, x));
                        let k = choose|k: int| 0 <= k < pre.len() && (#[trigger] pre[k]) == x;
                        if orders@.len() == pre.len() {
                            assert(orders@[k] == x);
                        } else if k < p {
                            assert(orders@[k] == x);
                        } else {
                            assert(orders@[k + 1] == x);
                        }
                    } else {
                        assert(orders@[p as int] == x);
                    }
                }
                if listed(orders@, x) {
                    let k = choose|k: int| 0 <= k < orders@.len() && (#[trigger] orders@[k]) == x;
                    if x == o {
                        assert(actions@[i as int].1.spec_order() == x);
                    } else {
                        if orders@.len() == pre.len() {
                            assert(pre[k] == x);
                        } else if k < p {
                            assert(pre[k] == x);
                        } else {
                            assert(k != p);
                            assert(pre[k - 1] == x);
                        }
                        assert(listed(pre, x));
                        let j = choose|j: int| 0 <= j < i && j < actions@.len() && (#[trigger] actions@[j]).1.spec_order() == x;
                        assert(actions@[j].1.spec_order() == x);
                    }
                }
            }
        }
        i = i + 1;
    }
    let mut r: Vec<(u64, Vec<usize>)> = Vec::new();
    let mut k: usize = 0;
    while k < orders.len()
        invariant
            k <= orders@.len(),
            r@.len() == k,
            forall|x: int| 0 <= x < k ==> (#[trigger] r@[x]).0 == orders@[x],
            forall|x: int| 0 <= x < k ==> (#[trigger] r@[x]).1@ == positions_with(actions@, r@[x].0, actions@.len() as int),
        decreases orders.len() - k,
    {
        let ps = positions_of(actions, orders[k]);
        r.push((orders[k], ps));
        k = k + 1;
    }
    proof {
        assert forall|a: int, b: int| 0 <= a < b < r@.len() implies (#[trigger] r@[a]).0 < (#[trigger] r@[b]).0 by {
            assert(orders@[a] < orders@[b]);
        }
        assert forall|o: u64| #[trigger] grouped(r@, o) == order_present(actions@, o, actions@.len() as int) by {
            if grouped(r@, o) {
                let x = choose|x: int| 0 <= x < r@.len() && (#[trigger] r@[x]).0 == o;
                assert(orders@[x] == o);
                assert(listed(orders@, o));
            }
            if order_present(actions@, o, actions@.len() as int) {
                assert(listed(orders@, o));
                let x = choose|x: int| 0 <= x < orders@.len() && (#[trigger] orders@[x]) == o;
                assert(r@[x].0 == o);
            }
        }
    }
    r
}


/// An entry of the configuration to prepare as an action: the position of
/// its file among all files (in key order) and its position in the file's
/// links, patches or installs.
#[derive(Debug, Clone, Copy, PartialEq, Eq, Structural)]
pub enum PlanEntry {
    Link(usize, usize),
    Patch(usize, usize),
    Install(usize, usize),
}

/// The entries of the file at position `i`: its links, then its patches,
/// then its installs, each list in its own order.
pub open spec fn file_entries(i: usize, c: HermitConfig) -> Seq<PlanEntry> {
    Seq::new(c.link@.len(), |j: int| PlanEntry::Link(i, j as usize)) + Seq::new(
        c.patch@.len(),
        |j: int| PlanEntry::Patch(i, j as usize),
    ) + Seq::new(c.install@.len(), |j: int| PlanEntry::Install(i, j as usize))
}

/// The entries of the first `n` files, file after file.
pub open spec fn entries_of(files: Seq<HermitConfig>, n: int) -> Seq<PlanEntry>
    decreases n,
{
    if n <= 0 {
        Seq::empty()
    } else {
        entries_of(files, n - 1) + file_entries((n - 1) as usize, files[n - 1])
    }
}

/// The entries of all files in the order they are prepared: the files in
/// key order, and in each its links, patches and installs.
pub fn plan_entries(configs: &SortedMap<String, HermitConfig>) -> (r: Vec<PlanEntry>)
    requires
        configs.wf(),
    ensures
        r@ == entries_of(configs.vals(), configs.vals().len() as int),
{
    let mut r: Vec<PlanEntry> = Vec::new();
    let n = configs.len();
    let mut i: usize = 0;
    while i < n
        invariant
            configs.wf(),
            n == configs.vals().len(),
            i <= n,
            r@ == entries_of(configs.vals(), i as int),
        decreases n - i,
    {
        let cfg = configs.val(i);
        let ghost pre = r@;
        let ghost links = Seq::new(cfg.link@.len(), |j: int| PlanEntry::Link(i, j as usize));
        let ghost patches = Seq::new(cfg.patch@.len(), |j: int| PlanEntry::Patch(i, j as usize));
        let ghost installs = Seq::new(cfg.install@.len(), |j: int| PlanEntry::Install(i, j as usize));
        let mut j: usize = 0;
        while j < cfg.link.len()
            invariant
                r@ == pre + links.take(j as int),
                j <= cfg.link@.len(),
                links.len() == cfg.link@.len(),
                forall|k: int| 0 <= k < links.len() ==> #[trigger] links[k] == PlanEntry::Link(i, k as usize),
            decreases cfg.link.len() - j,
        {
            r.push(PlanEntry::Link(i, j));
            assert(links.take(j + 1) =~= links.take(j as int).push(links[j as int]));
            j = j + 1;
        }
        assert(links.take(j as int) =~= links);
        let mut j: usize = 0;
        while j < cfg.patch.len()
            invariant
                r@ == pre + links + patches.take(j as int),
                j <= cfg.patch@.len(),
                patches.len() == cfg.patch@.len(),
                forall|k: int| 0 <= k < patches.len() ==> #[trigger] patches[k] == PlanEntry::Patch(i, k as usize),
            decreases cfg.patch.len() - j,
        {
            r.push(PlanEntry::Patch(i, j));
            assert(patches.take(j + 1) =~= patches.take(j as int).push(patches[j as int]));
            j = j + 1;
        }
        assert(patches.take(j as int) =~= patches);
        let mut j: usize = 0;
        while j < cfg.install.len()
            invariant
                r@ == pre + links + patches + installs.take(j as int),
                j <= cfg.install@.len(),
                installs.len() == cfg.install@.len(),
                forall|k: int| 0 <= k < installs.len() ==> #[trigger] installs[k] == PlanEntry::Install(i, k as usize),
            decreases cfg.install.len() - j,
        {
            r.push(PlanEntry::Install(i, j));
            assert(installs.take(j + 1) =~= installs.take(j as int).push(installs[j as int]));
            j = j + 1;
        }
        assert(installs.take(j as int) =~= installs);
        assert(r@ =~= entries_of(configs.vals(), i + 1));
        i = i + 1;
    }
    r
}


/// The number of link, patch and install entries of the first `n` files.
pub open spec fn entry_count(files: Seq<HermitConfig>, n: int) -> int
    decreases n,
{
    if n <= 0 {
        0
    } else {
        entry_count(files, n - 1) + files[n - 1].link@.len() + files[n - 1].patch@.len() + files[n - 1].install@.len()
    }
}

/// Every entry of every file is prepared, once: the entries of the first
/// `n` files are as many as their links, patches and installs together,
/// each link, patch and install of each of those files is among them, and
/// each of them names a file among the first `n` and an entry it has.
pub proof fn law_plan_entries_complete(files: Seq<HermitConfig>, n: int)
    requires
        0 <= n <= files.len(),
        files.len() <= usize::MAX,
    ensures
        entries_of(files, n).len() == entry_count(files, n),
        forall|i: int, j: int|
            0 <= i < n && 0 <= j < files[i].link@.len() ==> #[trigger] entries_of(files, n).contains(
                PlanEntry::Link(i as usize, j as usize),
            ),
        forall|i: int, j: int|
            0 <= i < n && 0 <= j < files[i].patch@.len() ==> #[trigger] entries_of(files, n).contains(
                PlanEntry::Patch(i as usize, j as usize),
            ),
        forall|i: int, j: int|
            0 <= i < n && 0 <= j < files[i].install@.len() ==> #[trigger] entries_of(files, n).contains(
                PlanEntry::Install(i as usize, j as usize),
            ),
        forall|k: int|
            0 <= k < entries_of(files, n).len() ==> match #[trigger] entries_of(files, n)[k] {
                PlanEntry::Link(i, j) => i < n && j < files[i as int].link@.len(),
                PlanEntry::Patch(i, j) => i < n && j < files[i as int].patch@.len(),
                PlanEntry::Install(i, j) => i < n && j < files[i as int].install@.len(),
            },
    decreases n,
{
    if n > 0 {
        law_plan_entries_complete(files, n - 1);
        let pre = entries_of(files, n - 1);
        let c = files[n - 1];
        let fe = file_entries((n - 1) as usize, c);
        let l = c.link@.len() as int;
        let p = c.patch@.len() as int;
        let all = entries_of(files, n);
        assert(all == pre + fe);
        assert forall|i: int, j: int| 0 <= i < n && 0 <= j < files[i].link@.len() implies #[trigger] all.contains(
            PlanEntry::Link(i as usize, j as usize),
        ) by {
            if i < n - 1 {
                assert(pre.contains(PlanEntry::Link(i as usize, j as usize)));
                let k = choose|k: int| 0 <= k < pre.len() && pre[k] == PlanEntry::Link(i as usize, j as usize);
                assert(all[k] == pre[k]);
            } else {
                assert(all[pre.len() + j] == fe[j]);
            }
        }
        assert forall|i: int, j: int| 0 <= i < n && 0 <= j < files[i].patch@.len() implies #[trigger] all.contains(
            PlanEntry::Patch(i as usize, j as usize),
        ) by {
            if i < n - 1 {
                assert(pre.contains(PlanEntry::Patch(i as usize, j as usize)));
                let k = choose|k: int| 0 <= k < pre.len() && pre[k] == PlanEntry::Patch(i as usize, j as usize);
                assert(all[k] == pre[k]);
            } else {
                assert(all[pre.len() + l + j] == fe[l + j]);
            }
        }
        assert forall|i: int, j: int| 0 <= i < n && 0 <= j < files[i].install@.len() implies #[trigger] all.contains(
            PlanEntry::Install(i as usize, j as usize),
        ) by {
            if i < n - 1 {
                assert(pre.contains(PlanEntry::Install(i as usize, j as usize)));
                let k = choose|k: int| 0 <= k < pre.len() && pre[k] == PlanEntry::Install(i as usize, j as usize);
                assert(all[k] == pre[k]);
            } else {
                assert(all[pre.len() + l + p + j] == fe[l + p + j]);
            }
        }
        assert forall|k: int| 0 <= k < all.len() implies match #[trigger] all[k] {
            PlanEntry::Link(i, j) => i < n && j < files[i as int].link@.len(),
            PlanEntry::Patch(i, j) => i < n && j < files[i as int].patch@.len(),
            PlanEntry::Install(i, j) => i < n && j < files[i as int].install@.len(),
        } by {
            if k < pre.len() {
                assert(all[k] == pre[k]);
            } else {
                assert(all[k] == fe[k - pre.len()]);
            }
        }
    }
}

} // verus!
