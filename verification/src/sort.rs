//! Stable ordering of timed events by tick.

use vstd::prelude::*;

verus! {

/// Index at which an event with tick `t` is inserted into the tick-sorted
/// `s` so that it lands after every event with a tick `<= t`: the first
/// index whose tick exceeds `t`.
pub open spec fn insert_pos<E>(s: Seq<(u64, E)>, t: u64) -> int
    decreases s.len(),
{
    if s.len() == 0 {
        0
    } else if s.last().0 > t {
        insert_pos(s.drop_last(), t)
    } else {
        s.len() as int
    }
}

/// Insertion sort by tick: stable, equal ticks keep their input order.
pub open spec fn sort_by_tick<E>(s: Seq<(u64, E)>) -> Seq<(u64, E)>
    decreases s.len(),
{
    if s.len() == 0 {
        s
    } else {
        let sorted = sort_by_tick(s.drop_last());
        sorted.insert(insert_pos(sorted, s.last().0), s.last())
    }
}

/// Ticks never decrease along `s`.
pub open spec fn ticks_sorted<E>(s: Seq<(u64, E)>) -> bool {
    forall|i: int, j: int| 0 <= i < j < s.len() ==> s[i].0 <= s[j].0
}

proof fn lemma_insert_pos_props<E>(s: Seq<(u64, E)>, t: u64)
    requires
        ticks_sorted(s),
    ensures
        0 <= insert_pos(s, t) <= s.len(),
        forall|i: int| 0 <= i < insert_pos(s, t) ==> s[i].0 <= t,
        forall|i: int| insert_pos(s, t) <= i < s.len() ==> s[i].0 > t,
    decreases s.len(),
{
    if s.len() > 0 && s.last().0 > t {
        let d = s.drop_last();
        assert forall|i: int, j: int| 0 <= i < j < d.len() implies d[i].0 <= d[j].0 by {
            assert(d[i] == s[i] && d[j] == s[j]);
        }
        lemma_insert_pos_props(d, t);
        assert forall|i: int| insert_pos(s, t) <= i < s.len() implies s[i].0 > t by {
            if i < s.len() - 1 {
                assert(s[i] == d[i]);
            }
        }
        assert forall|i: int| 0 <= i < insert_pos(s, t) implies s[i].0 <= t by {
            assert(s[i] == d[i]);
        }
    } else if s.len() > 0 {
        assert forall|i: int| 0 <= i < s.len() implies s[i].0 <= t by {
            if i < s.len() - 1 {
                assert(s[i].0 <= s[s.len() - 1].0);
            }
        }
    }
}

/// The insertion position lies within the sequence.
pub proof fn lemma_insert_pos_bounds<E>(s: Seq<(u64, E)>, t: u64)
    ensures
        0 <= insert_pos(s, t) <= s.len(),
    decreases s.len(),
{
    if s.len() > 0 && s.last().0 > t {
        lemma_insert_pos_bounds(s.drop_last(), t);
    }
}

/// The insertion sort yields ticks in non-decreasing order and a
/// permutation of its input.
pub proof fn lemma_sort_by_tick_sorted<E>(s: Seq<(u64, E)>)
    ensures
        ticks_sorted(sort_by_tick(s)),
        sort_by_tick(s).to_multiset() == s.to_multiset(),
        sort_by_tick(s).len() == s.len(),
    decreases s.len(),
{
    if s.len() > 0 {
        let d = s.drop_last();
        let x = s.last();
        lemma_sort_by_tick_sorted(d);
        let sorted = sort_by_tick(d);
        let p = insert_pos(sorted, x.0);
        lemma_insert_pos_props(sorted, x.0);
        let r = sorted.insert(p, x);
        assert forall|i: int, j: int| 0 <= i < j < r.len() implies r[i].0 <= r[j].0 by {
            if j < p {
                assert(r[i] == sorted[i] && r[j] == sorted[j]);
            } else if j == p {
                assert(r[j] == x);
                assert(r[i] == sorted[i]);
            } else if i < p {
                assert(r[i] == sorted[i] && r[j] == sorted[j - 1]);
            } else if i == p {
                assert(r[i] == x && r[j] == sorted[j - 1]);
            } else {
                assert(r[i] == sorted[i - 1] && r[j] == sorted[j - 1]);
            }
        }
        assert(s =~= d.push(x));
        vstd::seq_lib::to_multiset_insert(sorted, p, x);
        d.to_multiset_ensures();
        assert(s.to_multiset() =~= d.to_multiset().insert(x));
    }
}

/// Sorting keeps an upper bound on the ticks.
pub proof fn lemma_sort_by_tick_bounded<E>(s: Seq<(u64, E)>, b: u64)
    requires
        forall|i: int| 0 <= i < s.len() ==> s[i].0 <= b,
    ensures
        forall|i: int| 0 <= i < sort_by_tick(s).len() ==> sort_by_tick(s)[i].0 <= b,
    decreases s.len(),
{
    if s.len() > 0 {
        let d = s.drop_last();
        lemma_sort_by_tick_bounded(d, b);
        lemma_sort_by_tick_sorted(d);
        let sorted = sort_by_tick(d);
        let p = insert_pos(sorted, s.last().0);
        lemma_insert_pos_bounds(sorted, s.last().0);
        let r = sorted.insert(p, s.last());
        assert forall|i: int| 0 <= i < r.len() implies r[i].0 <= b by {
            if i < p {
                assert(r[i] == sorted[i]);
            } else if i > p {
                assert(r[i] == sorted[i - 1]);
            }
        }
    }
}

/// Sorting leaves a sequence that is already in tick order unchanged.
pub proof fn lemma_sort_by_tick_sorted_identity<E>(s: Seq<(u64, E)>)
    requires
        ticks_sorted(s),
    ensures
        sort_by_tick(s) == s,
    decreases s.len(),
{
    if s.len() > 0 {
        let d = s.drop_last();
        assert forall|i: int, j: int| 0 <= i < j < d.len() implies d[i].0 <= d[j].0 by {
            assert(d[i] == s[i] && d[j] == s[j]);
        }
        lemma_sort_by_tick_sorted_identity(d);
        if d.len() > 0 {
            assert(d.last() == s[s.len() - 2]);
        }
        assert(insert_pos(d, s.last().0) == d.len());
        assert(d.insert(d.len() as int, s.last()) =~= s);
    }
}

/// Sorting keeps any property that every event has.
pub proof fn lemma_sort_by_tick_all<E>(s: Seq<(u64, E)>, p: spec_fn((u64, E)) -> bool)
    requires
        forall|i: int| 0 <= i < s.len() ==> p(#[trigger] s[i]),
    ensures
        forall|i: int| 0 <= i < sort_by_tick(s).len() ==> p(#[trigger] sort_by_tick(s)[i]),
    decreases s.len(),
{
    if s.len() > 0 {
        let d = s.drop_last();
        assert forall|i: int| 0 <= i < d.len() implies p(#[trigger] d[i]) by {
            assert(d[i] == s[i]);
        }
        lemma_sort_by_tick_all(d, p);
        let sorted = sort_by_tick(d);
        let q = insert_pos(sorted, s.last().0);
        lemma_insert_pos_bounds(sorted, s.last().0);
        let r = sorted.insert(q, s.last());
        assert(p(s[s.len() - 1]));
        assert forall|i: int| 0 <= i < r.len() implies p(#[trigger] r[i]) by {
            if i < q {
                assert(r[i] == sorted[i]);
            } else if i > q {
                assert(r[i] == sorted[i - 1]);
            }
        }
    }
}

/// The events of `s` at tick `t`, in their order in `s`.
pub open spec fn at_tick<E>(s: Seq<(u64, E)>, t: u64) -> Seq<(u64, E)>
    decreases s.len(),
{
    if s.len() == 0 {
        Seq::empty()
    } else if s.last().0 == t {
        at_tick(s.drop_last(), t).push(s.last())
    } else {
        at_tick(s.drop_last(), t)
    }
}

proof fn lemma_at_tick_append<E>(a: Seq<(u64, E)>, b: Seq<(u64, E)>, t: u64)
    ensures
        at_tick(a + b, t) == at_tick(a, t) + at_tick(b, t),
    decreases b.len(),
{
    if b.len() == 0 {
        assert(a + b =~= a);
        assert(at_tick(a, t) + at_tick(b, t) =~= at_tick(a, t));
    } else {
        assert((a + b).drop_last() =~= a + b.drop_last());
        assert((a + b).last() == b.last());
        lemma_at_tick_append(a, b.drop_last(), t);
        if b.last().0 == t {
            assert(at_tick(a, t) + at_tick(b.drop_last(), t).push(b.last()) =~= (at_tick(a, t) + at_tick(b.drop_last(), t)).push(b.last()));
        }
    }
}

proof fn lemma_at_tick_none<E>(s: Seq<(u64, E)>, t: u64)
    requires
        forall|i: int| 0 <= i < s.len() ==> s[i].0 != t,
    ensures
        at_tick(s, t) == Seq::<(u64, E)>::empty(),
    decreases s.len(),
{
    if s.len() > 0 {
        let d = s.drop_last();
        assert forall|i: int| 0 <= i < d.len() implies d[i].0 != t by {
            assert(d[i] == s[i]);
        }
        lemma_at_tick_none(d, t);
    }
}

/// The sort is stable: at every tick, the events keep the order they had
/// in the input.
pub proof fn lemma_sort_by_tick_stable<E>(s: Seq<(u64, E)>, t: u64)
    ensures
        at_tick(sort_by_tick(s), t) == at_tick(s, t),
    decreases s.len(),
{
    if s.len() > 0 {
        let d = s.drop_last();
        let x = s.last();
        lemma_sort_by_tick_stable(d, t);
        lemma_sort_by_tick_sorted(d);
        let sorted = sort_by_tick(d);
        let p = insert_pos(sorted, x.0);
        lemma_insert_pos_props(sorted, x.0);
        let pre = sorted.take(p);
        let post = sorted.skip(p);
        assert(sorted =~= pre + post);
        assert(sorted.insert(p, x) =~= pre + seq![x] + post);
        lemma_at_tick_append(pre, post, t);
        lemma_at_tick_append(pre + seq![x], post, t);
        lemma_at_tick_append(pre, seq![x], t);
        assert(seq![x].drop_last() =~= Seq::<(u64, E)>::empty());
        assert(sort_by_tick(s) == sorted.insert(p, x));
        assert(s.drop_last() == d && s.last() == x);
        let single = at_tick(seq![x], t);
        assert(seq![x].last() == x);
        assert(at_tick(seq![x].drop_last(), t) =~= Seq::<(u64, E)>::empty());
        if x.0 == t {
            assert(single =~= seq![x]);
            assert forall|i: int| 0 <= i < post.len() implies post[i].0 != t by {
                assert(post[i] == sorted[p + i]);
            }
            lemma_at_tick_none(post, t);
            assert(at_tick(sorted, t) =~= at_tick(pre, t));
            assert(at_tick(sorted.insert(p, x), t) =~= at_tick(pre, t).push(x));
            assert(at_tick(s, t) == at_tick(d, t).push(x));
        } else {
            assert(single =~= Seq::<(u64, E)>::empty());
            assert(at_tick(sorted.insert(p, x), t) =~= at_tick(pre, t) + at_tick(post, t));
            assert(at_tick(s, t) == at_tick(d, t));
        }
    }
}

/// Sorts timed events by tick, keeping the input order of equal ticks.
pub fn stable_sort_by_tick<E>(events: Vec<(u64, E)>) -> (r: Vec<(u64, E)>)
    ensures
        r@ == sort_by_tick(events@),
{
    let ghost all = events@;
    let mut out: Vec<(u64, E)> = Vec::new();
    for ev in it: events.into_iter()
        invariant
            it.seq() == all,
            out@ == sort_by_tick(all.take(it.index() as int)),
    {
        let ghost prefix = all.take(it.index() as int);
        proof {
            assert(all.take(it.index() + 1).drop_last() =~= prefix);
            lemma_sort_by_tick_sorted(prefix);
        }
        let t = ev.0;
        let mut j = out.len();
        assert(out@.subrange(0, j as int) =~= out@);
        while j > 0 && out[j - 1].0 > t
            invariant
                j <= out@.len(),
                out@ == sort_by_tick(prefix),
                ticks_sorted(out@),
                insert_pos(out@, t) == insert_pos(out@.subrange(0, j as int), t),
            decreases j,
        {
            assert(out@.subrange(0, j as int).drop_last() =~= out@.subrange(0, j - 1));
            j = j - 1;
        }
        proof {
            let sub = out@.subrange(0, j as int);
            if j > 0 {
                assert(sub.last() == out@[j - 1]);
            }
            assert(insert_pos(sub, t) == j);
        }
        out.insert(j, ev);
    }
    assert(all.take(all.len() as int) =~= all);
    out
}

} // verus!
