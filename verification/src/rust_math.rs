//! The sample math library of the full example app: sorting integers with
//! a caller-supplied comparison.

use vstd::multiset::Multiset;
use vstd::prelude::*;

verus! {

/// `a` may go before `b`: every answer the comparison can give for the pair
/// is zero or negative.
pub open spec fn goes_before<F: Fn(i32, i32) -> i32>(order: F, a: i32, b: i32) -> bool {
    forall|r: i32| #[trigger] call_ensures(order, (a, b), r) ==> r <= 0
}

/// The comparison answers each pair the same way every time (as far as the
/// sign that sorting reads), any two values are ordered one way or the other,
/// and the order is transitive.
pub open spec fn consistent<F: Fn(i32, i32) -> i32>(order: F) -> bool {
    &&& forall|a: i32, b: i32, r1: i32, r2: i32|
        #[trigger] call_ensures(order, (a, b), r1) && #[trigger] call_ensures(order, (a, b), r2) ==> (r1 <= 0
            <==> r2 <= 0)
    &&& forall|a: i32, b: i32| #[trigger] goes_before(order, a, b) || goes_before(order, b, a)
    &&& forall|a: i32, b: i32, c: i32|
        #[trigger] goes_before(order, a, b) && #[trigger] goes_before(order, b, c) ==> goes_before(order, a, c)
}

/// The values the comparison finds equivalent to `v`.
pub open spec fn equivalent_to<F: Fn(i32, i32) -> i32>(order: F, v: i32) -> spec_fn(i32) -> bool {
    |x: i32| goes_before(order, x, v) && goes_before(order, v, x)
}

/// Every value may go before every later one.
pub open spec fn sorted_by<F: Fn(i32, i32) -> i32>(order: F, s: Seq<i32>) -> bool {
    forall|i: int, j: int| 0 <= i < j < s.len() ==> goes_before(order, #[trigger] s[i], #[trigger] s[j])
}

proof fn lemma_filter_single(e: i32, pred: spec_fn(i32) -> bool)
    ensures
        seq![e].filter(pred) == if pred(e) {
            seq![e]
        } else {
            Seq::<i32>::empty()
        },
{
    reveal(Seq::filter);
    assert(seq![e].drop_last() =~= Seq::<i32>::empty());
    assert(Seq::<i32>::empty().filter(pred) =~= Seq::<i32>::empty());
}

proof fn lemma_filter_none(s: Seq<i32>, pred: spec_fn(i32) -> bool)
    requires
        forall|i: int| 0 <= i < s.len() ==> !pred(s[i]),
    ensures
        s.filter(pred) == Seq::<i32>::empty(),
{
    assert(s.all(|x: i32| !pred(x)));
    s.lemma_all_neg_filter_empty(pred);
    assert(s.filter(pred) =~= Seq::<i32>::empty());
}

/// Sort `values` by the caller's comparison, stably: each value goes after
/// every value already placed that may go before it. The result always holds
/// the same values; when the comparison is consistent it is sorted by it,
/// and equivalent values keep their order.
pub fn sort_array<F: Fn(i32, i32) -> i32>(values: Vec<i32>, order: F) -> (sorted: Vec<i32>)
    requires
        forall|a: i32, b: i32| #[trigger] call_requires(order, (a, b)),
    ensures
        sorted@.to_multiset() == values@.to_multiset(),
        consistent(order) ==> sorted_by(order, sorted@),
        consistent(order) ==> forall|v: i32| #[trigger] sorted@.filter(equivalent_to(order, v)) == values@.filter(equivalent_to(order, v)),
{
    broadcast use vstd::seq_lib::group_to_multiset_ensures;

    let ghost orig = values@;
    let mut rest = values;
    let mut out: Vec<i32> = Vec::new();
    let ghost mut done: int = 0;
    while rest.len() > 0
        invariant
            0 <= done <= orig.len(),
            rest@ == orig.skip(done),
            out@.to_multiset() == orig.take(done).to_multiset(),
            forall|a: i32, b: i32| #[trigger] call_requires(order, (a, b)),
            consistent(order) ==> sorted_by(order, out@),
            consistent(order) ==> forall|v: i32| #[trigger] out@.filter(equivalent_to(order, v)) == orig.take(done).filter(equivalent_to(order, v)),
        decreases rest@.len(),
    {
        let e = rest.remove(0);
        assert(e == orig[done]);
        let mut p: usize = 0;
        while p < out.len()
            invariant
                p <= out@.len(),
                forall|a: i32, b: i32| #[trigger] call_requires(order, (a, b)),
                consistent(order) ==> forall|j: int| 0 <= j < p ==> goes_before(order, #[trigger] out@[j], e),
            ensures
                p <= out@.len(),
                consistent(order) ==> forall|j: int| 0 <= j < p ==> goes_before(order, #[trigger] out@[j], e),
                consistent(order) && p < out@.len() ==> !goes_before(order, out@[p as int], e),
            decreases out@.len() - p,
        {
            let answer = order(out[p], e);
            if answer > 0 {
                assert(call_ensures(order, (out@[p as int], e), answer));
                break;
            }
            proof {
                if consistent(order) {
                    assert forall|r: i32| #[trigger] call_ensures(order, (out@[p as int], e), r) implies r <= 0 by {
                        assert(call_ensures(order, (out@[p as int], e), answer));
                    }
                }
            }
            p += 1;
        }
        let ghost before = out@;
        out.insert(p, e);
        proof {
            let pre = before.take(p as int);
            let post = before.skip(p as int);
            assert(before =~= pre + post);
            assert(out@ =~= pre + seq![e] + post);
            assert(orig.take(done + 1) =~= orig.take(done).push(e));
            vstd::seq_lib::lemma_multiset_commutative(pre, post);
            vstd::seq_lib::lemma_multiset_commutative(pre + seq![e], post);
            vstd::seq_lib::lemma_multiset_commutative(pre, seq![e]);
            assert(seq![e] =~= Seq::<i32>::empty().push(e));
            Seq::<i32>::empty().to_multiset_ensures();
            assert(Seq::<i32>::empty().to_multiset() =~= Multiset::<i32>::empty());
            let single = seq![e].to_multiset();
            assert(single =~= Multiset::<i32>::empty().insert(e));
            assert(out@.to_multiset() == pre.to_multiset().add(single).add(post.to_multiset()));
            assert(before.to_multiset() == pre.to_multiset().add(post.to_multiset()));
            orig.take(done).to_multiset_ensures();
            assert(orig.take(done).push(e).to_multiset() =~= orig.take(done).to_multiset().insert(e));
            assert(orig.take(done + 1).to_multiset() == before.to_multiset().insert(e));
            assert(out@.to_multiset() =~= orig.take(done + 1).to_multiset());
            if consistent(order) {
                assert forall|j: int| 0 <= j < post.len() implies !goes_before(order, #[trigger] post[j], e) by {
                    assert(post[j] == before[p + j]);
                    let first = before[p as int];
                    assert(!goes_before(order, first, e));
                    if j > 0 {
                        assert(goes_before(order, first, before[p + j]));
                        if goes_before(order, before[p + j], e) {
                            assert(goes_before(order, first, e));
                        }
                    }
                }
                assert forall|i: int, j: int| 0 <= i < j < out@.len() implies goes_before(
                    order,
                    #[trigger] out@[i],
                    #[trigger] out@[j],
                ) by {
                    if j < p {
                        assert(out@[i] == before[i] && out@[j] == before[j]);
                    } else if j == p {
                        assert(out@[i] == before[i]);
                    } else if i == p {
                        assert(out@[j] == post[j - p - 1]);
                        assert(!goes_before(order, post[j - p - 1], e));
                    } else if i < p {
                        assert(out@[i] == before[i] && out@[j] == before[j - 1]);
                    } else {
                        assert(out@[i] == before[i - 1] && out@[j] == before[j - 1]);
                    }
                }
                assert forall|v: i32| #[trigger] out@.filter(equivalent_to(order, v)) == orig.take(done + 1).filter(
                    equivalent_to(order, v),
                ) by {
                    let pred = equivalent_to(order, v);
                    Seq::filter_distributes_over_add(pre + seq![e], post, pred);
                    Seq::filter_distributes_over_add(pre, seq![e], pred);
                    Seq::filter_distributes_over_add(pre, post, pred);
                    Seq::filter_distributes_over_add(orig.take(done), seq![e], pred);
                    assert(orig.take(done + 1) =~= orig.take(done) + seq![e]);
                    lemma_filter_single(e, pred);
                    assert(before.filter(pred) == orig.take(done).filter(pred));
                    if pred(e) {
                        assert forall|j: int| 0 <= j < post.len() implies !pred(post[j]) by {
                            if pred(post[j]) {
                                assert(goes_before(order, post[j], v) && goes_before(order, v, e));
                            }
                        }
                        lemma_filter_none(post, pred);
                        assert(out@.filter(pred) =~= pre.filter(pred) + seq![e]);
                        assert(before.filter(pred) =~= pre.filter(pred));
                    } else {
                        assert(out@.filter(pred) =~= pre.filter(pred) + post.filter(pred));
                    }
                }
            }
            done = done + 1;
            assert(rest@ =~= orig.skip(done));
        }
    }
    assert(orig.take(done) =~= orig);
    out
}

} // verus!
