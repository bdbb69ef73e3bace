//! Facts about sequences that several modules use, and sums that stay in range.

use vstd::prelude::*;

verus! {

/// Filtering a sequence with one more element at its end.
pub proof fn lemma_filter_push<A>(s: Seq<A>, x: A, keep: spec_fn(A) -> bool)
    ensures
        s.push(x).filter(keep) == if keep(x) {
            s.filter(keep).push(x)
        } else {
            s.filter(keep)
        },
{
    reveal(Seq::filter);
    assert(s.push(x).drop_last() =~= s);
}

/// Filtering the first `i + 1` elements of a sequence.
pub proof fn lemma_filter_take<A>(s: Seq<A>, i: int, keep: spec_fn(A) -> bool)
    requires
        0 <= i < s.len(),
    ensures
        s.take(i + 1).filter(keep) == if keep(s[i]) {
            s.take(i).filter(keep).push(s[i])
        } else {
            s.take(i).filter(keep)
        },
{
    assert(s.take(i + 1) =~= s.take(i).push(s[i]));
    lemma_filter_push(s.take(i), s[i], keep);
}

/// Filtering nothing, and filtering everything.
pub proof fn lemma_filter_ends<A>(s: Seq<A>, keep: spec_fn(A) -> bool)
    ensures
        s.take(0).filter(keep) == Seq::<A>::empty(),
        s.take(s.len() as int) == s,
{
    reveal(Seq::filter);
    assert(s.take(0) =~= Seq::<A>::empty());
    assert(s.take(s.len() as int) =~= s);
}

/// The sum of a sequence of integers.
pub open spec fn sum(s: Seq<int>) -> int
    decreases s.len(),
{
    if s.len() == 0 {
        0
    } else {
        sum(s.drop_last()) + s.last()
    }
}

/// The sum of the first `i + 1` elements.
pub proof fn lemma_sum_take(s: Seq<int>, i: int)
    requires
        0 <= i < s.len(),
    ensures
        sum(s.take(i + 1)) == sum(s.take(i)) + s[i],
{
    assert(s.take(i + 1).drop_last() =~= s.take(i));
}

/// The sum after one element was replaced.
pub proof fn lemma_sum_update(s: Seq<int>, i: int, x: int)
    requires
        0 <= i < s.len(),
    ensures
        sum(s.update(i, x)) == sum(s) - s[i] + x,
    decreases s.len(),
{
    let u = s.update(i, x);
    if i == s.len() - 1 {
        assert(u.drop_last() =~= s.drop_last());
    } else {
        assert(u.drop_last() =~= s.drop_last().update(i, x));
        lemma_sum_update(s.drop_last(), i, x);
    }
}

/// Whether a running total over `s`, kept in an `i64`, never leaves its range.
pub open spec fn sums_fit(s: Seq<int>) -> bool {
    forall|i: int| 0 <= i <= s.len() ==> i64::MIN <= #[trigger] sum(s.take(i)) <= i64::MAX
}

/// Tells whether a running total over `v` stays in range.
pub fn check_sums(v: &Vec<i64>) -> (r: bool)
    ensures
        r == sums_fit(v@.map_values(|x: i64| x as int)),
{
    let ghost s = v@.map_values(|x: i64| x as int);
    let mut total: i64 = 0;
    let mut i: usize = 0;
    assert(sum(s.take(0)) == 0);
    while i < v.len()
        invariant
            i <= v.len(),
            s == v@.map_values(|x: i64| x as int),
            total == sum(s.take(i as int)),
            forall|j: int| 0 <= j <= i ==> i64::MIN <= #[trigger] sum(s.take(j)) <= i64::MAX,
        decreases v.len() - i,
    {
        proof {
            lemma_sum_take(s, i as int);
        }
        match total.checked_add(v[i]) {
            Some(t) => {
                total = t;
            },
            None => {
                assert(!(i64::MIN <= sum(s.take(i + 1)) <= i64::MAX));
                return false;
            },
        }
        i += 1;
    }
    true
}

/// Numbers that are no debts can be summed up whenever their total is in range; and a total is
/// made up number by number.
pub proof fn law_totals_in_range_can_be_summed_up(s: Seq<int>, x: int)
    ensures
        sum(Seq::empty()) == 0,
        sum(s.push(x)) == sum(s) + x,
        (forall|i: int| 0 <= i < s.len() ==> 0 <= #[trigger] s[i]) && sum(s) <= i64::MAX ==> sums_fit(
            s,
        ),
{
    assert(s.push(x).drop_last() =~= s);
    if (forall|i: int| 0 <= i < s.len() ==> 0 <= #[trigger] s[i]) && sum(s) <= i64::MAX {
        assert forall|i: int| 0 <= i <= s.len() implies i64::MIN <= #[trigger] sum(s.take(i))
            <= i64::MAX by {
            lemma_parts_are_no_more(s, i);
        }
    }
}

proof fn lemma_parts_are_no_more(s: Seq<int>, i: int)
    requires
        0 <= i <= s.len(),
        forall|k: int| 0 <= k < s.len() ==> 0 <= #[trigger] s[k],
    ensures
        0 <= sum(s.take(i)) <= sum(s),
    decreases s.len(),
{
    if s.len() == 0 {
        assert(s.take(i) =~= s);
    } else {
        let front = s.drop_last();
        assert forall|k: int| 0 <= k < front.len() implies 0 <= #[trigger] front[k] by {
            assert(s[k] == front[k]);
        }
        assert(0 <= s[s.len() - 1]);
        if i == s.len() {
            lemma_parts_are_no_more(front, front.len() as int);
            assert(front.take(front.len() as int) =~= front);
            assert(s.take(i) =~= s);
        } else {
            lemma_parts_are_no_more(front, i);
            assert(front.take(i) =~= s.take(i));
        }
    }
}

} // verus!
