//! Stable sorting by a rank that an element type gives.

use vstd::prelude::*;
use vstd::multiset::Multiset;
use vstd::seq_lib;
use vstd::utf8::*;

use crate::text;

verus! {

/// Elements that can be put in order: `a.leads(b)` says that `a` may stand before
/// `b`. Any two elements can be compared, and the relation is transitive.
pub trait Ranked: Sized {
    spec fn leads(self, other: Self) -> bool;

    proof fn leads_total(a: Self, b: Self)
        ensures
            a.leads(b) || b.leads(a),
    ;

    proof fn leads_transitive(a: Self, b: Self, c: Self)
        requires
            a.leads(b),
            b.leads(c),
        ensures
            a.leads(c),
    ;

    fn may_lead(&self, other: &Self) -> (r: bool)
        ensures
            r == self.leads(*other),
    ;
}

/// Every element may stand before each one after it.
pub open spec fn in_order<T: Ranked>(s: Seq<T>) -> bool {
    forall|i: int, j: int| 0 <= i < j < s.len() ==> #[trigger] s[i].leads(#[trigger] s[j])
}

/// The elements that have the same rank as `x`.
pub open spec fn ties<T: Ranked>(x: T) -> spec_fn(T) -> bool {
    |y: T| x.leads(y) && y.leads(x)
}

/// `r` is `s` put in order, where elements of the same rank keep the order that
/// they have in `s`.
pub open spec fn stably_sorted<T: Ranked>(s: Seq<T>, r: Seq<T>) -> bool {
    &&& in_order(r)
    &&& r.to_multiset() == s.to_multiset()
    &&& forall|x: T| r.filter(#[trigger] ties(x)) == s.filter(ties(x))
}

/// Two sequences merged, taking the last element of either at each step.
spec fn merged<T: Ranked>(a: Seq<T>, b: Seq<T>) -> Seq<T>
    decreases a.len() + b.len(),
{
    if a.len() == 0 {
        b
    } else if b.len() == 0 {
        a
    } else if a.last().leads(b.last()) {
        merged(a, b.drop_last()).push(b.last())
    } else {
        merged(a.drop_last(), b).push(a.last())
    }
}

proof fn lemma_merged_multiset<T: Ranked>(a: Seq<T>, b: Seq<T>)
    ensures
        merged(a, b).to_multiset() == a.to_multiset().add(b.to_multiset()),
        merged(a, b).len() == a.len() + b.len(),
    decreases a.len() + b.len(),
{
    broadcast use vstd::multiset::group_multiset_axioms;
    broadcast use vstd::seq_lib::group_to_multiset_ensures;

    if a.len() == 0 {
        assert(a =~= Seq::<T>::empty());
        assert(a.to_multiset() =~= Multiset::<T>::empty());
        assert(merged(a, b).to_multiset() =~= a.to_multiset().add(b.to_multiset()));
    } else if b.len() == 0 {
        assert(b =~= Seq::<T>::empty());
        assert(b.to_multiset() =~= Multiset::<T>::empty());
        assert(merged(a, b).to_multiset() =~= a.to_multiset().add(b.to_multiset()));
    } else if a.last().leads(b.last()) {
        lemma_merged_multiset(a, b.drop_last());
        assert(b =~= b.drop_last().push(b.last()));
        seq_lib::to_multiset_build(b.drop_last(), b.last());
        seq_lib::to_multiset_build(merged(a, b.drop_last()), b.last());
        assert(merged(a, b).to_multiset() =~= a.to_multiset().add(b.to_multiset()));
    } else {
        lemma_merged_multiset(a.drop_last(), b);
        assert(a =~= a.drop_last().push(a.last()));
        seq_lib::to_multiset_build(a.drop_last(), a.last());
        seq_lib::to_multiset_build(merged(a.drop_last(), b), a.last());
        assert(merged(a, b).to_multiset() =~= a.to_multiset().add(b.to_multiset()));
    }
}

proof fn lemma_member_of_merged<T: Ranked>(a: Seq<T>, b: Seq<T>, i: int)
    requires
        0 <= i < merged(a, b).len(),
    ensures
        a.contains(merged(a, b)[i]) || b.contains(merged(a, b)[i]),
    decreases a.len() + b.len(),
{
    if a.len() == 0 {
        assert(b.contains(b[i]));
    } else if b.len() == 0 {
        assert(a.contains(a[i]));
    } else if a.last().leads(b.last()) {
        if i == merged(a, b).len() - 1 {
            assert(b.contains(b[b.len() - 1]));
        } else {
            lemma_member_of_merged(a, b.drop_last(), i);
            let x = merged(a, b)[i];
            if b.drop_last().contains(x) {
                let j = choose|j: int| 0 <= j < b.drop_last().len() && b.drop_last()[j] == x;
                assert(b[j] == x);
            }
        }
    } else {
        if i == merged(a, b).len() - 1 {
            assert(a.contains(a[a.len() - 1]));
        } else {
            lemma_member_of_merged(a.drop_last(), b, i);
            let x = merged(a, b)[i];
            if a.drop_last().contains(x) {
                let j = choose|j: int|
                    0 <= j < a.drop_last().len() && a.drop_last()[j] == x;
                assert(a[j] == x);
            }
        }
    }
}

/// In a sequence that is in order, every element may stand before the last.
proof fn lemma_leads_last<T: Ranked>(s: Seq<T>, x: T)
    requires
        in_order(s),
        s.contains(x),
    ensures
        x.leads(s.last()),
{
    let i = choose|i: int| 0 <= i < s.len() && s[i] == x;
    if i == s.len() - 1 {
        T::leads_total(x, x);
    } else {
        assert(s[i].leads(s[s.len() - 1]));
    }
}

proof fn lemma_merged_in_order<T: Ranked>(a: Seq<T>, b: Seq<T>)
    requires
        in_order(a),
        in_order(b),
    ensures
        in_order(merged(a, b)),
    decreases a.len() + b.len(),
{
    if a.len() == 0 || b.len() == 0 {
    } else if a.last().leads(b.last()) {
        let front = merged(a, b.drop_last());
        lemma_merged_in_order(a, b.drop_last());
        assert forall|i: int| 0 <= i < front.len() implies #[trigger] front[i].leads(b.last()) by {
            lemma_member_of_merged(a, b.drop_last(), i);
            let x = front[i];
            if a.contains(x) {
                lemma_leads_last(a, x);
                T::leads_transitive(x, a.last(), b.last());
            } else {
                let j = choose|j: int| 0 <= j < b.drop_last().len() && b.drop_last()[j] == x;
                assert(b[j].leads(b[b.len() - 1]));
            }
        }
    } else {
        let front = merged(a.drop_last(), b);
        T::leads_total(a.last(), b.last());
        lemma_merged_in_order(a.drop_last(), b);
        assert forall|i: int| 0 <= i < front.len() implies #[trigger] front[i].leads(a.last()) by {
            lemma_member_of_merged(a.drop_last(), b, i);
            let x = front[i];
            if b.contains(x) {
                lemma_leads_last(b, x);
                T::leads_transitive(x, b.last(), a.last());
            } else {
                let j = choose|j: int|
                    0 <= j < a.drop_last().len() && a.drop_last()[j] == x;
                assert(a[j].leads(a[a.len() - 1]));
            }
        }
    }
}

/// If some element of `b` ties with `x`, and the last element of `b` does not
/// reach up to `y`, then `y` does not tie with `x`.
proof fn lemma_no_tie_below<T: Ranked>(b: Seq<T>, x: T, y: T)
    requires
        in_order(b),
        b.len() > 0,
        !y.leads(b.last()),
        ties(x)(y),
    ensures
        b.filter(ties(x)).len() == 0,
{
    if b.filter(ties(x)).len() > 0 {
        let z = b.filter(ties(x))[0];
        b.lemma_filter_pred(ties(x), 0);
        b.lemma_filter_contains_rev(ties(x), z);
        assert(b.filter(ties(x)).contains(z));
        b.lemma_filter_contains_rev(ties(x), z);
        lemma_leads_last(b, z);
        T::leads_transitive(y, x, z);
        T::leads_transitive(y, z, b.last());
    }
}

proof fn lemma_merged_ties<T: Ranked>(a: Seq<T>, b: Seq<T>, x: T)
    requires
        in_order(a),
        in_order(b),
    ensures
        merged(a, b).filter(ties(x)) == a.filter(ties(x)) + b.filter(ties(x)),
    decreases a.len() + b.len(),
{
    let c = ties(x);
    if a.len() == 0 {
        reveal(Seq::filter);
        assert(a.filter(c) =~= Seq::<T>::empty());
        assert(merged(a, b).filter(c) =~= a.filter(c) + b.filter(c));
    } else if b.len() == 0 {
        reveal(Seq::filter);
        assert(b.filter(c) =~= Seq::<T>::empty());
        assert(merged(a, b).filter(c) =~= a.filter(c) + b.filter(c));
    } else if a.last().leads(b.last()) {
        lemma_merged_ties(a, b.drop_last(), x);
        assert(b =~= b.drop_last().push(b.last()));
        crate::lists::lemma_filter_push(b.drop_last(), b.last(), c);
        crate::lists::lemma_filter_push(merged(a, b.drop_last()), b.last(), c);
        assert(merged(a, b).filter(c) =~= a.filter(c) + b.filter(c));
    } else {
        lemma_merged_ties(a.drop_last(), b, x);
        assert(a =~= a.drop_last().push(a.last()));
        crate::lists::lemma_filter_push(a.drop_last(), a.last(), c);
        crate::lists::lemma_filter_push(merged(a.drop_last(), b), a.last(), c);
        if c(a.last()) {
            lemma_no_tie_below(b, x, a.last());
            assert(b.filter(c) =~= Seq::<T>::empty());
        }
        assert(merged(a, b).filter(c) =~= a.filter(c) + b.filter(c));
    }
}

/// Merges two sequences that are in order; on a tie, `a` goes first.
fn merge<T: Ranked>(a: Vec<T>, b: Vec<T>) -> (r: Vec<T>)
    ensures
        r@ == merged(a@, b@),
{
    let ghost a0 = a@;
    let ghost b0 = b@;
    let mut a = a;
    let mut b = b;
    let mut back: Vec<T> = Vec::new();
    while a.len() > 0 || b.len() > 0
        invariant
            merged(a0, b0) == merged(a@, b@) + back@.reverse(),
        decreases a.len() + b.len(),
    {
        let ghost a1 = a@;
        let ghost b1 = b@;
        let ghost old_back = back@;
        let from_b: bool = if a.len() == 0 {
            true
        } else if b.len() == 0 {
            false
        } else {
            a[a.len() - 1].may_lead(&b[b.len() - 1])
        };
        let next = if from_b {
            b.pop()
        } else {
            a.pop()
        };
        match next {
            Some(x) => {
                back.push(x);
                proof {
                    assert(back@.reverse() =~= seq![x] + old_back.reverse());
                    assert(merged(a1, b1) =~= merged(a@, b@).push(x));
                    assert(merged(a0, b0) =~= merged(a@, b@) + back@.reverse());
                }
            },
            None => {
                assert(false);
            },
        }
    }
    let mut out: Vec<T> = Vec::new();
    let ghost all = back@.reverse();
    assert(merged(a@, b@) =~= Seq::<T>::empty());
    assert(all =~= merged(a0, b0));
    while back.len() > 0
        invariant
            all == out@ + back@.reverse(),
        decreases back.len(),
    {
        let ghost old_out = out@;
        let ghost old_back = back@;
        match back.pop() {
            Some(x) => {
                out.push(x);
                proof {
                    assert(old_back.reverse() =~= seq![x] + back@.reverse());
                    assert(all =~= out@ + back@.reverse());
                }
            },
            None => {
                assert(false);
            },
        }
    }
    assert(out@ =~= all);
    out
}

/// Puts `v` in order; elements of the same rank keep their order.
pub fn sort<T: Ranked>(v: Vec<T>) -> (r: Vec<T>)
    ensures
        stably_sorted(v@, r@),
    decreases v.len(),
{
    if v.len() <= 1 {
        return v;
    }
    let ghost all = v@;
    let mut left = v;
    let mid: usize = left.len() / 2;
    let right = left.split_off(mid);
    let ghost l = left@;
    let ghost r = right@;
    assert(all =~= l + r);
    let sl = sort(left);
    let sr = sort(right);
    let out = merge(sl, sr);
    proof {
        lemma_merged_in_order(sl@, sr@);
        lemma_merged_multiset(sl@, sr@);
        seq_lib::lemma_multiset_commutative(l, r);
        assert forall|x: T| out@.filter(#[trigger] ties(x)) == all.filter(ties(x)) by {
            lemma_merged_ties(sl@, sr@, x);
            assert(sl@.filter(ties(x)) == l.filter(ties(x)));
            assert(sr@.filter(ties(x)) == r.filter(ties(x)));
            Seq::filter_distributes_over_add(l, r, ties(x));
        }
    }
    out
}

// ---- names in byte order ------------------------------------------------------------

/// Whether `a` stands before `b`, or is equal to it, in the order of their bytes.
pub open spec fn bytes_le(a: Seq<u8>, b: Seq<u8>) -> bool
    decreases a.len(),
{
    if a.len() == 0 {
        true
    } else if b.len() == 0 {
        false
    } else if a[0] != b[0] {
        a[0] < b[0]
    } else {
        bytes_le(a.drop_first(), b.drop_first())
    }
}

pub proof fn lemma_bytes_total(a: Seq<u8>, b: Seq<u8>)
    ensures
        bytes_le(a, b) || bytes_le(b, a),
        bytes_le(a, b) && bytes_le(b, a) ==> a == b,
    decreases a.len(),
{
    if a.len() > 0 && b.len() > 0 && a[0] == b[0] {
        lemma_bytes_total(a.drop_first(), b.drop_first());
        if a.drop_first() == b.drop_first() {
            assert(a =~= seq![a[0]] + a.drop_first());
            assert(b =~= seq![b[0]] + b.drop_first());
        }
    }
    if a.len() == 0 && b.len() == 0 {
        assert(a =~= b);
    }
}

pub proof fn lemma_bytes_transitive(a: Seq<u8>, b: Seq<u8>, c: Seq<u8>)
    requires
        bytes_le(a, b),
        bytes_le(b, c),
    ensures
        bytes_le(a, c),
    decreases a.len(),
{
    if a.len() > 0 && b.len() > 0 && c.len() > 0 && a[0] == b[0] && b[0] == c[0] {
        lemma_bytes_transitive(a.drop_first(), b.drop_first(), c.drop_first());
    }
}

/// Compares two strings by their bytes.
pub fn name_le(a: &str, b: &str) -> (r: bool)
    ensures
        r == bytes_le(encode_utf8(a@), encode_utf8(b@)),
{
    let x = a.as_bytes();
    let y = b.as_bytes();
    let mut i: usize = 0;
    assert(x@.skip(0) =~= x@);
    assert(y@.skip(0) =~= y@);
    while i < x.len() && i < y.len()
        invariant
            i <= x.len(),
            i <= y.len(),
            x@ == encode_utf8(a@),
            y@ == encode_utf8(b@),
            bytes_le(x@, y@) == bytes_le(x@.skip(i as int), y@.skip(i as int)),
        decreases x.len() - i,
    {
        assert(x@.skip(i as int).drop_first() =~= x@.skip(i + 1));
        assert(y@.skip(i as int).drop_first() =~= y@.skip(i + 1));
        if x[i] != y[i] {
            return x[i] < y[i];
        }
        i += 1;
    }
    i == x.len()
}

/// A name, ranked by its bytes.
pub struct Name {
    pub text: String,
}

impl Ranked for Name {
    open spec fn leads(self, other: Self) -> bool {
        bytes_le(encode_utf8(self.text@), encode_utf8(other.text@))
    }

    proof fn leads_total(a: Self, b: Self) {
        lemma_bytes_total(encode_utf8(a.text@), encode_utf8(b.text@));
    }

    proof fn leads_transitive(a: Self, b: Self, c: Self) {
        lemma_bytes_transitive(
            encode_utf8(a.text@),
            encode_utf8(b.text@),
            encode_utf8(c.text@),
        );
    }

    fn may_lead(&self, other: &Self) -> (r: bool) {
        name_le(self.text.as_str(), other.text.as_str())
    }
}

/// Mapping keeps two sequences permutations of each other.
proof fn lemma_map_multiset<A, B>(s: Seq<A>, r: Seq<A>, f: spec_fn(A) -> B)
    requires
        s.to_multiset() == r.to_multiset(),
    ensures
        s.map_values(f).to_multiset() == r.map_values(f).to_multiset(),
    decreases s.len(),
{
    broadcast use vstd::seq_lib::group_to_multiset_ensures;
    broadcast use vstd::multiset::group_multiset_axioms;

    assert(s.to_multiset().len() == s.len());
    assert(r.to_multiset().len() == r.len());
    if s.len() == 0 {
        assert(s.map_values(f) =~= r.map_values(f));
    } else {
        let x = s.last();
        assert(s.contains(s[s.len() - 1]));
        assert(s.to_multiset().count(x) > 0);
        assert(r.contains(x));
        let i = choose|i: int| 0 <= i < r.len() && r[i] == x;
        let s1 = s.drop_last();
        let r1 = r.remove(i);
        assert(s1 =~= s.remove(s.len() - 1));
        seq_lib::to_multiset_remove(s, s.len() - 1);
        seq_lib::to_multiset_remove(r, i);
        lemma_map_multiset(s1, r1, f);
        assert(s.map_values(f) =~= s1.map_values(f).push(f(x)));
        seq_lib::to_multiset_build(s1.map_values(f), f(x));
        assert(r.map_values(f).remove(i) =~= r1.map_values(f));
        seq_lib::to_multiset_remove(r.map_values(f), i);
        assert(r.map_values(f)[i] == f(x));
        assert(r.map_values(f).to_multiset() =~= r1.map_values(f).to_multiset().insert(f(x)));
    }
}

/// Tells whether all names differ.
pub fn all_different(names: Vec<Name>) -> (r: bool)
    ensures
        r == (forall|i: int, j: int|
            0 <= i < j < names@.len() ==> (#[trigger] names@[i]).text@ != (
            #[trigger] names@[j]).text@),
{
    let ghost before = names@;
    let ghost f = |n: Name| n.text@;
    let sorted = sort(names);
    proof {
        lemma_map_multiset(sorted@, before, f);
    }
    let mut i: usize = 1;
    while i < sorted.len()
        invariant
            1 <= i,
            in_order(sorted@),
            before == names@,
            f == (|n: Name| n.text@),
            sorted@.map_values(f).to_multiset() == before.map_values(f).to_multiset(),
            forall|a: int, b: int|
                0 <= a < b < i && b < sorted@.len() ==> (#[trigger] sorted@[a]).text@ != (
                #[trigger] sorted@[b]).text@,
        decreases sorted.len() - i,
    {
        if text::same(sorted[i - 1].text.as_str(), sorted[i].text.as_str()) {
            proof {
                let u = before.map_values(f);
                lemma_repeats(sorted@.map_values(f), u, i - 1, i as int);
                let (c, d) = choose|c: int, d: int| 0 <= c < d < u.len() && u[c] == u[d];
                assert(before[c].text@ == before[d].text@);
            }
            return false;
        }
        proof {
            assert forall|a: int| 0 <= a < i implies (#[trigger] sorted@[a]).text@
                != sorted@[i as int].text@ by {
                let x = encode_utf8(sorted@[a].text@);
                let y = encode_utf8(sorted@[i - 1].text@);
                let z = encode_utf8(sorted@[i as int].text@);
                assert(sorted@[i - 1].leads(sorted@[i as int]));
                if a < i - 1 {
                    assert(sorted@[a].leads(sorted@[i - 1]));
                    if sorted@[a].text@ == sorted@[i as int].text@ {
                        lemma_bytes_total(y, z);
                        text::lemma_encode_injective(
                            sorted@[i - 1].text@,
                            sorted@[i as int].text@,
                        );
                    }
                }
            }
        }
        i += 1;
    }
    proof {
        let t = sorted@.map_values(f);
        let u = before.map_values(f);
        if exists|a: int, b: int|
            0 <= a < b < before.len() && (#[trigger] before[a]).text@ == (
            #[trigger] before[b]).text@ {
            let (a, b) = choose|a: int, b: int|
                0 <= a < b < before.len() && (#[trigger] before[a]).text@ == (
                #[trigger] before[b]).text@;
            lemma_repeats(u, t, a, b);
            let (c, d) = choose|c: int, d: int| 0 <= c < d < t.len() && t[c] == t[d];
            assert(sorted@[c].text@ == sorted@[d].text@);
        }
    }
    true
}

/// What occurs twice in a sequence occurs twice in every permutation of it.
pub proof fn lemma_repeats<A>(s: Seq<A>, r: Seq<A>, i: int, j: int)
    requires
        s.to_multiset() == r.to_multiset(),
        0 <= i < j < s.len(),
        s[i] == s[j],
    ensures
        exists|c: int, d: int| 0 <= c < d < r.len() && r[c] == r[d],
{
    broadcast use vstd::seq_lib::group_to_multiset_ensures;

    if forall|c: int, d: int| 0 <= c < d < r.len() ==> r[c] != r[d] {
        assert(r.no_duplicates());
        r.lemma_multiset_has_no_duplicates();
        assert(s.to_multiset().contains(s[i]));
        s.lemma_multiset_has_no_duplicates_conv();
    }
}

/// Names stand in the order of their bytes: the first byte in which they differ decides, and a
/// name stands before every longer one that begins with it.
pub proof fn law_the_first_difference_decides(
    p: Seq<u8>,
    x: u8,
    y: u8,
    a: Seq<u8>,
    b: Seq<u8>,
)
    ensures
        x < y ==> bytes_le(p + seq![x] + a, p + seq![y] + b) && !bytes_le(
            p + seq![y] + b,
            p + seq![x] + a,
        ),
        bytes_le(p, p + a),
        a.len() > 0 ==> !bytes_le(p + a, p),
    decreases p.len(),
{
    let l = p + seq![x] + a;
    let r = p + seq![y] + b;
    if p.len() == 0 {
        assert(l[0] == x && r[0] == y);
    } else {
        let q = p.drop_first();
        law_the_first_difference_decides(q, x, y, a, b);
        assert(l.drop_first() =~= q + seq![x] + a);
        assert(r.drop_first() =~= q + seq![y] + b);
        assert((p + a).drop_first() =~= q + a);
        assert(l[0] == p[0] && r[0] == p[0]);
    }
}

/// What is put in order stays what it is: the same elements, each as often, and no element
/// after one that it must precede.
pub proof fn law_sorting_keeps_everything<T: Ranked>(s: Seq<T>, r: Seq<T>, x: T)
    requires
        stably_sorted(s, r),
    ensures
        r.len() == s.len(),
        r.contains(x) == s.contains(x),
        forall|i: int, j: int|
            0 <= i < j < r.len() ==> (#[trigger] r[i]).leads(#[trigger] r[j]),
{
    broadcast use vstd::seq_lib::group_to_multiset_ensures;

    assert(r.to_multiset().len() == s.to_multiset().len());
    assert(r.contains(x) == (r.to_multiset().count(x) > 0));
    assert(s.contains(x) == (s.to_multiset().count(x) > 0));
}

} // verus!
