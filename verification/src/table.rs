//! Tables whose rows are found by a key that no two rows share.

use vstd::prelude::*;

use crate::order;
use crate::text;

verus! {

/// A row of a table, found by its key.
pub trait Keyed: Sized {
    spec fn key(self) -> Seq<char>;

    fn key_text(&self) -> (r: &str)
        ensures
            r@ == self.key(),
    ;

    fn copy_row(&self) -> (r: Self)
        ensures
            r == *self,
    ;
}

/// No two rows have the same key.
pub open spec fn distinct_keys<T: Keyed>(rows: Seq<T>) -> bool {
    forall|i: int, j: int|
        0 <= i < j < rows.len() ==> (#[trigger] rows[i]).key() != (#[trigger] rows[j]).key()
}

/// Whether row `i` has key `k`.
pub open spec fn is_slot<T: Keyed>(rows: Seq<T>, k: Seq<char>, i: int) -> bool {
    0 <= i < rows.len() && rows[i].key() == k
}

/// Whether there is a row with key `k`.
pub open spec fn has_row<T: Keyed>(rows: Seq<T>, k: Seq<char>) -> bool {
    exists|i: int| is_slot(rows, k, i)
}

/// The place of the row with key `k`.
pub open spec fn slot<T: Keyed>(rows: Seq<T>, k: Seq<char>) -> int {
    choose|i: int| is_slot(rows, k, i)
}

/// The row with key `k`, if there is one.
pub open spec fn row<T: Keyed>(rows: Seq<T>, k: Seq<char>) -> Option<T> {
    if has_row(rows, k) {
        Some(rows[slot(rows, k)])
    } else {
        None
    }
}

/// The table with `r` in the place of the row of the same key, or at the end.
pub open spec fn with_row<T: Keyed>(rows: Seq<T>, r: T) -> Seq<T> {
    if has_row(rows, r.key()) {
        rows.update(slot(rows, r.key()), r)
    } else {
        rows.push(r)
    }
}

/// The table without the row with key `k`.
pub open spec fn without_row<T: Keyed>(rows: Seq<T>, k: Seq<char>) -> Seq<T> {
    if has_row(rows, k) {
        rows.remove(slot(rows, k))
    } else {
        rows
    }
}

proof fn lemma_slot_unique<T: Keyed>(rows: Seq<T>, k: Seq<char>, i: int)
    requires
        distinct_keys(rows),
        is_slot(rows, k, i),
    ensures
        has_row(rows, k),
        slot(rows, k) == i,
{
    let j = slot(rows, k);
    assert(is_slot(rows, k, j));
    if i < j {
        assert(rows[i].key() != rows[j].key());
    } else if j < i {
        assert(rows[j].key() != rows[i].key());
    }
}

/// Keys stay distinct, `r` is found under its key, and every other row is found as it
/// was before.
pub proof fn lemma_with_row<T: Keyed>(rows: Seq<T>, r: T)
    requires
        distinct_keys(rows),
    ensures
        distinct_keys(with_row(rows, r)),
        row(with_row(rows, r), r.key()) == Some(r),
        forall|k: Seq<char>|
            k != r.key() ==> #[trigger] row(with_row(rows, r), k) == row(rows, k),
{
    let n = with_row(rows, r);
    if has_row(rows, r.key()) {
        let s = slot(rows, r.key());
        assert(is_slot(rows, r.key(), s));
        assert forall|i: int, j: int| 0 <= i < j < n.len() implies (#[trigger] n[i]).key() != (
        #[trigger] n[j]).key() by {
            assert(n[i].key() == rows[i].key());
            assert(n[j].key() == rows[j].key());
        }
        assert(is_slot(n, r.key(), s));
        lemma_slot_unique(n, r.key(), s);
    } else {
        assert forall|i: int, j: int| 0 <= i < j < n.len() implies (#[trigger] n[i]).key() != (
        #[trigger] n[j]).key() by {
            if j == rows.len() {
                assert(n[j] == r);
                if rows[i].key() == r.key() {
                    assert(is_slot(rows, r.key(), i));
                }
            }
        }
        assert(is_slot(n, r.key(), rows.len() as int));
        lemma_slot_unique(n, r.key(), rows.len() as int);
    }
    assert forall|k: Seq<char>| k != r.key() implies #[trigger] row(n, k) == row(rows, k) by {
        if has_row(rows, k) {
            let i = slot(rows, k);
            assert(is_slot(rows, k, i));
            assert(is_slot(n, k, i));
            lemma_slot_unique(n, k, i);
        } else if has_row(n, k) {
            let i = slot(n, k);
            assert(is_slot(n, k, i));
            assert(is_slot(rows, k, i));
        }
    }
}

/// A table whose rows stand in another order holds the same rows under the same keys.
pub proof fn lemma_same_rows<T: Keyed>(a: Seq<T>, b: Seq<T>, k: Seq<char>)
    requires
        distinct_keys(a),
        a.to_multiset() == b.to_multiset(),
    ensures
        distinct_keys(b),
        row(b, k) == row(a, k),
{
    broadcast use vstd::seq_lib::group_to_multiset_ensures;

    assert forall|x: T| a.contains(x) == #[trigger] b.contains(x) by {
        assert(a.contains(x) == (a.to_multiset().count(x) > 0));
        assert(b.contains(x) == (b.to_multiset().count(x) > 0));
    }
    assert forall|i: int, j: int| 0 <= i < j < b.len() implies (#[trigger] b[i]).key() != (
    #[trigger] b[j]).key() by {
        if b[i].key() == b[j].key() {
            assert(b.contains(b[i]) && b.contains(b[j]));
            let c = choose|c: int| 0 <= c < a.len() && a[c] == b[i];
            let d = choose|d: int| 0 <= d < a.len() && a[d] == b[j];
            assert(a[c].key() == a[d].key());
            assert(c == d);
            order::lemma_repeats(b, a, i, j);
            let (e, f) = choose|e: int, f: int| 0 <= e < f < a.len() && a[e] == a[f];
            assert(a[e].key() != a[f].key());
        }
    }
    if has_row(a, k) {
        let i = slot(a, k);
        assert(is_slot(a, k, i));
        assert(a.contains(a[i]));
        assert(b.contains(a[i]));
        let j = choose|j: int| 0 <= j < b.len() && b[j] == a[i];
        assert(is_slot(b, k, j));
        lemma_slot_unique(b, k, j);
    } else if has_row(b, k) {
        let j = slot(b, k);
        assert(is_slot(b, k, j));
        assert(b.contains(b[j]));
        let i = choose|i: int| 0 <= i < a.len() && a[i] == b[j];
        assert(is_slot(a, k, i));
    }
}

/// Of two rows with the same key that are put into the table, the second counts.
pub proof fn lemma_with_row_twice<T: Keyed>(rows: Seq<T>, a: T, b: T)
    requires
        distinct_keys(rows),
        a.key() == b.key(),
    ensures
        with_row(with_row(rows, a), b) == with_row(rows, b),
{
    let n = with_row(rows, a);
    lemma_with_row(rows, a);
    let k = a.key();
    let i = if has_row(rows, k) {
        slot(rows, k)
    } else {
        rows.len() as int
    };
    if has_row(rows, k) {
        assert(is_slot(rows, k, i));
    }
    assert(is_slot(n, k, i));
    lemma_slot_unique(n, k, i);
    assert(with_row(n, b) =~= with_row(rows, b));
}

/// Keys stay distinct, the row is gone, and every other row is found as it was before.
pub proof fn lemma_without_row<T: Keyed>(rows: Seq<T>, gone: Seq<char>)
    requires
        distinct_keys(rows),
    ensures
        distinct_keys(without_row(rows, gone)),
        row(without_row(rows, gone), gone) is None,
        forall|k: Seq<char>|
            k != gone ==> #[trigger] row(without_row(rows, gone), k) == row(rows, k),
{
    let n = without_row(rows, gone);
    if has_row(rows, gone) {
        let s = slot(rows, gone);
        assert(is_slot(rows, gone, s));
        assert forall|i: int, j: int| 0 <= i < j < n.len() implies (#[trigger] n[i]).key() != (
        #[trigger] n[j]).key() by {
            let i0 = if i < s { i } else { i + 1 };
            let j0 = if j < s { j } else { j + 1 };
            assert(n[i] == rows[i0]);
            assert(n[j] == rows[j0]);
        }
        if has_row(n, gone) {
            let i = slot(n, gone);
            assert(is_slot(n, gone, i));
            let i0 = if i < s { i } else { i + 1 };
            assert(n[i] == rows[i0]);
            assert(is_slot(rows, gone, i0));
            lemma_slot_unique(rows, gone, i0);
        }
        assert forall|k: Seq<char>| k != gone implies #[trigger] row(n, k) == row(rows, k) by {
            if has_row(rows, k) {
                let i = slot(rows, k);
                assert(is_slot(rows, k, i));
                let m = if i < s { i } else { i - 1 };
                assert(n[m] == rows[i]);
                assert(is_slot(n, k, m));
                lemma_slot_unique(n, k, m);
            } else if has_row(n, k) {
                let i = slot(n, k);
                assert(is_slot(n, k, i));
                let i0 = if i < s { i } else { i + 1 };
                assert(n[i] == rows[i0]);
                assert(is_slot(rows, k, i0));
            }
        }
    }
}

/// The place of the row with key `k`.
pub fn find_row<T: Keyed>(rows: &Vec<T>, k: &str) -> (r: Option<usize>)
    requires
        distinct_keys(rows@),
    ensures
        match r {
            Some(i) => i < rows.len() && has_row(rows@, k@) && i == slot(rows@, k@),
            None => !has_row(rows@, k@),
        },
{
    let mut i: usize = 0;
    while i < rows.len()
        invariant
            i <= rows.len(),
            distinct_keys(rows@),
            forall|j: int| 0 <= j < i ==> !is_slot(rows@, k@, j),
        decreases rows.len() - i,
    {
        if text::same(rows[i].key_text(), k) {
            proof {
                assert(is_slot(rows@, k@, i as int));
                lemma_slot_unique(rows@, k@, i as int);
            }
            return Some(i);
        }
        i += 1;
    }
    None
}

/// A copy of the row with key `k`.
pub fn get_row<T: Keyed>(rows: &Vec<T>, k: &str) -> (r: Option<T>)
    requires
        distinct_keys(rows@),
    ensures
        r == row(rows@, k@),
{
    match find_row(rows, k) {
        Some(i) => Some(rows[i].copy_row()),
        None => None,
    }
}

/// Removes the row with key `k`.
pub fn delete_row<T: Keyed>(rows: &mut Vec<T>, k: &str)
    requires
        distinct_keys(old(rows)@),
    ensures
        final(rows)@ == without_row(old(rows)@, k@),
        distinct_keys(final(rows)@),
{
    proof {
        lemma_without_row(rows@, k@);
    }
    match find_row(rows, k) {
        Some(i) => {
            rows.remove(i);
        },
        None => {},
    }
}

/// A copy of all rows.
pub fn copy_rows<T: Keyed>(rows: &Vec<T>) -> (r: Vec<T>)
    ensures
        r@ == rows@,
{
    let mut out: Vec<T> = Vec::new();
    let mut i: usize = 0;
    while i < rows.len()
        invariant
            i <= rows.len(),
            out@ == rows@.take(i as int),
        decreases rows.len() - i,
    {
        out.push(rows[i].copy_row());
        i += 1;
        assert(out@ =~= rows@.take(i as int));
    }
    assert(out@ =~= rows@);
    out
}

/// Tells whether no two rows have the same key.
pub fn check_distinct<T: Keyed>(rows: &Vec<T>) -> (r: bool)
    ensures
        r == distinct_keys(rows@),
{
    let mut keys: Vec<order::Name> = Vec::new();
    let mut i: usize = 0;
    while i < rows.len()
        invariant
            i <= rows.len(),
            keys@.len() == i,
            forall|j: int| 0 <= j < i ==> (#[trigger] keys@[j]).text@ == rows@[j].key(),
        decreases rows.len() - i,
    {
        keys.push(order::Name { text: rows[i].key_text().to_owned() });
        i += 1;
    }
    let ghost before = keys@;
    let r = order::all_different(keys);
    proof {
        if r {
            assert forall|a: int, b: int| 0 <= a < b < rows@.len() implies (#[trigger] rows@[a]).key()
                != (#[trigger] rows@[b]).key() by {
                assert(before[a].text@ != before[b].text@);
            }
        } else {
            let (a, b) = choose|a: int, b: int|
                0 <= a < b < before.len() && (#[trigger] before[a]).text@ == (
                #[trigger] before[b]).text@;
            assert(rows@[a].key() == rows@[b].key());
        }
    }
    r
}

} // verus!
