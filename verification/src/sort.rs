//! A stable sort by an integer key.

use vstd::prelude::*;

verus! {

/// An item that is ordered by a number.
pub trait SortKey: Copy {
    spec fn key(self) -> u64;

    fn sort_key(self) -> (k: u64)
        ensures
            k == self.key(),
    ;
}

impl SortKey for u32 {
    open spec fn key(self) -> u64 {
        self as u64
    }

    fn sort_key(self) -> (k: u64) {
        self as u64
    }
}

/// `x` put into `s`, behind every item whose key is not greater.
pub open spec fn insert_by_key<T: SortKey>(s: Seq<T>, x: T) -> Seq<T>
    decreases s.len(),
{
    if s.len() == 0 || s.last().key() <= x.key() {
        s.push(x)
    } else {
        insert_by_key(s.drop_last(), x).push(s.last())
    }
}

/// The items of `s` by ascending key; items with one key stay in order.
pub open spec fn sort_by_key<T: SortKey>(s: Seq<T>) -> Seq<T>
    decreases s.len(),
{
    if s.len() == 0 {
        s
    } else {
        insert_by_key(sort_by_key(s.drop_last()), s.last())
    }
}

/// Keys ascend.
pub open spec fn is_sorted<T: SortKey>(s: Seq<T>) -> bool {
    forall|i: int, j: int| 0 <= i <= j < s.len() ==> s[i].key() <= s[j].key()
}

proof fn lemma_insert_at<T: SortKey>(s: Seq<T>, x: T, at: int)
    requires
        0 <= at <= s.len(),
        at == 0 || s[at - 1].key() <= x.key(),
        forall|j: int| at <= j < s.len() ==> s[j].key() > x.key(),
    ensures
        insert_by_key(s, x) == s.insert(at, x),
    decreases s.len(),
{
    if at == s.len() {
        assert(s.push(x) =~= s.insert(at, x));
    } else {
        lemma_insert_at(s.drop_last(), x, at);
        assert(s.drop_last().insert(at, x).push(s.last()) =~= s.insert(at, x));
    }
}

proof fn lemma_insert_sorted<T: SortKey>(s: Seq<T>, x: T)
    requires
        is_sorted(s),
    ensures
        is_sorted(insert_by_key(s, x)),
        insert_by_key(s, x).to_multiset() == s.to_multiset().insert(x),
        forall|i: int|
            0 <= i < s.len() + 1 ==> #[trigger] insert_by_key(s, x)[i] == x || s.contains(
                insert_by_key(s, x)[i],
            ),
        insert_by_key(s, x).len() == s.len() + 1,
    decreases s.len(),
{
    broadcast use vstd::seq_lib::group_to_multiset_ensures;

    if s.len() == 0 || s.last().key() <= x.key() {
    } else {
        let front = s.drop_last();
        let inner = insert_by_key(front, x);
        lemma_insert_sorted(front, x);
        assert(front.push(s.last()) =~= s);
        assert(inner.push(s.last()).to_multiset() =~= s.to_multiset().insert(x));
        assert forall|i: int| 0 <= i < inner.len() implies inner[i].key() <= s.last().key() by {
            if inner[i] != x {
                let k = choose|k: int| 0 <= k < front.len() && front[k] == inner[i];
                assert(s[k].key() <= s[s.len() - 1].key());
            }
        }
        assert forall|i: int| 0 <= i < s.len() + 1 implies #[trigger] insert_by_key(s, x)[i] == x
            || s.contains(insert_by_key(s, x)[i]) by {
            if i < inner.len() {
                assert(insert_by_key(s, x)[i] == inner[i]);
                if inner[i] != x {
                    let k = choose|k: int| 0 <= k < front.len() && front[k] == inner[i];
                    assert(s[k] == inner[i]);
                }
            }
        }
    }
}

/// Sorting puts the same items in ascending order of their keys.
pub proof fn law_sort_is_a_sorted_permutation<T: SortKey>(s: Seq<T>)
    ensures
        is_sorted(sort_by_key(s)),
        sort_by_key(s).to_multiset() == s.to_multiset(),
        sort_by_key(s).len() == s.len(),
    decreases s.len(),
{
    broadcast use vstd::seq_lib::group_to_multiset_ensures;

    if s.len() > 0 {
        law_sort_is_a_sorted_permutation(s.drop_last());
        lemma_insert_sorted(sort_by_key(s.drop_last()), s.last());
        assert(s.drop_last().push(s.last()) =~= s);
    }
}

/// Sort by key, keeping the order of items with one key.
pub fn sorted<T: SortKey>(items: &Vec<T>) -> (out: Vec<T>)
    ensures
        out@ == sort_by_key(items@),
{
    let mut out: Vec<T> = Vec::new();
    let mut n: usize = 0;
    assert(items@.take(0) =~= Seq::<T>::empty());
    while n < items.len()
        invariant
            n <= items.len(),
            out@ == sort_by_key(items@.take(n as int)),
            out.len() == n,
        decreases items.len() - n,
    {
        let x: T = items[n];
        let k: u64 = x.sort_key();
        let mut at: usize = out.len();
        let ghost before = out@;
        while at > 0 && out[at - 1].sort_key() > k
            invariant
                at <= out.len(),
                out@ == before,
                k == x.key(),
                forall|j: int| at <= j < before.len() ==> before[j].key() > x.key(),
            decreases at,
        {
            at = at - 1;
        }
        proof {
            lemma_insert_at(before, x, at as int);
            assert(items@.take(n + 1).drop_last() =~= items@.take(n as int));
        }
        out.insert(at, x);
        n = n + 1;
    }
    assert(items@.take(n as int) =~= items@);
    out
}

} // verus!
