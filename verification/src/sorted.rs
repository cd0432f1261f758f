//! Sorting and membership for lists of process ids.
use vstd::prelude::*;
use vstd::relations::{sorted_by, total_ordering};

verus! {

broadcast use vstd::seq_lib::group_to_multiset_ensures;

/// `s` is in non-decreasing order.
pub open spec fn sorted_le(s: Seq<u32>) -> bool {
    forall|a: int, b: int| 0 <= a < b < s.len() ==> s[a] <= s[b]
}

/// `s` is in strictly increasing order (sorted, no value twice).
pub open spec fn strictly_sorted(s: Seq<u32>) -> bool {
    forall|a: int, b: int| 0 <= a < b < s.len() ==> s[a] < s[b]
}

/// Whether `x` occurs in `v`.
pub fn vec_contains(v: &Vec<u32>, x: u32) -> (r: bool)
    ensures
        r == v@.contains(x),
{
    let mut i: usize = 0;
    while i < v.len()
        invariant
            i <= v@.len(),
            forall|j: int| 0 <= j < i ==> v@[j] != x,
        decreases v.len() - i,
    {
        if v[i] == x {
            return true;
        }
        i = i + 1;
    }
    false
}

proof fn lemma_insert_multiset(s: Seq<u32>, i: int, x: u32)
    requires
        0 <= i <= s.len(),
    ensures
        s.insert(i, x).to_multiset() == s.to_multiset().insert(x),
{
    let t = s.insert(i, x);
    assert(t.remove(i) =~= s);
    assert(t[i] == x);
    assert(t.to_multiset().count(x) > 0) by {
        assert(t.contains(x));
    }
    assert forall|y: u32| #[trigger] t.to_multiset().count(y) == s.to_multiset().insert(x).count(y) by {
        assert(s.to_multiset() == t.to_multiset().remove(x));
    }
    assert(t.to_multiset() =~= s.to_multiset().insert(x));
}

/// The numeric order on `u32`.
pub open spec fn u32_le() -> spec_fn(u32, u32) -> bool {
    |a: u32, b: u32| a <= b
}

/// The values of `s`, in non-decreasing order.
pub open spec fn sorted_values(s: Seq<u32>) -> Seq<u32> {
    s.sort_by(u32_le())
}

/// A non-decreasing list holding the values of `s` is `sorted_values(s)`.
pub proof fn lemma_sorted_values_unique(r: Seq<u32>, s: Seq<u32>)
    requires
        sorted_le(r),
        r.to_multiset() == s.to_multiset(),
    ensures
        r == sorted_values(s),
{
    let leq = u32_le();
    assert(total_ordering(leq));
    s.lemma_sort_by_ensures(leq);
    assert(sorted_by(r, leq));
    vstd::seq_lib::lemma_sorted_unique(r, s.sort_by(leq), leq);
}

/// The values of `v` in non-decreasing order.
pub fn sort_u32(v: &Vec<u32>) -> (r: Vec<u32>)
    ensures
        sorted_le(r@),
        r@.to_multiset() == v@.to_multiset(),
        r@ == sorted_values(v@),
{
    let mut out: Vec<u32> = Vec::new();
    let mut k: usize = 0;
    assert(v@.take(0) =~= Seq::<u32>::empty());
    while k < v.len()
        invariant
            k <= v@.len(),
            sorted_le(out@),
            out@.to_multiset() == v@.take(k as int).to_multiset(),
        decreases v.len() - k,
    {
        let x = v[k];
        let mut pos: usize = 0;
        while pos < out.len() && out[pos] <= x
            invariant
                pos <= out@.len(),
                forall|j: int| 0 <= j < pos ==> out@[j] <= x,
            decreases out.len() - pos,
        {
            pos = pos + 1;
        }
        let ghost before = out@;
        proof {
            assert forall|j: int| pos <= j < before.len() implies before[j] > x by {
                if pos < before.len() {
                    assert(before[pos as int] > x);
                    assert(before[pos as int] <= before[j]);
                }
            }
        }
        out.insert(pos, x);
        proof {
            lemma_insert_multiset(before, pos as int, x);
            assert(v@.take(k + 1) =~= v@.take(k as int).push(x));
            assert(out@ == before.insert(pos as int, x));
            assert forall|a: int, b: int| 0 <= a < b < out@.len() implies out@[a] <= out@[b] by {
                if b < pos {
                } else if b == pos {
                } else if a < pos {
                    assert(out@[b] == before[b - 1]);
                } else if a == pos {
                    assert(out@[b] == before[b - 1]);
                } else {
                    assert(out@[a] == before[a - 1]);
                    assert(out@[b] == before[b - 1]);
                }
            }
        }
        k = k + 1;
    }
    assert(v@.take(v@.len() as int) =~= v@);
    proof {
        lemma_sorted_values_unique(out@, v@);
    }
    out
}

/// A sorted list with no value twice is strictly increasing.
pub proof fn lemma_sorted_unique_is_strict(s: Seq<u32>)
    requires
        sorted_le(s),
        s.no_duplicates(),
    ensures
        strictly_sorted(s),
{
}

/// Two lists with the same multiset of values hold the same values.
pub proof fn lemma_same_multiset_same_values(a: Seq<u32>, b: Seq<u32>)
    requires
        a.to_multiset() == b.to_multiset(),
    ensures
        forall|x: u32| a.contains(x) <==> b.contains(x),
{
    assert forall|x: u32| a.contains(x) <==> b.contains(x) by {
        assert(a.contains(x) <==> a.to_multiset().count(x) > 0);
        assert(b.contains(x) <==> b.to_multiset().count(x) > 0);
    }
}

/// A list with the multiset of a list without duplicates has none either.
pub proof fn lemma_same_multiset_no_duplicates(a: Seq<u32>, b: Seq<u32>)
    requires
        a.to_multiset() == b.to_multiset(),
        a.no_duplicates(),
    ensures
        b.no_duplicates(),
{
    a.lemma_multiset_has_no_duplicates();
    b.lemma_multiset_has_no_duplicates_conv();
}

/// A list of distinct values each of which occurs in `c` is no longer than `c`.
pub proof fn lemma_unique_within(s: Seq<u32>, c: Seq<u32>)
    requires
        s.no_duplicates(),
        forall|i: int| 0 <= i < s.len() ==> c.contains(#[trigger] s[i]),
    ensures
        s.len() <= c.len(),
{
    s.unique_seq_to_set();
    c.lemma_cardinality_of_set();
    assert(s.to_set().subset_of(c.to_set())) by {
        assert forall|x: u32| s.to_set().contains(x) implies c.to_set().contains(x) by {
            let i = choose|i: int| 0 <= i < s.len() && s[i] == x;
            assert(c.contains(s[i]));
        }
    }
    vstd::set_lib::lemma_len_subset(s.to_set(), c.to_set());
}

} // verus!
