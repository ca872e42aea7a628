//! Sequences kept in strictly ascending order, as the model of an ordered
//! set: what inserting and removing at the right place does to the order and
//! to the set of elements.

use vstd::prelude::*;

verus! {

/// `lt` is irreflexive and transitive.
pub open spec fn is_strict_order<A>(lt: spec_fn(A, A) -> bool) -> bool {
    &&& forall|a: A| !#[trigger] lt(a, a)
    &&& forall|a: A, b: A, c: A| #[trigger] lt(a, b) && #[trigger] lt(b, c) ==> lt(a, c)
}

/// Every element of `s` is below all that follow it.
pub open spec fn ascending<A>(s: Seq<A>, lt: spec_fn(A, A) -> bool) -> bool {
    forall|i: int, j: int| 0 <= i < j < s.len() ==> #[trigger] lt(s[i], s[j])
}

/// `pos` is where `k` belongs in `s`: all before it are below `k`, and `k` is
/// below what stands at `pos`, if anything does.
pub open spec fn is_gap<A>(s: Seq<A>, lt: spec_fn(A, A) -> bool, pos: int, k: A) -> bool {
    &&& 0 <= pos <= s.len()
    &&& forall|i: int| 0 <= i < pos ==> #[trigger] lt(s[i], k)
    &&& pos < s.len() ==> lt(k, s[pos])
}

/// An ascending sequence holds nothing twice, so it has as many elements as
/// the set of them.
pub proof fn lemma_ascending_distinct<A>(s: Seq<A>, lt: spec_fn(A, A) -> bool)
    requires
        is_strict_order(lt),
        ascending(s, lt),
    ensures
        s.no_duplicates(),
        s.to_set().finite(),
        s.to_set().len() == s.len(),
{
    assert forall|i: int, j: int| 0 <= i < s.len() && 0 <= j < s.len() && i != j implies s[i]
        != s[j] by {
        if i < j {
            assert(lt(s[i], s[j]));
        } else {
            assert(lt(s[j], s[i]));
        }
    }
    s.unique_seq_to_set();
    vstd::seq_lib::seq_to_set_is_finite(s);
}

/// An element that belongs in a gap of an ascending sequence is not in it.
pub proof fn lemma_gap_absent<A>(s: Seq<A>, lt: spec_fn(A, A) -> bool, pos: int, k: A)
    requires
        is_strict_order(lt),
        ascending(s, lt),
        is_gap(s, lt, pos, k),
    ensures
        !s.contains(k),
        !s.to_set().contains(k),
{
    assert forall|i: int| 0 <= i < s.len() implies s[i] != k by {
        if i < pos {
            assert(lt(s[i], k));
        } else if i == pos {
            assert(lt(k, s[pos]));
        } else {
            assert(lt(s[pos], s[i]));
        }
    }
}

/// Inserting an element into its gap keeps the order and adds it to the set.
pub proof fn lemma_insert_in_gap<A>(s: Seq<A>, lt: spec_fn(A, A) -> bool, pos: int, k: A)
    requires
        is_strict_order(lt),
        ascending(s, lt),
        is_gap(s, lt, pos, k),
    ensures
        ascending(s.insert(pos, k), lt),
        s.insert(pos, k).to_set() == s.to_set().insert(k),
{
    let t = s.insert(pos, k);
    assert forall|i: int, j: int| 0 <= i < j < t.len() implies #[trigger] lt(t[i], t[j]) by {
        if j < pos {
            assert(lt(s[i], s[j]));
        } else if j == pos {
            assert(lt(s[i], k));
        } else if i < pos {
            if j - 1 > pos {
                assert(lt(s[pos], s[j - 1]));
            }
        } else if i == pos {
            if j - 1 > pos {
                assert(lt(s[pos], s[j - 1]));
            }
        } else {
            assert(lt(s[i - 1], s[j - 1]));
        }
    }
    assert forall|x: A| t.to_set().contains(x) <==> s.to_set().insert(k).contains(x) by {
        if t.to_set().contains(x) {
            let i = choose|i: int| 0 <= i < t.len() && t[i] == x;
            if i < pos {
                assert(s[i] == x);
            } else if i > pos {
                assert(s[i - 1] == x);
            }
        }
        if s.to_set().contains(x) {
            let i = choose|i: int| 0 <= i < s.len() && s[i] == x;
            if i < pos {
                assert(t[i] == x);
            } else {
                assert(t[i + 1] == x);
            }
        }
        if x == k {
            assert(t[pos] == x);
        }
    }
}

/// Removing an element of an ascending sequence keeps the order and takes it
/// out of the set.
pub proof fn lemma_remove_at<A>(s: Seq<A>, lt: spec_fn(A, A) -> bool, pos: int)
    requires
        is_strict_order(lt),
        ascending(s, lt),
        0 <= pos < s.len(),
    ensures
        ascending(s.remove(pos), lt),
        s.remove(pos).to_set() == s.to_set().remove(s[pos]),
{
    let t = s.remove(pos);
    assert forall|i: int, j: int| 0 <= i < j < t.len() implies #[trigger] lt(t[i], t[j]) by {
        let si = if i < pos { i } else { i + 1 };
        let sj = if j < pos { j } else { j + 1 };
        assert(lt(s[si], s[sj]));
    }
    lemma_ascending_distinct(s, lt);
    assert forall|x: A| t.to_set().contains(x) <==> s.to_set().remove(s[pos]).contains(x) by {
        if t.to_set().contains(x) {
            let i = choose|i: int| 0 <= i < t.len() && t[i] == x;
            let si = if i < pos { i } else { i + 1 };
            assert(s[si] == x);
        }
        if s.to_set().contains(x) && x != s[pos] {
            let i = choose|i: int| 0 <= i < s.len() && s[i] == x;
            if i < pos {
                assert(t[i] == x);
            } else {
                assert(t[i - 1] == x);
            }
        }
    }
}

/// A set has one ascending listing only: two ascending sequences with the
/// same elements are the same sequence.
pub proof fn lemma_ascending_unique<A>(s: Seq<A>, t: Seq<A>, lt: spec_fn(A, A) -> bool)
    requires
        is_strict_order(lt),
        ascending(s, lt),
        ascending(t, lt),
        s.to_set() == t.to_set(),
    ensures
        s == t,
    decreases s.len(),
{
    lemma_ascending_distinct(s, lt);
    lemma_ascending_distinct(t, lt);
    if s.len() > 0 {
        let n = s.len() - 1;
        assert(s.to_set().contains(t[n]));
        assert(t.to_set().contains(s[n]));
        let i = choose|i: int| 0 <= i < s.len() && s[i] == t[n];
        let j = choose|j: int| 0 <= j < t.len() && t[j] == s[n];
        if i < n {
            assert(lt(s[i], s[n]));
            if j < n {
                assert(lt(t[j], t[n]));
            }
        }
        lemma_remove_at(s, lt, n);
        lemma_remove_at(t, lt, n);
        lemma_ascending_unique(s.drop_last(), t.drop_last(), lt);
        assert(s =~= s.drop_last().push(s[n]));
    } else {
        assert(s =~= t);
    }
}

/// The first `i + 1` elements of a sequence are the first `i` and the one at
/// place `i`.
pub proof fn lemma_take_one_more<A>(s: Seq<A>, i: int)
    requires
        0 <= i < s.len(),
    ensures
        s.take(i + 1) == s.take(i).push(s[i]),
        forall|x: A| s.take(i + 1).contains(x) <==> s.take(i).contains(x) || x == s[i],
{
    let next = s.take(i + 1);
    let seen = s.take(i);
    assert forall|x: A| next.contains(x) <==> seen.contains(x) || x == s[i] by {
        if next.contains(x) {
            let j = choose|j: int| 0 <= j < next.len() && next[j] == x;
            if j < i {
                assert(seen[j] == x);
            }
        }
        if seen.contains(x) {
            let j = choose|j: int| 0 <= j < seen.len() && seen[j] == x;
            assert(next[j] == x);
        }
        if x == s[i] {
            assert(next[i] == x);
        }
    }
}

} // verus!
