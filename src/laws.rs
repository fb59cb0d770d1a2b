use vstd::prelude::*;
use vstd::std_specs::iter::IteratorSpec;

use crate::array::{all_comparable, ascending, boundary_at, cycled, element_at, slice_of};
use crate::value::{comparable, lemma_order, model_le};
use crate::buffer::models;
use crate::value::{Model, Value};

verus! {

/// Iterating an array yields exactly as many elements as its length.
pub proof fn law_iteration_length(a: Seq<Model>, it: std::slice::Iter<'_, Value>)
    requires
        models(it.remaining().unref()) == a,
    ensures
        it.remaining().len() == a.len(),
{
    assert(models(it.remaining().unref()).len() == it.remaining().unref().len());
}

/// On a non-empty array, index `-1` names the same element as `len - 1`,
/// while `len` and `-len - 1` name none.
pub proof fn law_index_wraps(n: int)
    requires
        n > 0,
    ensures
        element_at(n, -1) == element_at(n, n - 1),
        element_at(n, n - 1) == Some(n - 1),
        element_at(n, n) is None,
        element_at(n, -n - 1) is None,
{
}

/// Slicing without an end is slicing up to the length; an end that resolves
/// before the start gives an empty slice, not an error.
pub proof fn law_slice(s: Seq<Model>, start: i64, end: i64)
    requires
        s.len() <= i64::MAX,
    ensures
        slice_of(s, start, None) == slice_of(s, start, Some(s.len() as i64)),
        ({
            let n = s.len() as int;
            match (boundary_at(n, start as int), boundary_at(n, end as int)) {
                (Some(a), Some(b)) => b < a ==> slice_of(s, start, Some(end)) == Ok::<
                    Seq<Model>,
                    crate::error::ArrayError,
                >(Seq::empty()),
                _ => true,
            }
        }),
{
    let n = s.len() as int;
    if let (Some(a), Some(b)) = (boundary_at(n, start as int), boundary_at(n, end as int)) {
        assert(s.subrange(a, a) =~= Seq::<Model>::empty());
    }
}

/// Inserting `v` at a non-negative index that admits insertion, then
/// removing at that index, gives back `v` and the elements it started with.
pub proof fn law_insert_remove(s: Seq<Model>, index: int, v: Model)
    requires
        0 <= index,
        boundary_at(s.len() as int, index) is Some,
    ensures
        ({
            let i = boundary_at(s.len() as int, index)->Some_0;
            let t = s.insert(i, v);
            &&& element_at(t.len() as int, index) == Some(i)
            &&& t[i] == v
            &&& t.remove(i) == s
        }),
{
    let i = boundary_at(s.len() as int, index)->Some_0;
    assert(s.insert(i, v).remove(i) =~= s);
}

/// Pushing three values and popping three times gives them back in
/// reverse order and leaves the elements it started with.
pub proof fn law_push_pop(s: Seq<Model>, v1: Model, v2: Model, v3: Model)
    ensures
        ({
            let t = s.push(v1).push(v2).push(v3);
            &&& t.last() == v3
            &&& t.drop_last().last() == v2
            &&& t.drop_last().drop_last().last() == v1
            &&& t.drop_last().drop_last().drop_last() == s
        }),
{
    let t = s.push(v1).push(v2).push(v3);
    assert(t.drop_last() =~= s.push(v1).push(v2));
    assert(t.drop_last().drop_last() =~= s.push(v1));
    assert(t.drop_last().drop_last().drop_last() =~= s);
}

/// Repeating zero times gives nothing; repeating three times gives the
/// elements three times over.
pub proof fn law_repeat(s: Seq<Model>)
    ensures
        cycled(s, 0) == Seq::<Model>::empty(),
        cycled(s, 3 * (s.len() as int)) == s + s + s,
{
    assert(cycled(s, 0) =~= Seq::<Model>::empty());
    let n = s.len() as int;
    assert forall|k: int| 0 <= k < 3 * n implies #[trigger] cycled(s, 3 * (s.len() as int))[k] == (s + s
        + s)[k] by {
        if k < n {
            assert(k % n == k) by (nonlinear_arith)
                requires
                    0 <= k < n,
            ;
        } else if k < 2 * n {
            assert(k % n == k - n) by (nonlinear_arith)
                requires
                    n <= k < 2 * n,
            ;
        } else {
            assert(k % n == k - 2 * n) by (nonlinear_arith)
                requires
                    2 * n <= k < 3 * n,
            ;
        }
    }
    assert(cycled(s, 3 * (s.len() as int)) =~= s + s + s);
}

/// Splitting off the first element takes one occurrence out of the multiset.
proof fn lemma_first_multiset(s: Seq<Model>)
    requires
        s.len() > 0,
    ensures
        s.to_multiset() == s.drop_first().to_multiset().insert(s[0]),
{
    assert(s =~= seq![s[0]] + s.drop_first());
    vstd::seq_lib::lemma_multiset_commutative(seq![s[0]], s.drop_first());
    assert(seq![s[0]] =~= Seq::<Model>::empty().push(s[0]));
    Seq::<Model>::empty().to_multiset_ensures();
    assert(s.to_multiset() =~= s.drop_first().to_multiset().insert(s[0]));
}

/// Sorting elements that are already in ascending order, and can all be
/// ordered against each other, gives them back unchanged: an ascending
/// sequence with the same elements is that very sequence.
pub proof fn law_sorted_keeps_ascending(s: Seq<Model>, t: Seq<Model>)
    requires
        all_comparable(s),
        ascending(s),
        ascending(t),
        t.to_multiset() == s.to_multiset(),
    ensures
        t == s,
    decreases s.len(),
{
    s.to_multiset_ensures();
    t.to_multiset_ensures();
    assert(t.len() == s.len());
    if s.len() > 0 {
        assert(s.contains(s[0]));
        assert(s.to_multiset().count(s[0]) > 0);
        assert(t.to_multiset().count(s[0]) > 0);
        assert(t.contains(s[0]));
        assert(t.contains(t[0]));
        assert(t.to_multiset().count(t[0]) > 0);
        assert(s.to_multiset().count(t[0]) > 0);
        assert(s.contains(t[0]));
        let i = choose|i: int| 0 <= i < t.len() && t[i] == s[0];
        let j = choose|j: int| 0 <= j < s.len() && s[j] == t[0];
        if i != 0 && j != 0 {
            assert(model_le(t[0], t[i]));
            assert(model_le(s[0], s[j]));
            assert(comparable(s[0], s[j]));
            lemma_order(s[0], t[0], s[0]);
        }
        assert(t[0] == s[0]);
        lemma_first_multiset(s);
        lemma_first_multiset(t);
        assert(t.drop_first().to_multiset() =~= s.drop_first().to_multiset()) by {
            assert(t.drop_first().to_multiset() =~= t.to_multiset().remove(t[0]));
            assert(s.drop_first().to_multiset() =~= s.to_multiset().remove(s[0]));
        }
        let s1 = s.drop_first();
        let t1 = t.drop_first();
        assert(all_comparable(s1)) by {
            assert forall|a: int, b: int|
                0 <= a < s1.len() && 0 <= b < s1.len() && a != b implies comparable(
                s1[a],
                s1[b],
            ) by {
                assert(s1[a] == s[a + 1] && s1[b] == s[b + 1]);
            }
        }
        assert(ascending(s1)) by {
            assert forall|a: int, b: int| 0 <= a < b < s1.len() implies model_le(s1[a], s1[b]) by {
                assert(s1[a] == s[a + 1] && s1[b] == s[b + 1]);
            }
        }
        assert(ascending(t1)) by {
            assert forall|a: int, b: int| 0 <= a < b < t1.len() implies model_le(t1[a], t1[b]) by {
                assert(t1[a] == t[a + 1] && t1[b] == t[b + 1]);
            }
        }
        law_sorted_keeps_ascending(s1, t1);
        assert(t =~= s) by {
            assert forall|k: int| 0 <= k < s.len() implies t[k] == s[k] by {
                if k > 0 {
                    assert(t[k] == t1[k - 1] && s[k] == s1[k - 1]);
                }
            }
        }
    } else {
        assert(t =~= s);
    }
}

} // verus!
