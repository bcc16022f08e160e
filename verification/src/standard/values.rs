//! Comparisons of generic states and events whose `==` is the identity.
use vstd::prelude::*;

verus! {

/// The values of `values` in order of first appearance, each once.
pub open spec fn distinct_in_order<A>(values: Seq<A>) -> Seq<A>
    decreases values.len(),
{
    if values.len() == 0 {
        Seq::empty()
    } else {
        let kept = distinct_in_order(values.drop_last());
        if kept.contains(values.last()) {
            kept
        } else {
            kept.push(values.last())
        }
    }
}

/// Keeping first appearances loses no value, adds none, and repeats none.
pub proof fn lemma_distinct_in_order<A>(values: Seq<A>)
    ensures
        distinct_in_order(values).no_duplicates(),
        forall|x: A| #[trigger] distinct_in_order(values).contains(x) <==> values.contains(x),
        distinct_in_order(values).len() <= values.len(),
    decreases values.len(),
{
    if values.len() > 0 {
        let prefix = values.drop_last();
        lemma_distinct_in_order(prefix);
        assert forall|x: A| #[trigger] distinct_in_order(values).contains(x) <==> values.contains(x) by {
            assert(values[values.len() - 1] == values.last());
            if values.contains(x) && x != values.last() {
                let i = choose|i: int| 0 <= i < values.len() && values[i] == x;
                assert(i != values.len() - 1);
                assert(prefix[i] == x);
            }
            if prefix.contains(x) {
                let i = choose|i: int| 0 <= i < prefix.len() && prefix[i] == x;
                assert(values[i] == x);
            }
            let kept = distinct_in_order(prefix);
            if !kept.contains(values.last()) {
                assert(kept.push(values.last())[kept.len() as int] == values.last());
                if kept.contains(x) {
                    let i = choose|i: int| 0 <= i < kept.len() && kept[i] == x;
                    assert(kept.push(values.last())[i] == x);
                }
                if kept.push(values.last()).contains(x) && x != values.last() {
                    let i = choose|i: int| 0 <= i < kept.len() + 1 && kept.push(values.last())[i] == x;
                    assert(kept[i] == x);
                }
            }
        }
    }
}

/// Compares two values whose `==` is the identity.
pub fn same_value<T: PartialEq>(a: &T, b: &T) -> (r: bool)
    requires
        vstd::laws_eq::obeys_concrete_eq::<T>(),
    ensures
        r == (*a == *b),
{
    proof {
        reveal(vstd::laws_eq::obeys_concrete_eq);
    }
    *a == *b
}

/// Whether `values` lists `value`.
pub fn contains_value<T: PartialEq>(values: &Vec<T>, value: &T) -> (r: bool)
    requires
        vstd::laws_eq::obeys_concrete_eq::<T>(),
    ensures
        r == values@.contains(*value),
{
    let mut i: usize = 0;
    while i < values.len()
        invariant
            vstd::laws_eq::obeys_concrete_eq::<T>(),
            i <= values@.len(),
            forall|j: int| 0 <= j < i ==> values@[j] != *value,
        decreases values@.len() - i,
    {
        if same_value(&values[i], value) {
            return true;
        }
        i = i + 1;
    }
    false
}

/// The position of `value` in `values`, if it is listed.
pub fn position_of<T: PartialEq>(values: &Vec<T>, value: &T) -> (r: Option<usize>)
    requires
        vstd::laws_eq::obeys_concrete_eq::<T>(),
    ensures
        r matches Some(i) ==> i < values@.len() && values@[i as int] == *value,
        r is None ==> !values@.contains(*value),
{
    let mut i: usize = 0;
    while i < values.len()
        invariant
            vstd::laws_eq::obeys_concrete_eq::<T>(),
            i <= values@.len(),
            forall|j: int| 0 <= j < i ==> values@[j] != *value,
        decreases values@.len() - i,
    {
        if same_value(&values[i], value) {
            return Some(i);
        }
        i = i + 1;
    }
    None
}

/// The values of `values` in order of first appearance, each once.
pub fn distinct_values<T: PartialEq + Copy>(values: &Vec<T>) -> (r: Vec<T>)
    requires
        vstd::laws_eq::obeys_concrete_eq::<T>(),
    ensures
        r@ == distinct_in_order(values@),
{
    let mut r: Vec<T> = Vec::new();
    let mut i: usize = 0;
    while i < values.len()
        invariant
            vstd::laws_eq::obeys_concrete_eq::<T>(),
            i <= values@.len(),
            r@ == distinct_in_order(values@.take(i as int)),
        decreases values@.len() - i,
    {
        let value = values[i];
        proof {
            assert(values@.take(i + 1).drop_last() =~= values@.take(i as int));
            assert(values@.take(i + 1).last() == value);
        }
        if !contains_value(&r, &value) {
            r.push(value);
        }
        i = i + 1;
    }
    proof {
        assert(values@.take(values@.len() as int) =~= values@);
    }
    r
}

/// The position of `value`, which `values` lists.
pub fn index_of<T: PartialEq>(values: &Vec<T>, value: &T) -> (r: usize)
    requires
        vstd::laws_eq::obeys_concrete_eq::<T>(),
        values@.contains(*value),
    ensures
        r < values@.len(),
        values@[r as int] == *value,
{
    let mut i: usize = 0;
    while i < values.len()
        invariant
            vstd::laws_eq::obeys_concrete_eq::<T>(),
            values@.contains(*value),
            i <= values@.len(),
            forall|j: int| 0 <= j < i ==> values@[j] != *value,
        decreases values@.len() - i,
    {
        if same_value(&values[i], value) {
            return i;
        }
        i = i + 1;
    }
    proof {
        let j = choose|j: int| 0 <= j < values@.len() && values@[j] == *value;
        assert(values@[j] != *value);
    }
    0
}

/// The values at the given positions of `values`.
pub fn values_at<T: Copy>(values: &Vec<T>, positions: Vec<usize>) -> (r: Vec<T>)
    requires
        forall|k: int| 0 <= k < positions@.len() ==> #[trigger] positions@[k] < values@.len(),
    ensures
        r@ == positions@.map_values(|i: usize| values@[i as int]),
{
    let mut r: Vec<T> = Vec::new();
    let mut k: usize = 0;
    while k < positions.len()
        invariant
            k <= positions@.len(),
            forall|m: int| 0 <= m < positions@.len() ==> #[trigger] positions@[m] < values@.len(),
            r@ == positions@.take(k as int).map_values(|i: usize| values@[i as int]),
        decreases positions@.len() - k,
    {
        r.push(values[positions[k]]);
        proof {
            assert(positions@.take(k + 1).map_values(|i: usize| values@[i as int]) =~= positions@.take(
                k as int,
            ).map_values(|i: usize| values@[i as int]).push(values@[positions@[k as int] as int]));
        }
        k = k + 1;
    }
    proof {
        assert(positions@.take(positions@.len() as int) =~= positions@);
    }
    r
}

/// A copy of `values`.
pub fn copy_values<T: Copy>(values: &Vec<T>) -> (r: Vec<T>)
    ensures
        r@ == values@,
{
    let mut r: Vec<T> = Vec::new();
    let mut i: usize = 0;
    while i < values.len()
        invariant
            i <= values@.len(),
            r@ == values@.take(i as int),
        decreases values@.len() - i,
    {
        r.push(values[i]);
        proof {
            assert(values@.take(i + 1) =~= values@.take(i as int).push(values@[i as int]));
        }
        i = i + 1;
    }
    proof {
        assert(values@.take(values@.len() as int) =~= values@);
    }
    r
}

} // verus!
