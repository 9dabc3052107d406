//! General-purpose helpers on vectors.
use vstd::laws_eq::obeys_concrete_eq;
use vstd::prelude::*;

verus! {

/// The elements of `s` at their first occurrence, in the order of `s`.
pub open spec fn first_occurrences<T>(s: Seq<T>) -> Seq<T>
    decreases s.len(),
{
    if s.len() == 0 {
        Seq::empty()
    } else {
        let kept = first_occurrences(s.drop_last());
        if kept.contains(s.last()) {
            kept
        } else {
            kept.push(s.last())
        }
    }
}

/// Whether `x` occurs in `v`.
fn vec_contains<T: PartialEq>(v: &Vec<T>, x: &T) -> (r: bool)
    requires
        obeys_concrete_eq::<T>(),
    ensures
        r == v@.contains(*x),
{
    proof {
        reveal(obeys_concrete_eq);
    }
    let mut j: usize = 0;
    while j < v.len()
        invariant
            j <= v@.len(),
            obeys_concrete_eq::<T>(),
            forall|k: int| 0 <= k < j ==> v@[k] != *x,
        decreases v@.len() - j,
    {
        proof {
            reveal(obeys_concrete_eq);
        }
        if v[j] == *x {
            return true;
        }
        j = j + 1;
    }
    false
}

/// The distinct elements of `list`, each where it first occurs.
pub fn unique_elements_vector<T: PartialEq>(list: Vec<T>) -> (r: Vec<T>)
    requires
        obeys_concrete_eq::<T>(),
    ensures
        r@ == first_occurrences(list@),
{
    let ghost input = list@;
    let mut unique_list: Vec<T> = Vec::new();
    for item in it: list
        invariant
            it.seq() == input,
            obeys_concrete_eq::<T>(),
            unique_list@ == first_occurrences(input.take(it.index())),
    {
        proof {
            assert(input.take(it.index() + 1).drop_last() == input.take(it.index()));
        }
        if !vec_contains(&unique_list, &item) {
            unique_list.push(item);
        }
    }
    assert(input.take(input.len() as int) == input);
    unique_list
}

} // verus!
