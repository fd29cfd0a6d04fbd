use vstd::prelude::*;
use vstd::std_specs::cmp::PartialEqSpec;

verus! {

/// Left-to-right linear scan: the index of the first element of `data_set`
/// that compares equal to `ele`, or `None` when no element does.
///
/// The result is pinned down whenever `E`'s equality obeys its specification
/// (as it does for the primitive types); for an arbitrary `PartialEq` the
/// scan still returns whatever index its `==` first accepted.
pub fn search<E: PartialEq>(data_set: &[E], ele: &E) -> (r: Option<usize>)
    ensures
        E::obeys_eq_spec() ==> match r {
            Some(i) => {
                &&& i < data_set@.len()
                &&& data_set@[i as int].eq_spec(ele)
                &&& forall|j: int| 0 <= j < i ==> !data_set@[j].eq_spec(ele)
            },
            None => forall|j: int| 0 <= j < data_set@.len() ==> !data_set@[j].eq_spec(ele),
        },
{
    let n: usize = data_set.len();
    let mut index: usize = 0;
    while index < n
        invariant
            index <= n,
            n == data_set@.len(),
            E::obeys_eq_spec() ==> forall|j: int| 0 <= j < index ==> !data_set@[j].eq_spec(ele),
        decreases n - index,
    {
        if data_set[index] == *ele {
            return Some(index);
        }
        index += 1;
    }
    None
}

} // verus!
