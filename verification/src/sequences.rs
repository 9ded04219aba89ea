//! Element-wise relations and copies of sequences.
use vstd::prelude::*;
use crate::syntax::witness;

verus! {

/// Whether transforming `elements` in order, each as `element` relates it to
/// its result, yields `result`; the first error stops the transformation.
pub open spec fn sequence_transformed<T, E>(
    element: spec_fn(T, Result<T, E>) -> bool,
    elements: Seq<T>,
    result: Result<Seq<T>, E>,
) -> bool
    decreases elements.len(),
{
    if elements.len() == 0 {
        result == Ok::<Seq<T>, E>(seq![])
    } else {
        exists|init: Result<Seq<T>, E>|
            #[trigger] witness(init) && sequence_transformed(element, elements.drop_last(), init)
                && (init is Err ==> result == Err::<Seq<T>, E>(init->Err_0)) && (init is Ok
                ==> exists|last: Result<T, E>|
                #[trigger] witness(last) && element(elements.last(), last) && (last is Err
                    ==> result == Err::<Seq<T>, E>(last->Err_0)) && (last is Ok ==> result == Ok::<
                    Seq<T>,
                    E,
                >(init->Ok_0.push(last->Ok_0))))
    }
}

/// Extends a relation over a prefix to the next element.
pub proof fn lemma_sequence_step<T, E>(
    element: spec_fn(T, Result<T, E>) -> bool,
    elements: Seq<T>,
    k: int,
    done: Seq<T>,
    next: Result<T, E>,
)
    requires
        0 <= k < elements.len(),
        sequence_transformed(element, elements.take(k), Ok(done)),
        element(elements[k], next),
    ensures
        next is Ok ==> sequence_transformed(
            element,
            elements.take(k + 1),
            Ok(done.push(next->Ok_0)),
        ),
        next is Err ==> sequence_transformed(element, elements, Err(next->Err_0)),
{
    let prefix = elements.take(k + 1);
    assert(prefix.drop_last() =~= elements.take(k));
    assert(witness(Ok::<Seq<T>, E>(done)));
    assert(witness(next));
    if next is Err {
        assert(sequence_transformed(element, prefix, Err(next->Err_0)));
        lemma_sequence_error_extends(element, elements, k + 1, next->Err_0);
    }
}

/// An error on a prefix is the error of the whole sequence.
pub proof fn lemma_sequence_error_extends<T, E>(
    element: spec_fn(T, Result<T, E>) -> bool,
    elements: Seq<T>,
    k: int,
    error: E,
)
    requires
        0 <= k <= elements.len(),
        sequence_transformed(element, elements.take(k), Err(error)),
    ensures
        sequence_transformed(element, elements, Err(error)),
    decreases elements.len() - k,
{
    if k < elements.len() {
        let next = elements.take(k + 1);
        assert(next.drop_last() =~= elements.take(k));
        assert(witness(Err::<Seq<T>, E>(error)));
        assert(sequence_transformed(element, next, Err(error)));
        lemma_sequence_error_extends(element, elements, k + 1, error);
    } else {
        assert(elements.take(k) =~= elements);
    }
}

/// Transforming a sequence with an element relation that keeps every
/// element, up to its view, keeps the sequence and never fails.
pub proof fn lemma_sequence_transformed_keeps<T: View, E>(
    element: spec_fn(T, Result<T, E>) -> bool,
    elements: Seq<T>,
    result: Result<Seq<T>, E>,
)
    requires
        forall|x: T, r: Result<T, E>| #[trigger] element(x, r) ==> r is Ok && r->Ok_0@ == x@,
        sequence_transformed(element, elements, result),
    ensures
        result is Ok,
        views(result->Ok_0) == views(elements),
    decreases elements.len(),
{
    if elements.len() == 0 {
        assert(views(result->Ok_0) =~= views(elements));
    } else {
        let init = choose|init: Result<Seq<T>, E>|
            #[trigger] witness(init) && sequence_transformed(element, elements.drop_last(), init)
                && (init is Err ==> result == Err::<Seq<T>, E>(init->Err_0)) && (init is Ok
                ==> exists|last: Result<T, E>|
                #[trigger] witness(last) && element(elements.last(), last) && (last is Err
                    ==> result == Err::<Seq<T>, E>(last->Err_0)) && (last is Ok ==> result == Ok::<
                    Seq<T>,
                    E,
                >(init->Ok_0.push(last->Ok_0))));
        lemma_sequence_transformed_keeps(element, elements.drop_last(), init);
        let last = choose|last: Result<T, E>|
            #[trigger] witness(last) && element(elements.last(), last) && (last is Err
                ==> result == Err::<Seq<T>, E>(last->Err_0)) && (last is Ok ==> result == Ok::<
                Seq<T>,
                E,
            >(init->Ok_0.push(last->Ok_0)));
        assert(views(result->Ok_0) =~= views(elements)) by {
            assert(views(init->Ok_0).len() == views(elements.drop_last()).len());
            assert forall|i: int| 0 <= i < elements.len() implies #[trigger] views(result->Ok_0)[i]
                == views(elements)[i] by {
                if i < elements.len() - 1 {
                    assert(views(init->Ok_0)[i] == views(elements.drop_last())[i]);
                }
            }
        }
    }
}

/// The views of a sequence's elements.
pub open spec fn views<T: View>(elements: Seq<T>) -> Seq<T::V> {
    elements.map_values(|element: T| element@)
}

/// A copy of `elements`, element by element.
pub fn copy_all<T: Clone + View>(elements: &Vec<T>) -> (copy: Vec<T>)
    requires
        forall|a: T, b: T| #[trigger] cloned::<T>(a, b) ==> a@ == b@,
    ensures
        views(copy@) == views(elements@),
{
    let mut copy: Vec<T> = Vec::new();
    let mut i: usize = 0;
    while i < elements.len()
        invariant
            i <= elements@.len(),
            copy@.len() == i,
            forall|a: T, b: T| #[trigger] cloned::<T>(a, b) ==> a@ == b@,
            forall|j: int| 0 <= j < i ==> #[trigger] copy@[j]@ == elements@[j]@,
        decreases elements@.len() - i,
    {
        let element = elements[i].clone();
        assert(cloned::<T>(elements@[i as int], element));
        copy.push(element);
        i = i + 1;
    }
    assert(views(copy@) =~= views(elements@));
    copy
}

} // verus!
