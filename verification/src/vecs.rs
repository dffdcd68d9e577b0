//! How the deep view of a vector follows its contents.

use vstd::prelude::*;

verus! {

/// Pushing an element pushes its deep view.
pub proof fn lemma_deep_view_push<T: DeepView>(before: Vec<T>, after: Vec<T>, last: T)
    requires
        after@ == before@.push(last),
    ensures
        after.deep_view() == before.deep_view().push(last.deep_view()),
{
}

/// The deep view of a vector has the vector's length and holds, at each
/// index, the deep view of the element there.
pub proof fn lemma_deep_view_index<T: DeepView>(v: Vec<T>)
    ensures
        v.deep_view().len() == v@.len(),
        forall|j: int| 0 <= j < v@.len() ==> v.deep_view()[j] == (#[trigger] v@[j]).deep_view(),
{
}

/// Taking the last element from a vector takes the last deep view.
pub proof fn lemma_deep_view_pop<T: DeepView>(before: Vec<T>, after: Vec<T>)
    requires
        before@.len() > 0,
        after@ == before@.subrange(0, before@.len() - 1),
    ensures
        after.deep_view() == before.deep_view().drop_last(),
        before.deep_view().last() == before@.last().deep_view(),
{
}

} // verus!
