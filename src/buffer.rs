use vstd::prelude::*;

use ecow::EcoVec;

use crate::value::{Model, Value};

verus! {

/// The models of a sequence of values.
pub open spec fn models(s: Seq<Value>) -> Seq<Model> {
    s.map_values(|v: Value| v@)
}

/// Appending a value appends its model.
pub proof fn lemma_models_push(s: Seq<Value>, v: Value)
    ensures
        models(s.push(v)) == models(s).push(v@),
{
    assert(models(s.push(v)) =~= models(s).push(v@));
}

/// Reference-counted, copy-on-write storage for an array's elements.
#[derive(Debug)]
#[verifier::external_body]
pub struct Buffer {
    vec: EcoVec<Value>,
}

/// The models of the values that a buffer holds, in order.
pub uninterp spec fn buffer_items(b: Buffer) -> Seq<Model>;

/// Relies on `EcoVec::new`: an empty vector.
#[verifier::external_body]
pub(crate) fn buffer_new() -> (r: Buffer)
    ensures
        buffer_items(r) == Seq::<Model>::empty(),
{
    Buffer { vec: EcoVec::new() }
}

/// Relies on `EcoVec::from(Vec<T>)`: the same elements in the same order.
#[verifier::external_body]
pub(crate) fn buffer_from_vec(v: Vec<Value>) -> (r: Buffer)
    ensures
        buffer_items(r) == models(v@),
{
    Buffer { vec: EcoVec::from(v) }
}

/// Relies on `EcoVec::clone`: a second owner of the same elements.
#[verifier::external_body]
pub(crate) fn buffer_clone(b: &Buffer) -> (r: Buffer)
    ensures
        buffer_items(r) == buffer_items(*b),
{
    Buffer { vec: b.vec.clone() }
}

/// Relies on `EcoVec::len`: the number of elements, which the vector keeps
/// at most its capacity, and that at most `isize::MAX`.
#[verifier::external_body]
pub(crate) fn buffer_len(b: &Buffer) -> (r: usize)
    ensures
        r == buffer_items(*b).len(),
        r <= isize::MAX,
{
    b.vec.len()
}

/// Relies on `EcoVec::as_slice`: the elements, in order.
#[verifier::external_body]
pub(crate) fn buffer_as_slice(b: &Buffer) -> (r: &[Value])
    ensures
        models(r@) == buffer_items(*b),
{
    b.vec.as_slice()
}

/// Relies on `EcoVec::push`: appends one element. It panics where the
/// capacity would pass `isize::MAX`.
#[verifier::external_body]
pub(crate) fn buffer_push(b: &mut Buffer, v: Value)
    requires
        buffer_items(*old(b)).len() < isize::MAX,
    ensures
        buffer_items(*final(b)) == buffer_items(*old(b)).push(v@),
{
    b.vec.push(v)
}

/// Relies on `EcoVec::pop`: removes and returns the last element, if any.
#[verifier::external_body]
pub(crate) fn buffer_pop(b: &mut Buffer) -> (r: Option<Value>)
    ensures
        buffer_items(*old(b)).len() == 0 ==> r is None && buffer_items(*final(b))
            == buffer_items(*old(b)),
        buffer_items(*old(b)).len() > 0 ==> r is Some && r->Some_0@ == buffer_items(
            *old(b),
        ).last() && buffer_items(*final(b)) == buffer_items(*old(b)).drop_last(),
{
    b.vec.pop()
}

/// Relies on `EcoVec::insert`: shifts the elements from `i` on to the right.
/// It panics where `i > len`, or where the capacity would pass `isize::MAX`.
#[verifier::external_body]
pub(crate) fn buffer_insert(b: &mut Buffer, i: usize, v: Value)
    requires
        i <= buffer_items(*old(b)).len(),
        buffer_items(*old(b)).len() < isize::MAX,
    ensures
        buffer_items(*final(b)) == buffer_items(*old(b)).insert(i as int, v@),
{
    b.vec.insert(i, v)
}

/// Relies on `EcoVec::remove`: takes out the element at `i`.
/// It panics where `i >= len`.
#[verifier::external_body]
pub(crate) fn buffer_remove(b: &mut Buffer, i: usize) -> (r: Value)
    requires
        i < buffer_items(*old(b)).len(),
    ensures
        r@ == buffer_items(*old(b))[i as int],
        buffer_items(*final(b)) == buffer_items(*old(b)).remove(i as int),
{
    b.vec.remove(i)
}

/// Relies on `EcoVec::make_mut`: a private copy of the elements, borrowed
/// mutably; here the element at `i` of it.
#[verifier::external_body]
pub(crate) fn buffer_get_mut(b: &mut Buffer, i: usize) -> (r: &mut Value)
    requires
        i < buffer_items(*old(b)).len(),
    ensures
        (*r)@ == buffer_items(*old(b))[i as int],
        buffer_items(*final(b)) == buffer_items(*old(b)).update(i as int, (*final(r))@),
{
    &mut b.vec.make_mut()[i]
}

} // verus!
