use vstd::prelude::*;
use vstd::std_specs::iter::IteratorSpec;

use crate::buffer::{
    buffer_as_slice, buffer_clone, buffer_from_vec, buffer_get_mut, buffer_insert, buffer_items,
    buffer_len, buffer_new, buffer_pop, buffer_push, buffer_remove, lemma_models_push, models, Buffer,
};
use crate::error::ArrayError;
use crate::value::{comparable, kind_of, lemma_order, model_le, Model, Value};

verus! {

/// Resolves a signed index against a length: a non-negative index stands for
/// itself, a negative one counts back from the end.
pub open spec fn resolve(len: int, index: int) -> Option<int> {
    if index >= 0 {
        Some(index)
    } else if len + index >= 0 {
        Some(len + index)
    } else {
        None
    }
}

/// The offset of an existing element that `index` names.
pub open spec fn element_at(len: int, index: int) -> Option<int> {
    match resolve(len, index) {
        Some(i) => if i < len { Some(i) } else { None },
        None => None,
    }
}

/// The boundary position (element or one past the end) that `index` names.
pub open spec fn boundary_at(len: int, index: int) -> Option<int> {
    match resolve(len, index) {
        Some(i) => if i <= len { Some(i) } else { None },
        None => None,
    }
}

/// The out-of-bounds error for `index` on an array of this length.
pub open spec fn out_of_bounds(index: i64, len: int) -> ArrayError {
    ArrayError::OutOfBounds { index, len: len as i64 }
}

/// Every two distinct elements can be ordered against each other.
pub open spec fn all_comparable(s: Seq<Model>) -> bool {
    forall|i: int, j: int|
        0 <= i < s.len() && 0 <= j < s.len() && i != j ==> comparable(s[i], s[j])
}

/// The elements are in ascending order.
pub open spec fn ascending(s: Seq<Model>) -> bool {
    forall|i: int, j: int| 0 <= i < j < s.len() ==> model_le(s[i], s[j])
}

/// The elements of `s` repeated in order and cut off after `count` elements.
pub open spec fn cycled(s: Seq<Model>, count: int) -> Seq<Model> {
    Seq::new(count as nat, |k: int| s[k % (s.len() as int)])
}

/// The elements of the first `k` elements of `s`, with every nested array,
/// at any depth, replaced by its own elements.
pub open spec fn flat_upto(s: Seq<Model>, k: int) -> Seq<Model>
    decreases s, k,
    via flat_upto_decreases
{
    if k <= 0 || k > s.len() {
        Seq::empty()
    } else {
        flat_upto(s, k - 1) + match s[k - 1] {
            Model::Array(t) => flat_upto(t, t.len() as int),
            m => seq![m],
        }
    }
}

#[via_fn]
proof fn flat_upto_decreases(s: Seq<Model>, k: int) {
    if 0 < k <= s.len() {
        let m = s[k - 1];
        if m is Array {
            assert(decreases_to!(s => s[k - 1]));
            assert(decreases_to!(m => m->Array_0));
        }
    }
}

/// The elements of `s` with every nested array, at any depth, replaced by
/// its own elements.
pub open spec fn flat(s: Seq<Model>) -> Seq<Model> {
    flat_upto(s, s.len() as int)
}

/// Inserting into a sequence adds one occurrence to its multiset.
proof fn lemma_insert_multiset(s: Seq<Model>, p: int, v: Model)
    requires
        0 <= p <= s.len(),
    ensures
        s.insert(p, v).to_multiset() == s.to_multiset().insert(v),
{
    let a = s.subrange(0, p);
    let b = s.subrange(p, s.len() as int);
    assert(s.insert(p, v) =~= a + (seq![v] + b));
    assert(s =~= a + b);
    vstd::seq_lib::lemma_multiset_commutative(a, seq![v] + b);
    vstd::seq_lib::lemma_multiset_commutative(seq![v], b);
    vstd::seq_lib::lemma_multiset_commutative(a, b);
    assert(seq![v] =~= Seq::<Model>::empty().push(v));
    Seq::<Model>::empty().to_multiset_ensures();
    assert(s.insert(p, v).to_multiset() =~= s.to_multiset().insert(v));
}

/// Inserting a value inserts its model.
proof fn lemma_models_insert(s: Seq<Value>, p: int, v: Value)
    requires
        0 <= p <= s.len(),
    ensures
        models(s.insert(p, v)) == models(s).insert(p, v@),
{
    assert(models(s.insert(p, v)) =~= models(s).insert(p, v@));
}

/// The outcome of slicing `s` from `start` to `end` (the length where none
/// is given): each bound resolved on its own, the end raised to the start.
pub open spec fn slice_of(s: Seq<Model>, start: i64, end: Option<i64>) -> Result<
    Seq<Model>,
    ArrayError,
> {
    let n = s.len() as int;
    let e = match end {
        Some(e) => e,
        None => n as i64,
    };
    match (boundary_at(n, start as int), boundary_at(n, e as int)) {
        (None, _) => Err(out_of_bounds(start, n)),
        (Some(_), None) => Err(out_of_bounds(e, n)),
        (Some(a), Some(b)) => Ok(s.subrange(a, if b < a { a } else { b })),
    }
}

/// A reference-counted array of values with value semantics.
#[derive(Debug)]
pub struct Array {
    buf: Buffer,
}

impl View for Array {
    type V = Seq<Model>;

    closed spec fn view(&self) -> Seq<Model> {
        buffer_items(self.buf)
    }
}

/// Builds an array of clones of `s[lo..hi]`.
fn array_of_range(s: &[Value], lo: usize, hi: usize) -> (r: Array)
    requires
        lo <= hi <= s@.len(),
    ensures
        r@ == models(s@).subrange(lo as int, hi as int),
{
    let mut out: Vec<Value> = Vec::new();
    let mut k: usize = lo;
    while k < hi
        invariant
            lo <= k <= hi <= s@.len(),
            models(out@) == models(s@).subrange(lo as int, k as int),
        decreases hi - k,
    {
        let v = s[k].clone();
        proof {
            lemma_models_push(out@, v);
        }
        out.push(v);
        k = k + 1;
        assert(models(out@) =~= models(s@).subrange(lo as int, k as int));
    }
    Array::from_vec(out)
}

impl Array {
    /// Create a new, empty array.
    pub fn new() -> (r: Array)
        ensures
            r@ == Seq::<Model>::empty(),
    {
        Array { buf: buffer_new() }
    }

    /// Create a new array from a vector of values.
    pub fn from_vec(vec: Vec<Value>) -> (r: Array)
        ensures
            r@ == models(vec@),
    {
        Array { buf: buffer_from_vec(vec) }
    }

    /// The length of the array.
    pub fn len(&self) -> (r: i64)
        ensures
            r == self@.len(),
            r <= isize::MAX,
    {
        buffer_len(&self.buf) as i64
    }

    /// Extract a slice of the whole array.
    pub fn as_slice(&self) -> (r: &[Value])
        ensures
            models(r@) == self@,
    {
        buffer_as_slice(&self.buf)
    }

    /// Iterate over references to the contained values, in order.
    pub fn iter(&self) -> (r: std::slice::Iter<'_, Value>)
        ensures
            models(r.remaining().unref()) == self@,
    {
        let s = self.as_slice();
        let it = s.iter();
        proof {
            vstd::std_specs::slice::axiom_spec_slice_iter(s);
            assert(s@.as_ref().unref() =~= s@);
        }
        it
    }

    /// The first value in the array.
    pub fn first(&self) -> (r: Result<&Value, ArrayError>)
        ensures
            self@.len() == 0 ==> r == Err::<&Value, ArrayError>(ArrayError::Empty),
            self@.len() > 0 ==> r is Ok && r->Ok_0@ == self@[0],
    {
        let s = self.as_slice();
        if s.len() == 0 {
            Err(ArrayError::Empty)
        } else {
            Ok(&s[0])
        }
    }

    /// The last value in the array.
    pub fn last(&self) -> (r: Result<&Value, ArrayError>)
        ensures
            self@.len() == 0 ==> r == Err::<&Value, ArrayError>(ArrayError::Empty),
            self@.len() > 0 ==> r is Ok && r->Ok_0@ == self@.last(),
    {
        let s = self.as_slice();
        if s.len() == 0 {
            Err(ArrayError::Empty)
        } else {
            Ok(&s[s.len() - 1])
        }
    }

    /// Resolve an index to an offset, which may lie past the end.
    fn locate(&self, index: i64) -> (r: Option<i64>)
        ensures
            match resolve(self@.len() as int, index as int) {
                Some(i) => r == Some(i as i64),
                None => r is None,
            },
            r is Some ==> r->Some_0 >= 0,
    {
        let len = self.len();
        if index >= 0 {
            Some(index)
        } else if len + index >= 0 {
            Some(len + index)
        } else {
            None
        }
    }

    /// Borrow the value at the given index.
    pub fn at(&self, index: i64) -> (r: Result<&Value, ArrayError>)
        ensures
            match element_at(self@.len() as int, index as int) {
                Some(i) => r is Ok && r->Ok_0@ == self@[i],
                None => r == Err::<&Value, ArrayError>(out_of_bounds(index, self@.len() as int)),
            },
    {
        let s = self.as_slice();
        match self.locate(index) {
            Some(i) if i < self.len() => Ok(&s[i as usize]),
            _ => Err(ArrayError::OutOfBounds { index, len: self.len() }),
        }
    }

    /// Mutably borrow the first value in the array.
    pub fn first_mut(&mut self) -> (r: Result<&mut Value, ArrayError>)
        ensures
            old(self)@.len() == 0 ==> r is Err && r->Err_0 == ArrayError::Empty && final(self)@
                == old(self)@,
            old(self)@.len() > 0 ==> r is Ok && (*r->Ok_0)@ == old(self)@[0] && final(self)@
                == old(self)@.update(0, (*final(r->Ok_0))@),
    {
        if buffer_len(&self.buf) == 0 {
            Err(ArrayError::Empty)
        } else {
            Ok(buffer_get_mut(&mut self.buf, 0))
        }
    }

    /// Mutably borrow the last value in the array.
    pub fn last_mut(&mut self) -> (r: Result<&mut Value, ArrayError>)
        ensures
            old(self)@.len() == 0 ==> r is Err && r->Err_0 == ArrayError::Empty && final(self)@
                == old(self)@,
            old(self)@.len() > 0 ==> r is Ok && (*r->Ok_0)@ == old(self)@.last() && final(self)@
                == old(self)@.update(old(self)@.len() - 1, (*final(r->Ok_0))@),
    {
        let len = buffer_len(&self.buf);
        if len == 0 {
            Err(ArrayError::Empty)
        } else {
            Ok(buffer_get_mut(&mut self.buf, len - 1))
        }
    }

    /// Mutably borrow the value at the given index.
    pub fn at_mut(&mut self, index: i64) -> (r: Result<&mut Value, ArrayError>)
        ensures
            match element_at(old(self)@.len() as int, index as int) {
                Some(i) => r is Ok && (*r->Ok_0)@ == old(self)@[i] && final(self)@ == old(
                    self,
                )@.update(i, (*final(r->Ok_0))@),
                None => r is Err && r->Err_0 == out_of_bounds(index, old(self)@.len() as int)
                    && final(self)@ == old(self)@,
            },
    {
        let len = self.len();
        let loc = self.locate(index);
        if let Some(i) = loc {
            if i < len {
                return Ok(buffer_get_mut(&mut self.buf, i as usize));
            }
        }
        Err(ArrayError::OutOfBounds { index, len })
    }

    /// Push a value to the end of the array.
    pub fn push(&mut self, value: Value)
        requires
            old(self)@.len() < isize::MAX,
        ensures
            final(self)@ == old(self)@.push(value@),
    {
        buffer_push(&mut self.buf, value)
    }

    /// Remove the last value in the array.
    pub fn pop(&mut self) -> (r: Result<Value, ArrayError>)
        ensures
            old(self)@.len() == 0 ==> r is Err && r->Err_0 == ArrayError::Empty && final(self)@
                == old(self)@,
            old(self)@.len() > 0 ==> r is Ok && r->Ok_0@ == old(self)@.last() && final(self)@
                == old(self)@.drop_last(),
    {
        match buffer_pop(&mut self.buf) {
            Some(v) => Ok(v),
            None => Err(ArrayError::Empty),
        }
    }

    /// Insert a value at the specified index.
    pub fn insert(&mut self, index: i64, value: Value) -> (r: Result<(), ArrayError>)
        requires
            old(self)@.len() < isize::MAX,
        ensures
            match boundary_at(old(self)@.len() as int, index as int) {
                Some(i) => r is Ok && final(self)@ == old(self)@.insert(i, value@),
                None => r is Err && r->Err_0 == out_of_bounds(index, old(self)@.len() as int)
                    && final(self)@ == old(self)@,
            },
    {
        let len = self.len();
        let loc = self.locate(index);
        if let Some(i) = loc {
            if i <= len {
                buffer_insert(&mut self.buf, i as usize, value);
                return Ok(());
            }
        }
        Err(ArrayError::OutOfBounds { index, len })
    }

    /// Remove and return the value at the specified index.
    pub fn remove(&mut self, index: i64) -> (r: Result<Value, ArrayError>)
        ensures
            match element_at(old(self)@.len() as int, index as int) {
                Some(i) => r is Ok && r->Ok_0@ == old(self)@[i] && final(self)@ == old(
                    self,
                )@.remove(i),
                None => r is Err && r->Err_0 == out_of_bounds(index, old(self)@.len() as int)
                    && final(self)@ == old(self)@,
            },
    {
        let len = self.len();
        let loc = self.locate(index);
        if let Some(i) = loc {
            if i < len {
                return Ok(buffer_remove(&mut self.buf, i as usize));
            }
        }
        Err(ArrayError::OutOfBounds { index, len })
    }

    /// Extract a contiguous subregion of the array. The end defaults to the
    /// length; an end before the start gives an empty array.
    pub fn slice(&self, start: i64, end: Option<i64>) -> (r: Result<Array, ArrayError>)
        ensures
            match slice_of(self@, start, end) {
                Ok(t) => r is Ok && r->Ok_0@ == t,
                Err(e) => r is Err && r->Err_0 == e,
            },
    {
        let len = self.len();
        let lo = match self.locate(start) {
            Some(i) if i <= len => i,
            _ => {
                return Err(ArrayError::OutOfBounds { index: start, len });
            },
        };
        let end = match end {
            Some(e) => e,
            None => len,
        };
        let hi = match self.locate(end) {
            Some(i) if i <= len => i,
            _ => {
                return Err(ArrayError::OutOfBounds { index: end, len });
            },
        };
        let hi = if hi < lo { lo } else { hi };
        let s = self.as_slice();
        assert(models(s@).len() == s@.len());
        Ok(array_of_range(s, lo as usize, hi as usize))
    }

    /// Returns a new array with reversed order.
    pub fn rev(&self) -> (r: Array)
        ensures
            r@ == self@.reverse(),
    {
        let s = self.as_slice();
        let n = s.len();
        let mut out: Vec<Value> = Vec::new();
        let mut k: usize = 0;
        while k < n
            invariant
                n == s@.len(),
                models(s@) == self@,
                k <= n,
                models(out@) == self@.reverse().subrange(0, k as int),
            decreases n - k,
        {
            let v = s[n - 1 - k].clone();
            proof {
                lemma_models_push(out@, v);
            }
            out.push(v);
            k = k + 1;
            assert(models(out@) =~= self@.reverse().subrange(0, k as int));
        }
        assert(self@.reverse().subrange(0, n as int) =~= self@.reverse());
        Array::from_vec(out)
    }

    /// Repeat this array `n` times: its elements cycled to `n` times its length.
    pub fn repeat(&self, n: i64) -> (r: Result<Array, ArrayError>)
        ensures
            n < 0 || self@.len() * n > usize::MAX ==> r == Err::<Array, ArrayError>(
                ArrayError::CannotRepeat(n),
            ),
            0 <= n && self@.len() * n <= usize::MAX ==> r is Ok && r->Ok_0@ == cycled(
                self@,
                self@.len() * n,
            ),
    {
        let s = self.as_slice();
        if n < 0 {
            return Err(ArrayError::CannotRepeat(n));
        }
        assert(models(s@).len() == s@.len());
        let a = s.len() as u128;
        let b = n as u128;
        assert(a * b <= 0xffff_ffff_ffff_ffff_ffff_ffff_ffff_ffff) by (nonlinear_arith)
            requires
                a <= 0xffff_ffff_ffff_ffff,
                b <= 0x7fff_ffff_ffff_ffff,
        ;
        let total: u128 = a * b;
        if total > usize::MAX as u128 {
            return Err(ArrayError::CannotRepeat(n));
        }
        let count = total as usize;
        let mut out: Vec<Value> = Vec::new();
        let mut k: usize = 0;
        while k < count
            invariant
                models(s@) == self@,
                count == self@.len() * n,
                k <= count,
                models(out@).len() == k,
                forall|j: int|
                    0 <= j < k ==> self@.len() > 0 && #[trigger] models(out@)[j] == self@[j % (
                    self@.len() as int)],
            decreases count - k,
        {
            assert(s.len() > 0) by (nonlinear_arith)
                requires
                    count == s@.len() * n,
                    k < count,
            ;
            let v = s[k % s.len()].clone();
            proof {
                lemma_models_push(out@, v);
            }
            out.push(v);
            k = k + 1;
        }
        assert(models(out@) =~= cycled(self@, count as int));
        Ok(Array::from_vec(out))
    }

    /// Return a sorted version of this array. Fails, naming the two kinds,
    /// where two elements cannot be ordered against each other (see
    /// [`comparable`]).
    pub fn sorted(&self) -> (r: Result<Array, ArrayError>)
        ensures
            all_comparable(self@) ==> r is Ok && ascending(r->Ok_0@) && r->Ok_0@.to_multiset()
                == self@.to_multiset(),
            !all_comparable(self@) ==> r is Err && exists|i: int, j: int|
                0 <= i < self@.len() && 0 <= j < self@.len() && i != j && !comparable(
                    self@[i],
                    self@[j],
                ) && r->Err_0 == ArrayError::CannotOrder(kind_of(self@[i]), kind_of(self@[j])),
    {
        let s = self.as_slice();
        let n = s.len();
        assert(models(s@).len() == s@.len());
        let mut k: usize = 1;
        while k < n
            invariant
                models(s@) == self@,
                n == s@.len(),
                1 <= k,
                forall|j: int| 0 < j < k && j < n ==> comparable(self@[0], self@[j]),
            decreases n - k,
        {
            if !s[0].is_comparable(&s[k]) {
                assert(!comparable(self@[0], self@[k as int]));
                return Err(ArrayError::CannotOrder(s[0].kind(), s[k].kind()));
            }
            k = k + 1;
        }
        assert(all_comparable(self@)) by {
            assert forall|i: int, j: int|
                0 <= i < self@.len() && 0 <= j < self@.len() && i != j implies comparable(
                self@[i],
                self@[j],
            ) by {
                assert(comparable(self@[0], self@[i]) || i == 0);
                assert(comparable(self@[0], self@[j]) || j == 0);
            }
        }
        let mut out: Vec<Value> = Vec::new();
        let mut k: usize = 0;
        assert(models(out@) =~= Seq::<Model>::empty());
        assert(self@.subrange(0, 0) =~= Seq::<Model>::empty());
        while k < n
            invariant
                models(s@) == self@,
                n == s@.len(),
                k <= n,
                out@.len() == k,
                all_comparable(self@),
                ascending(models(out@)),
                models(out@).to_multiset() == self@.subrange(0, k as int).to_multiset(),
                forall|q: int| 0 <= q < out@.len() ==> #[trigger] out@[q]@ == self@[0] || comparable(
                    out@[q]@,
                    self@[0],
                ),
            decreases n - k,
        {
            let x = s[k].clone();
            let mut p: usize = 0;
            while p < out.len()
                invariant
                    p <= out@.len(),
                    out@.len() == k,
                    ascending(models(out@)),
                    x@ == self@[k as int],
                    k < n,
                    all_comparable(self@),
                    models(s@) == self@,
                    n == s@.len(),
                    forall|q: int| 0 <= q < out@.len() ==> #[trigger] out@[q]@ == self@[0] || comparable(
                        out@[q]@,
                        self@[0],
                    ),
                    forall|q: int| 0 <= q < p ==> model_le(#[trigger] out@[q]@, x@),
                ensures
                    p <= out@.len(),
                    forall|q: int| 0 <= q < p ==> model_le(#[trigger] out@[q]@, x@),
                    p < out@.len() ==> !model_le(out@[p as int]@, x@) && comparable(
                        out@[p as int]@,
                        x@,
                    ),
                decreases out@.len() - p,
            {
                assert(comparable(out@[p as int]@, x@)) by {
                    if k != 0 {
                        assert(comparable(self@[0], self@[k as int]));
                    }
                }
                if out[p].is_after(&x) {
                    break;
                }
                p = p + 1;
            }
            proof {
                let om = models(out@);
                let ins = om.insert(p as int, x@);
                assert forall|i: int, j: int| 0 <= i < j < ins.len() implies model_le(
                    ins[i],
                    ins[j],
                ) by {
                    if k != 0 {
                        assert(comparable(self@[0], self@[k as int]));
                    }
                    if i < p && j == p {
                        assert(out@[i]@ == om[i]);
                    }
                    if j > p {
                        assert(out@[j - 1]@ == om[j - 1]);
                        assert(out@[j - 1]@ == self@[0] || comparable(out@[j - 1]@, self@[0]));
                    }
                    if i == p && j > p {
                        lemma_order(om[p as int], x@, x@);
                        lemma_order(x@, om[p as int], om[j - 1]);
                        if j > p + 1 {
                            assert(model_le(om[p as int], om[j - 1]));
                        }
                    }
                }
                lemma_models_insert(out@, p as int, x);
                lemma_insert_multiset(models(out@), p as int, x@);
                assert(self@.subrange(0, k + 1) =~= self@.subrange(0, k as int).push(self@[k as int]));
                self@.subrange(0, k as int).to_multiset_ensures();
            }
            out.insert(p, x);
            k = k + 1;
        }
        assert(self@.subrange(0, n as int) =~= self@);
        Ok(Array::from_vec(out))
    }

    /// Return a new array with all items from this and nested arrays.
    pub fn flatten(&self) -> (r: Array)
        ensures
            r@ == flat(self@),
        decreases self@,
    {
        let s = self.as_slice();
        let n = s.len();
        assert(models(s@).len() == s@.len());
        let mut out: Vec<Value> = Vec::new();
        let mut k: usize = 0;
        while k < n
            invariant
                models(s@) == self@,
                n == s@.len(),
                k <= n,
                models(out@) == flat_upto(self@, k as int),
            decreases n - k,
        {
            assert(s@[k as int]@ == self@[k as int]);
            match &s[k] {
                Value::Array(nested) => {
                    proof {
                        let m = self@[k as int];
                        assert(decreases_to!(self@ => self@[k as int]));
                        assert(decreases_to!(m => m->Array_0));
                    }
                    let inner = nested.flatten();
                    let t = inner.as_slice();
                    assert(models(t@).len() == t@.len());
                    let mut j: usize = 0;
                    while j < t.len()
                        invariant
                            j <= t@.len(),
                            models(out@) == flat_upto(self@, k as int) + models(t@).subrange(
                                0,
                                j as int,
                            ),
                        decreases t@.len() - j,
                    {
                        let v = t[j].clone();
                        proof {
                            lemma_models_push(out@, v);
                        }
                        out.push(v);
                        j = j + 1;
                        assert(models(out@) =~= flat_upto(self@, k as int) + models(t@).subrange(
                            0,
                            j as int,
                        ));
                    }
                    assert(models(t@).subrange(0, j as int) =~= models(t@));
                },
                other => {
                    let v = other.clone();
                    proof {
                        lemma_models_push(out@, v);
                    }
                    out.push(v);
                },
            }
            k = k + 1;
        }
        Array::from_vec(out)
    }

    /// Whether the array holds a value equal to `value`.
    pub fn contains(&self, value: &Value) -> (r: bool)
        ensures
            r == self@.contains(value@),
    {
        let s = self.as_slice();
        let mut k: usize = 0;
        while k < s.len()
            invariant
                models(s@) == self@,
                k <= s@.len(),
                forall|j: int| 0 <= j < k ==> self@[j] != value@,
            decreases s@.len() - k,
        {
            if s[k].equals(value) {
                assert(self@[k as int] == value@);
                return true;
            }
            k = k + 1;
        }
        false
    }

    /// Structural equality of two arrays.
    pub fn equals(&self, other: &Array) -> (r: bool)
        ensures
            r == (self@ == other@),
    {
        let s = self.as_slice();
        let t = other.as_slice();
        if s.len() != t.len() {
            assert(self@.len() != other@.len());
            return false;
        }
        let mut k: usize = 0;
        while k < s.len()
            invariant
                models(s@) == self@,
                models(t@) == other@,
                s@.len() == t@.len(),
                k <= s@.len(),
                forall|j: int| 0 <= j < k ==> self@[j] == other@[j],
            decreases s@.len() - k,
        {
            assert(s@[k as int]@ == self@[k as int]);
            if !s[k].equals(&t[k]) {
                return false;
            }
            k = k + 1;
        }
        assert(self@ =~= other@);
        true
    }
}

impl Array {
    /// Append the elements of `rhs`, in order.
    pub fn append(&mut self, rhs: Array)
        requires
            old(self)@.len() + rhs@.len() <= isize::MAX,
        ensures
            final(self)@ == old(self)@ + rhs@,
    {
        let t = rhs.as_slice();
        let mut k: usize = 0;
        assert(models(t@).len() == t@.len());
        assert(self@ =~= old(self)@ + rhs@.subrange(0, 0));
        while k < t.len()
            invariant
                models(t@) == rhs@,
                k <= t@.len(),
                old(self)@.len() + rhs@.len() <= isize::MAX,
                self@ == old(self)@ + rhs@.subrange(0, k as int),
            decreases t@.len() - k,
        {
            let v = t[k].clone();
            self.push(v);
            k = k + 1;
            assert(self@ =~= old(self)@ + rhs@.subrange(0, k as int));
        }
        assert(rhs@.subrange(0, k as int) =~= rhs@);
    }
}

impl PartialEq for Array {
    fn eq(&self, other: &Array) -> (r: bool) {
        self.equals(other)
    }
}

impl vstd::std_specs::cmp::PartialEqSpecImpl for Array {
    open spec fn obeys_eq_spec() -> bool {
        true
    }

    open spec fn eq_spec(&self, other: &Array) -> bool {
        self@ == other@
    }
}

impl Clone for Array {
    fn clone(&self) -> (r: Array)
        ensures
            r@ == self@,
    {
        Array { buf: buffer_clone(&self.buf) }
    }
}

} // verus!
