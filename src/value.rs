use vstd::prelude::*;
use vstd::string::StrSliceExecFns;

use crate::array::Array;
use crate::buffer::models;
use crate::error::Kind;

verus! {

/// A dynamically typed runtime value.
#[derive(Debug)]
pub enum Value {
    Absent,
    Bool(bool),
    Int(i64),
    Str(String),
    Array(Array),
}

/// The mathematical content of a [`Value`].
pub enum Model {
    Absent,
    Bool(bool),
    Int(int),
    Str(Seq<char>),
    Array(Seq<Model>),
}

impl View for Value {
    type V = Model;

    open spec fn view(&self) -> Model {
        match self {
            Value::Absent => Model::Absent,
            Value::Bool(b) => Model::Bool(*b),
            Value::Int(i) => Model::Int(*i as int),
            Value::Str(s) => Model::Str(s@),
            Value::Array(a) => Model::Array(a@),
        }
    }
}

/// The kind of a value, from its model.
pub open spec fn kind_of(m: Model) -> Kind {
    match m {
        Model::Absent => Kind::Absent,
        Model::Bool(_) => Kind::Bool,
        Model::Int(_) => Kind::Int,
        Model::Str(_) => Kind::Str,
        Model::Array(_) => Kind::Array,
    }
}

/// Whether two values can be ordered against each other: they are of one
/// kind, and that kind is none, boolean, integer or string.
pub open spec fn comparable(a: Model, b: Model) -> bool {
    match (a, b) {
        (Model::Absent, Model::Absent) => true,
        (Model::Bool(_), Model::Bool(_)) => true,
        (Model::Int(_), Model::Int(_)) => true,
        (Model::Str(_), Model::Str(_)) => true,
        _ => false,
    }
}

/// `a` is ordered at or before `b`: lexicographically, by character code.
pub open spec fn text_le(a: Seq<char>, b: Seq<char>) -> bool
    decreases a.len(),
{
    if a.len() == 0 {
        true
    } else if b.len() == 0 {
        false
    } else if a[0] != b[0] {
        a[0] < b[0]
    } else {
        text_le(a.drop_first(), b.drop_first())
    }
}

/// The text order is total, transitive and antisymmetric.
proof fn lemma_text_order(a: Seq<char>, b: Seq<char>, c: Seq<char>)
    ensures
        text_le(a, b) || text_le(b, a),
        text_le(a, b) && text_le(b, c) ==> text_le(a, c),
        text_le(a, b) && text_le(b, a) ==> a == b,
    decreases a.len(),
{
    if a.len() > 0 && b.len() > 0 && c.len() > 0 {
        lemma_text_order(a.drop_first(), b.drop_first(), c.drop_first());
    }
    if a.len() > 0 && b.len() > 0 {
        lemma_text_order(a.drop_first(), b.drop_first(), b.drop_first());
        if text_le(a, b) && text_le(b, a) {
            assert(a[0] == b[0]);
            assert(a =~= seq![a[0]] + a.drop_first());
            assert(b =~= seq![b[0]] + b.drop_first());
        }
    }
    if a.len() == 0 && b.len() == 0 {
        assert(a =~= b);
    }
}

/// The order of comparable values is total, transitive and antisymmetric.
pub proof fn lemma_order(a: Model, b: Model, c: Model)
    requires
        comparable(a, b),
        comparable(b, c),
    ensures
        model_le(a, b) || model_le(b, a),
        model_le(a, b) && model_le(b, c) ==> model_le(a, c),
        model_le(a, b) && model_le(b, a) ==> a == b,
{
    if let (Model::Str(x), Model::Str(y), Model::Str(z)) = (a, b, c) {
        lemma_text_order(x, y, z);
    }
}

/// `a` is ordered at or before `b` (for comparable values).
pub open spec fn model_le(a: Model, b: Model) -> bool {
    match (a, b) {
        (Model::Bool(x), Model::Bool(y)) => !x || y,
        (Model::Int(x), Model::Int(y)) => x <= y,
        (Model::Str(x), Model::Str(y)) => text_le(x, y),
        _ => true,
    }
}

/// Whether `a` is ordered strictly after `b`.
fn text_after(a: &str, b: &str) -> (r: bool)
    ensures
        r == !text_le(a@, b@),
{
    let n = a.unicode_len();
    let m = b.unicode_len();
    let mut i: usize = 0;
    assert(a@.skip(0) =~= a@ && b@.skip(0) =~= b@);
    while i < n && i < m
        invariant
            n == a@.len(),
            m == b@.len(),
            i <= n,
            i <= m,
            text_le(a@, b@) == text_le(a@.skip(i as int), b@.skip(i as int)),
        decreases n - i,
    {
        let x = a.get_char(i);
        let y = b.get_char(i);
        assert(a@.skip(i as int)[0] == x && b@.skip(i as int)[0] == y);
        if x != y {
            return x > y;
        }
        assert(a@.skip(i as int).drop_first() =~= a@.skip(i + 1));
        assert(b@.skip(i as int).drop_first() =~= b@.skip(i + 1));
        i = i + 1;
    }
    assert(a@.skip(i as int).len() == 0 || b@.skip(i as int).len() == 0);
    i < n
}

impl Value {
    /// The kind of this value.
    pub fn kind(&self) -> (r: Kind)
        ensures
            r == kind_of(self@),
    {
        match self {
            Value::Absent => Kind::Absent,
            Value::Bool(_) => Kind::Bool,
            Value::Int(_) => Kind::Int,
            Value::Str(_) => Kind::Str,
            Value::Array(_) => Kind::Array,
        }
    }

    /// The human-readable name of this value's type.
    pub fn name_of_type(&self) -> (r: &'static str)
        ensures
            r@ == kind_of(self@).spec_name(),
    {
        self.kind().name()
    }

    /// Whether this value and `other` can be ordered against each other.
    pub fn is_comparable(&self, other: &Value) -> (r: bool)
        ensures
            r == comparable(self@, other@),
    {
        match (self, other) {
            (Value::Absent, Value::Absent) => true,
            (Value::Bool(_), Value::Bool(_)) => true,
            (Value::Int(_), Value::Int(_)) => true,
            (Value::Str(_), Value::Str(_)) => true,
            _ => false,
        }
    }

    /// Whether this value is ordered strictly after `other`.
    pub fn is_after(&self, other: &Value) -> (r: bool)
        requires
            comparable(self@, other@),
        ensures
            r == !model_le(self@, other@),
    {
        match (self, other) {
            (Value::Bool(x), Value::Bool(y)) => *x && !*y,
            (Value::Int(x), Value::Int(y)) => *x > *y,
            (Value::Str(x), Value::Str(y)) => text_after(x.as_str(), y.as_str()),
            _ => false,
        }
    }

    /// Structural equality of two values.
    pub fn equals(&self, other: &Value) -> (r: bool)
        ensures
            r == (self@ == other@),
        decreases self@,
    {
        match (self, other) {
            (Value::Absent, Value::Absent) => true,
            (Value::Bool(x), Value::Bool(y)) => *x == *y,
            (Value::Int(x), Value::Int(y)) => *x == *y,
            (Value::Str(x), Value::Str(y)) => x.eq(y),
            (Value::Array(x), Value::Array(y)) => {
                let s = x.as_slice();
                let t = y.as_slice();
                if s.len() != t.len() {
                    assert(x@.len() != y@.len());
                    return false;
                }
                let mut k: usize = 0;
                while k < s.len()
                    invariant
                        self@ == Model::Array(x@),
                        other@ == Model::Array(y@),
                        models(s@) == x@,
                        models(t@) == y@,
                        s@.len() == t@.len(),
                        k <= s@.len(),
                        forall|j: int| 0 <= j < k ==> x@[j] == y@[j],
                    decreases s@.len() - k,
                {
                    proof {
                        assert(s@[k as int]@ == x@[k as int]);
                        let m = self@;
                        assert(decreases_to!(m => m->Array_0));
                        assert(decreases_to!(m->Array_0 => m->Array_0[k as int]));
                    }
                    if !s[k].equals(&t[k]) {
                        return false;
                    }
                    k = k + 1;
                }
                assert(x@ =~= y@);
                true
            },
            _ => false,
        }
    }
}

impl Clone for Value {
    fn clone(&self) -> (r: Value)
        ensures
            r@ == self@,
    {
        match self {
            Value::Absent => Value::Absent,
            Value::Bool(b) => Value::Bool(*b),
            Value::Int(i) => Value::Int(*i),
            Value::Str(s) => Value::Str(s.clone()),
            Value::Array(a) => Value::Array(a.clone()),
        }
    }
}

impl PartialEq for Value {
    fn eq(&self, other: &Value) -> (r: bool) {
        self.equals(other)
    }
}

impl vstd::std_specs::cmp::PartialEqSpecImpl for Value {
    open spec fn obeys_eq_spec() -> bool {
        true
    }

    open spec fn eq_spec(&self, other: &Value) -> bool {
        self@ == other@
    }
}

} // verus!
