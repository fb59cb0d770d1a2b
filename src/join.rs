use vstd::prelude::*;

use crate::array::Array;
use crate::buffer::models;
use crate::value::{Model, Value};

verus! {

/// The operands that a join hands to the operator, in order, after the
/// initial absent marker: the elements, with the separator between every two
/// of them, and the last separator, where given, between the final two.
pub open spec fn join_operands(s: Seq<Model>, sep: Model, last: Option<Model>) -> Seq<Model> {
    let n = s.len() as int;
    Seq::new(
        if n == 0 {
            0nat
        } else {
            (2 * n - 1) as nat
        },
        |k: int|
            if k % 2 == 0 {
                s[k / 2]
            } else if k == 2 * n - 3 && last is Some {
                last->Some_0
            } else {
                sep
            },
    )
}

/// The model of the operator's outcome.
pub open spec fn lift_join<E>(o: Result<Value, E>) -> Result<Model, E> {
    match o {
        Ok(v) => Ok(v@),
        Err(e) => Err(e),
    }
}

/// What the operator may give for the accumulated `acc` and the operand `x`.
pub open spec fn join_step<E, J: Fn(Value, Value) -> Result<Value, E>>(
    op: J,
    acc: Model,
    x: Model,
    out: Result<Model, E>,
) -> bool {
    exists|a: Value, b: Value, o: Result<Value, E>|
        #[trigger] op.ensures((a, b), o) && a@ == acc && b@ == x && lift_join(o) == out
}

/// `accs` are the accumulators of the first `i` applications of the operator
/// to the operands `ops`.
pub open spec fn join_chain<E, J: Fn(Value, Value) -> Result<Value, E>>(
    op: J,
    ops: Seq<Model>,
    accs: Seq<Model>,
    i: int,
) -> bool {
    &&& accs.len() == i + 1
    &&& forall|j: int| 0 <= j < i ==> #[trigger] join_step(op, accs[j], ops[j], Ok(accs[j + 1]))
}

/// The model of an optional separator: absent where none is given.
pub open spec fn sep_model(sep: Option<Value>) -> Model {
    match sep {
        Some(v) => v@,
        None => Model::Absent,
    }
}

/// The model of an optional value.
pub open spec fn opt_model(o: Option<Value>) -> Option<Model> {
    match o {
        Some(v) => Some(v@),
        None => None,
    }
}

fn apply<E, J: Fn(Value, Value) -> Result<Value, E>>(op: &J, acc: Value, x: Value) -> (r: Result<Value, E>)
    requires
        forall|a: Value, b: Value| op.requires((a, b)),
    ensures
        join_step(*op, acc@, x@, lift_join(r)),
{
    let ghost a = acc;
    let ghost b = x;
    let r = op(acc, x);
    assert(op.ensures((a, b), r));
    r
}

impl Array {
    /// Join all values in the array with the operator `op`, from the absent
    /// marker on, optionally with a separator (absent where none is given)
    /// and a last separator (between the final two items).
    pub fn join<E, J: Fn(Value, Value) -> Result<Value, E>>(
        &self,
        sep: Option<Value>,
        last: Option<Value>,
        op: J,
    ) -> (r: Result<Value, E>)
        requires
            forall|a: Value, b: Value| op.requires((a, b)),
        ensures
            ({
                let ops = join_operands(self@, sep_model(sep), opt_model(last));
                match r {
                    Ok(v) => exists|accs: Seq<Model>|
                        join_chain(op, ops, accs, ops.len() as int) && accs[0] == Model::Absent
                            && v@ == accs[ops.len() as int],
                    Err(e) => exists|i: int, accs: Seq<Model>|
                        0 <= i < ops.len() && join_chain(op, ops, accs, i) && accs[0]
                            == Model::Absent && join_step(op, accs[i], ops[i], Err(e)),
                }
            }),
    {
        let ghost lastm = opt_model(last);
        let ghost sepm = sep_model(sep);
        let ghost ops = join_operands(self@, sepm, lastm);
        let s = self.as_slice();
        let n = s.len();
        assert(models(s@).len() == s@.len());
        let sepv = match &sep {
            Some(v) => v.clone(),
            None => Value::Absent,
        };
        let mut result = Value::Absent;
        let ghost mut accs: Seq<Model> = seq![Model::Absent];
        let ghost mut t: int = 0;
        let mut i: usize = 0;
        while i < n
            invariant
                forall|a: Value, b: Value| op.requires((a, b)),
                models(s@) == self@,
                n == s@.len(),
                i <= n,
                sepv@ == sepm,
                sepm == sep_model(sep),
                ops == join_operands(self@, sep_model(sep), opt_model(last)),
                ops == join_operands(self@, sepm, lastm),
                lastm == opt_model(last),
                t == if i == 0 { 0 } else { 2 * i - 1 },
                join_chain(op, ops, accs, t),
                accs[0] == Model::Absent,
                accs[t] == result@,
            decreases n - i,
        {
            assert(s@[i as int]@ == self@[i as int]);
            if i > 0 {
                let x = if i + 1 == n && last.is_some() {
                    match &last {
                        Some(v) => v.clone(),
                        None => Value::Absent,
                    }
                } else {
                    sepv.clone()
                };
                assert(x@ == ops[t]);
            match apply(&op, result, x) {
                    Ok(v) => {
                        proof {
                            let prev = accs;
                            accs = accs.push(v@);
                            assert forall|j: int| 0 <= j < t + 1 implies #[trigger] join_step(
                                op,
                                accs[j],
                                ops[j],
                                Ok(accs[j + 1]),
                            ) by {
                                if j < t {
                                    assert(join_step(op, prev[j], ops[j], Ok(prev[j + 1])));
                                }
                            }
                            t = t + 1;
                        }
                        result = v;
                    },
                    Err(e) => {
                        assert(lift_join::<E>(Err(e)) == Err::<Model, E>(e));
                        assert(0 <= t < ops.len());
                        assert(join_step(op, accs[t], ops[t], Err(e)));
                        assert(join_chain(op, ops, accs, t));
                        assert(exists|k: int, a: Seq<Model>|
                            0 <= k < ops.len() && #[trigger] join_chain(op, ops, a, k) && a[0]
                                == Model::Absent && join_step(op, a[k], ops[k], Err(e)));
                        return Err(e);
                    },
                }
            }
            let x = s[i].clone();
            assert(x@ == ops[t]);
            match apply(&op, result, x) {
                Ok(v) => {
                    proof {
                        let prev = accs;
                        accs = accs.push(v@);
                        assert forall|j: int| 0 <= j < t + 1 implies #[trigger] join_step(
                            op,
                            accs[j],
                            ops[j],
                            Ok(accs[j + 1]),
                        ) by {
                            if j < t {
                                assert(join_step(op, prev[j], ops[j], Ok(prev[j + 1])));
                            }
                        }
                        t = t + 1;
                    }
                    result = v;
                },
                Err(e) => {
                    assert(lift_join::<E>(Err(e)) == Err::<Model, E>(e));
                    assert(0 <= t < ops.len());
                        assert(join_step(op, accs[t], ops[t], Err(e)));
                        assert(join_chain(op, ops, accs, t));
                        assert(exists|k: int, a: Seq<Model>|
                            0 <= k < ops.len() && #[trigger] join_chain(op, ops, a, k) && a[0]
                                == Model::Absent && join_step(op, a[k], ops[k], Err(e)));
                    return Err(e);
                },
            }
            i = i + 1;
        }
        assert(t == ops.len());
        Ok(result)
    }
}

} // verus!
