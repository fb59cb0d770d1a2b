use vstd::prelude::*;

use crate::array::Array;
use crate::buffer::{lemma_models_push, models};
use crate::error::{Kind, SourceError, Span};
use crate::value::{kind_of, Model, Value};

verus! {

/// A callable value: the number of parameters it declares, where that is
/// known, the location it was defined at, and the code that runs it on a
/// list of positional arguments.
pub struct Func<F> {
    pub argc: Option<usize>,
    pub span: Span,
    pub body: F,
}

/// What the callable may give for arguments whose models are `args`.
pub open spec fn may_return<F: Fn(Vec<Value>) -> Result<Value, SourceError>>(
    f: F,
    args: Seq<Model>,
    out: Result<Model, SourceError>,
) -> bool {
    exists|a: Vec<Value>, o: Result<Value, SourceError>|
        #[trigger] f.ensures((a,), o) && models(a@) == args && lift(o) == out
}

/// The model of a callable's outcome.
pub open spec fn lift(o: Result<Value, SourceError>) -> Result<Model, SourceError> {
    match o {
        Ok(v) => Ok(v@),
        Err(e) => Err(e),
    }
}

/// The message of the error for a callable result of kind `k` where a
/// boolean was expected.
pub open spec fn cast_message(k: Kind) -> Seq<char> {
    match k {
        Kind::Absent => "expected boolean, found none"@,
        Kind::Bool => "expected boolean, found boolean"@,
        Kind::Int => "expected boolean, found integer"@,
        Kind::Str => "expected boolean, found string"@,
        Kind::Array => "expected boolean, found array"@,
    }
}

/// A callable's outcome read as a boolean: its value, or the error that ends
/// the walk (the callable's own, or the one for a result that is no boolean).
pub open spec fn is_verdict(out: Result<Model, SourceError>, span: Span, v: Result<bool, SourceError>) -> bool {
    match out {
        Ok(Model::Bool(b)) => v == Ok::<bool, SourceError>(b),
        Ok(m) => v is Err && v->Err_0.says(span, cast_message(kind_of(m))),
        Err(e) => v == Err::<bool, SourceError>(e),
    }
}

/// Some run of the callable on `x` alone ends in `v`.
pub open spec fn answers<F: Fn(Vec<Value>) -> Result<Value, SourceError>>(
    func: Func<F>,
    x: Model,
    v: Result<bool, SourceError>,
) -> bool {
    exists|out: Result<Model, SourceError>| #[trigger] may_return(func.body, seq![x], out) && is_verdict(out, func.span, v)
}

/// The callable answered `b` for each of the first `i` elements.
pub open spec fn all_answer<F: Fn(Vec<Value>) -> Result<Value, SourceError>>(
    func: Func<F>,
    s: Seq<Model>,
    i: int,
    b: bool,
) -> bool {
    forall|j: int| 0 <= j < i ==> #[trigger] answers(func, s[j], Ok(b))
}

/// The callable declares a parameter count, and it is not `n`.
pub open spec fn declares_other(argc: Option<usize>, n: usize) -> bool {
    argc is Some && argc->Some_0 != n
}

/// The elements of `s` whose verdict in `keep` is true, in order.
pub open spec fn kept(s: Seq<Model>, keep: Seq<bool>) -> Seq<Model>
    decreases s.len(),
{
    if s.len() == 0 {
        Seq::empty()
    } else {
        kept(s.drop_last(), keep.drop_last()) + if keep.last() {
            seq![s.last()]
        } else {
            Seq::empty()
        }
    }
}

/// The arguments a mapping callable gets for the element `x` at `i`: the
/// index comes first where the callable declares two parameters.
pub open spec fn map_args(argc: Option<usize>, i: int, x: Model) -> Seq<Model> {
    if argc == Some(2usize) {
        seq![Model::Int(i), x]
    } else {
        seq![x]
    }
}

/// `accs` are the accumulators of the first `i` steps of a fold over `s`:
/// each the callable's result on the one before it and the next element.
pub open spec fn fold_chain<F: Fn(Vec<Value>) -> Result<Value, SourceError>>(
    f: F,
    s: Seq<Model>,
    accs: Seq<Model>,
    i: int,
) -> bool {
    &&& accs.len() == i + 1
    &&& forall|j: int|
        0 <= j < i ==> #[trigger] fold_step(f, accs[j], s[j], Ok(accs[j + 1]))
}

/// What the callable may give for the accumulator `acc` and the element `x`.
pub open spec fn fold_step<F: Fn(Vec<Value>) -> Result<Value, SourceError>>(
    f: F,
    acc: Model,
    x: Model,
    out: Result<Model, SourceError>,
) -> bool {
    may_return(f, seq![acc, x], out)
}

/// Some run of the mapping callable on the element `x` at `i` succeeds.
pub open spec fn map_succeeds<F: Fn(Vec<Value>) -> Result<Value, SourceError>>(
    f: F,
    argc: Option<usize>,
    i: int,
    x: Model,
) -> bool {
    exists|m: Model| #[trigger] may_return(f, map_args(argc, i, x), Ok(m))
}

/// The error for a callable result of kind `k` where a boolean was expected.
pub fn cast_error(span: Span, k: Kind) -> (r: SourceError)
    ensures
        r.says(span, cast_message(k)),
{
    match k {
        Kind::Absent => SourceError::new(span, "expected boolean, found none"),
        Kind::Bool => SourceError::new(span, "expected boolean, found boolean"),
        Kind::Int => SourceError::new(span, "expected boolean, found integer"),
        Kind::Str => SourceError::new(span, "expected boolean, found string"),
        Kind::Array => SourceError::new(span, "expected boolean, found array"),
    }
}

/// Runs the callable on the given arguments.
pub fn invoke<F: Fn(Vec<Value>) -> Result<Value, SourceError>>(func: &Func<F>, args: Vec<Value>) -> (r: Result<Value, SourceError>)
    requires
        forall|a: Vec<Value>| func.body.requires((a,)),
    ensures
        may_return(func.body, models(args@), lift(r)),
{
    let ghost a = args;
    let r = (func.body)(args);
    assert(func.body.ensures((a,), r));
    r
}

/// Runs the callable on `x` alone and reads its result as a boolean.
pub fn verdict<F: Fn(Vec<Value>) -> Result<Value, SourceError>>(func: &Func<F>, x: &Value) -> (r: Result<bool, SourceError>)
    requires
        forall|a: Vec<Value>| func.body.requires((a,)),
    ensures
        answers(*func, x@, r),
{
    let mut args: Vec<Value> = Vec::new();
    args.push(x.clone());
    assert(models(args@) =~= seq![x@]);
    let out = invoke(func, args);
    let r = match out {
        Ok(Value::Bool(b)) => Ok(b),
        Ok(v) => Err(cast_error(func.span, v.kind())),
        Err(e) => Err(e),
    };
    assert(is_verdict(lift(out), func.span, r));
    r
}

impl Array {
    /// Return the first matching element.
    pub fn find<F: Fn(Vec<Value>) -> Result<Value, SourceError>>(&self, func: Func<F>) -> (r: Result<Option<Value>, SourceError>)
        requires
            forall|a: Vec<Value>| func.body.requires((a,)),
        ensures
            declares_other(func.argc, 1) ==> r is Err && r->Err_0.says(
                func.span,
                "function must have exactly one parameter"@,
            ),
            !declares_other(func.argc, 1) ==> match r {
                Ok(Some(v)) => exists|i: int|
                    0 <= i < self@.len() && v@ == self@[i] && answers(func, self@[i], Ok(true))
                        && all_answer(func, self@, i, false),
                Ok(None) => all_answer(func, self@, self@.len() as int, false),
                Err(e) => exists|i: int|
                    0 <= i < self@.len() && answers(func, self@[i], Err(e)) && all_answer(
                        func,
                        self@,
                        i,
                        false,
                    ),
            },
    {
        if let Some(c) = func.argc {
            if c != 1 {
                return Err(SourceError::new(func.span, "function must have exactly one parameter"));
            }
        }
        let s = self.as_slice();
        let mut k: usize = 0;
        while k < s.len()
            invariant
                forall|a: Vec<Value>| func.body.requires((a,)),
                !declares_other(func.argc, 1),
                models(s@) == self@,
                k <= s@.len(),
                all_answer(func, self@, k as int, false),
            decreases s@.len() - k,
        {
            assert(s@[k as int]@ == self@[k as int]);
            match verdict(&func, &s[k]) {
                Ok(true) => {
                    return Ok(Some(s[k].clone()));
                },
                Ok(false) => {},
                Err(e) => {
                    return Err(e);
                },
            }
            k = k + 1;
        }
        Ok(None)
    }

    /// Return the index of the first matching element.
    pub fn position<F: Fn(Vec<Value>) -> Result<Value, SourceError>>(&self, func: Func<F>) -> (r: Result<Option<i64>, SourceError>)
        requires
            forall|a: Vec<Value>| func.body.requires((a,)),
        ensures
            declares_other(func.argc, 1) ==> r is Err && r->Err_0.says(
                func.span,
                "function must have exactly one parameter"@,
            ),
            !declares_other(func.argc, 1) ==> match r {
                Ok(Some(i)) => 0 <= i < self@.len() && answers(func, self@[i as int], Ok(true))
                    && all_answer(func, self@, i as int, false),
                Ok(None) => all_answer(func, self@, self@.len() as int, false),
                Err(e) => exists|i: int|
                    0 <= i < self@.len() && answers(func, self@[i], Err(e)) && all_answer(
                        func,
                        self@,
                        i,
                        false,
                    ),
            },
    {
        if let Some(c) = func.argc {
            if c != 1 {
                return Err(SourceError::new(func.span, "function must have exactly one parameter"));
            }
        }
        let s = self.as_slice();
        let n = self.len();
        let mut k: usize = 0;
        while k < s.len()
            invariant
                forall|a: Vec<Value>| func.body.requires((a,)),
                !declares_other(func.argc, 1),
                models(s@) == self@,
                n == self@.len(),
                k <= s@.len(),
                all_answer(func, self@, k as int, false),
            decreases s@.len() - k,
        {
            assert(s@[k as int]@ == self@[k as int]);
            match verdict(&func, &s[k]) {
                Ok(true) => {
                    return Ok(Some(k as i64));
                },
                Ok(false) => {},
                Err(e) => {
                    return Err(e);
                },
            }
            k = k + 1;
        }
        Ok(None)
    }

    /// Whether any element matches.
    pub fn any<F: Fn(Vec<Value>) -> Result<Value, SourceError>>(&self, func: Func<F>) -> (r: Result<bool, SourceError>)
        requires
            forall|a: Vec<Value>| func.body.requires((a,)),
        ensures
            declares_other(func.argc, 1) ==> r is Err && r->Err_0.says(
                func.span,
                "function must have exactly one parameter"@,
            ),
            !declares_other(func.argc, 1) ==> match r {
                Ok(true) => exists|i: int|
                    0 <= i < self@.len() && answers(func, self@[i], Ok(true)) && all_answer(
                        func,
                        self@,
                        i,
                        false,
                    ),
                Ok(false) => all_answer(func, self@, self@.len() as int, false),
                Err(e) => exists|i: int|
                    0 <= i < self@.len() && answers(func, self@[i], Err(e)) && all_answer(
                        func,
                        self@,
                        i,
                        false,
                    ),
            },
    {
        if let Some(c) = func.argc {
            if c != 1 {
                return Err(SourceError::new(func.span, "function must have exactly one parameter"));
            }
        }
        let s = self.as_slice();
        let mut k: usize = 0;
        while k < s.len()
            invariant
                forall|a: Vec<Value>| func.body.requires((a,)),
                !declares_other(func.argc, 1),
                models(s@) == self@,
                k <= s@.len(),
                all_answer(func, self@, k as int, false),
            decreases s@.len() - k,
        {
            assert(s@[k as int]@ == self@[k as int]);
            match verdict(&func, &s[k]) {
                Ok(true) => {
                    return Ok(true);
                },
                Ok(false) => {},
                Err(e) => {
                    return Err(e);
                },
            }
            k = k + 1;
        }
        Ok(false)
    }

    /// Whether all elements match.
    pub fn all<F: Fn(Vec<Value>) -> Result<Value, SourceError>>(&self, func: Func<F>) -> (r: Result<bool, SourceError>)
        requires
            forall|a: Vec<Value>| func.body.requires((a,)),
        ensures
            declares_other(func.argc, 1) ==> r is Err && r->Err_0.says(
                func.span,
                "function must have exactly one parameter"@,
            ),
            !declares_other(func.argc, 1) ==> match r {
                Ok(false) => exists|i: int|
                    0 <= i < self@.len() && answers(func, self@[i], Ok(false)) && all_answer(
                        func,
                        self@,
                        i,
                        true,
                    ),
                Ok(true) => all_answer(func, self@, self@.len() as int, true),
                Err(e) => exists|i: int|
                    0 <= i < self@.len() && answers(func, self@[i], Err(e)) && all_answer(
                        func,
                        self@,
                        i,
                        true,
                    ),
            },
    {
        if let Some(c) = func.argc {
            if c != 1 {
                return Err(SourceError::new(func.span, "function must have exactly one parameter"));
            }
        }
        let s = self.as_slice();
        let mut k: usize = 0;
        while k < s.len()
            invariant
                forall|a: Vec<Value>| func.body.requires((a,)),
                !declares_other(func.argc, 1),
                models(s@) == self@,
                k <= s@.len(),
                all_answer(func, self@, k as int, true),
            decreases s@.len() - k,
        {
            assert(s@[k as int]@ == self@[k as int]);
            match verdict(&func, &s[k]) {
                Ok(false) => {
                    return Ok(false);
                },
                Ok(true) => {},
                Err(e) => {
                    return Err(e);
                },
            }
            k = k + 1;
        }
        Ok(true)
    }

    /// Return a new array with only those elements for which the function
    /// returns true.
    pub fn filter<F: Fn(Vec<Value>) -> Result<Value, SourceError>>(&self, func: Func<F>) -> (r: Result<Array, SourceError>)
        requires
            forall|a: Vec<Value>| func.body.requires((a,)),
        ensures
            declares_other(func.argc, 1) ==> r is Err && r->Err_0.says(
                func.span,
                "function must have exactly one parameter"@,
            ),
            !declares_other(func.argc, 1) ==> match r {
                Ok(a) => exists|keep: Seq<bool>|
                    keep.len() == self@.len() && (forall|j: int|
                        0 <= j < self@.len() ==> #[trigger] answers(func, self@[j], Ok(keep[j])))
                        && a@ == kept(self@, keep),
                Err(e) => exists|i: int, keep: Seq<bool>|
                    0 <= i < self@.len() && keep.len() == i && (forall|j: int|
                        0 <= j < i ==> #[trigger] answers(func, self@[j], Ok(keep[j]))) && answers(
                        func,
                        self@[i],
                        Err(e),
                    ),
            },
    {
        if let Some(c) = func.argc {
            if c != 1 {
                return Err(SourceError::new(func.span, "function must have exactly one parameter"));
            }
        }
        let s = self.as_slice();
        let mut out: Vec<Value> = Vec::new();
        let ghost mut keep: Seq<bool> = Seq::empty();
        assert(models(out@) =~= kept(self@.subrange(0, 0), keep));
        let mut k: usize = 0;
        while k < s.len()
            invariant
                forall|a: Vec<Value>| func.body.requires((a,)),
                !declares_other(func.argc, 1),
                models(s@) == self@,
                k <= s@.len(),
                keep.len() == k,
                forall|j: int| 0 <= j < k ==> #[trigger] answers(func, self@[j], Ok(keep[j])),
                models(out@) == kept(self@.subrange(0, k as int), keep),
            decreases s@.len() - k,
        {
            assert(s@[k as int]@ == self@[k as int]);
            let b = match verdict(&func, &s[k]) {
                Ok(b) => b,
                Err(e) => {
                    return Err(e);
                },
            };
            let ghost prev = keep;
            proof {
                keep = keep.push(b);
                assert(self@.subrange(0, k + 1).drop_last() =~= self@.subrange(0, k as int));
                assert(keep.drop_last() =~= prev);
            }
            if b {
                let v = s[k].clone();
                proof {
                    lemma_models_push(out@, v);
                }
                out.push(v);
            }
            k = k + 1;
            assert(models(out@) =~= kept(self@.subrange(0, k as int), keep));
        }
        assert(self@.subrange(0, k as int) =~= self@);
        Ok(Array::from_vec(out))
    }

    /// Transform each item in the array with a function. A function of two
    /// parameters gets the index too, as its first argument.
    pub fn map<F: Fn(Vec<Value>) -> Result<Value, SourceError>>(&self, func: Func<F>) -> (r: Result<Array, SourceError>)
        requires
            forall|a: Vec<Value>| func.body.requires((a,)),
        ensures
            declares_other(func.argc, 1) && declares_other(func.argc, 2) ==> r is Err
                && r->Err_0.says(func.span, "function must have one or two parameters"@),
            !(declares_other(func.argc, 1) && declares_other(func.argc, 2)) ==> match r {
                Ok(a) => a@.len() == self@.len() && forall|j: int|
                    0 <= j < self@.len() ==> #[trigger] may_return(
                        func.body,
                        map_args(func.argc, j, self@[j]),
                        Ok(a@[j]),
                    ),
                Err(e) => exists|i: int|
                    0 <= i < self@.len() && may_return(
                        func.body,
                        map_args(func.argc, i, self@[i]),
                        Err(e),
                    ) && forall|j: int|
                        0 <= j < i ==> #[trigger] map_succeeds(func.body, func.argc, j, self@[j]),
            },
    {
        if let Some(c) = func.argc {
            if c != 1 && c != 2 {
                return Err(SourceError::new(func.span, "function must have one or two parameters"));
            }
        }
        let enumerate = match func.argc {
            Some(c) => c == 2,
            None => false,
        };
        let s = self.as_slice();
        let n = self.len();
        let mut out: Vec<Value> = Vec::new();
        let mut k: usize = 0;
        while k < s.len()
            invariant
                forall|a: Vec<Value>| func.body.requires((a,)),
                enumerate == (func.argc == Some(2usize)),
                !(declares_other(func.argc, 1) && declares_other(func.argc, 2)),
                models(s@) == self@,
                n == self@.len(),
                k <= s@.len(),
                out@.len() == k,
                forall|j: int|
                    0 <= j < k ==> #[trigger] may_return(
                        func.body,
                        map_args(func.argc, j, self@[j]),
                        Ok(out@[j]@),
                    ),
            decreases s@.len() - k,
        {
            assert(s@[k as int]@ == self@[k as int]);
            let mut args: Vec<Value> = Vec::new();
            if enumerate {
                args.push(Value::Int(k as i64));
            }
            args.push(s[k].clone());
            assert(models(args@) =~= map_args(func.argc, k as int, self@[k as int]));
            match invoke(&func, args) {
                Ok(v) => {
                    out.push(v);
                },
                Err(e) => {
                    assert forall|j: int| 0 <= j < k implies #[trigger] map_succeeds(
                        func.body,
                        func.argc,
                        j,
                        self@[j],
                    ) by {
                        assert(may_return(func.body, map_args(func.argc, j, self@[j]), Ok(out@[j]@)));
                    }
                    return Err(e);
                },
            }
            k = k + 1;
        }
        let r = Array::from_vec(out);
        assert forall|j: int| 0 <= j < self@.len() implies #[trigger] may_return(
            func.body,
            map_args(func.argc, j, self@[j]),
            Ok(r@[j]),
        ) by {
            assert(r@[j] == out@[j]@);
        }
        Ok(r)
    }

    /// Fold all of the array's elements into one with a function of the
    /// accumulator and the next element.
    pub fn fold<F: Fn(Vec<Value>) -> Result<Value, SourceError>>(&self, init: Value, func: Func<F>) -> (r: Result<Value, SourceError>)
        requires
            forall|a: Vec<Value>| func.body.requires((a,)),
        ensures
            declares_other(func.argc, 2) ==> r is Err && r->Err_0.says(
                func.span,
                "function must have exactly two parameters"@,
            ),
            !declares_other(func.argc, 2) ==> match r {
                Ok(v) => exists|accs: Seq<Model>|
                    fold_chain(func.body, self@, accs, self@.len() as int) && accs[0] == init@
                        && v@ == accs[self@.len() as int],
                Err(e) => exists|i: int, accs: Seq<Model>|
                    0 <= i < self@.len() && fold_chain(func.body, self@, accs, i) && accs[0]
                        == init@ && fold_step(func.body, accs[i], self@[i], Err(e)),
            },
    {
        if let Some(c) = func.argc {
            if c != 2 {
                return Err(SourceError::new(func.span, "function must have exactly two parameters"));
            }
        }
        let s = self.as_slice();
        let mut acc = init;
        let ghost mut accs: Seq<Model> = seq![acc@];
        let mut k: usize = 0;
        while k < s.len()
            invariant
                forall|a: Vec<Value>| func.body.requires((a,)),
                !declares_other(func.argc, 2),
                models(s@) == self@,
                k <= s@.len(),
                fold_chain(func.body, self@, accs, k as int),
                accs[0] == init@,
                accs[k as int] == acc@,
            decreases s@.len() - k,
        {
            assert(s@[k as int]@ == self@[k as int]);
            let mut args: Vec<Value> = Vec::new();
            args.push(acc);
            args.push(s[k].clone());
            assert(models(args@) =~= seq![accs[k as int], self@[k as int]]);
            match invoke(&func, args) {
                Ok(v) => {
                    proof {
                        let prev = accs;
                        accs = accs.push(v@);
                        assert forall|j: int| 0 <= j < k + 1 implies #[trigger] fold_step(
                            func.body,
                            accs[j],
                            self@[j],
                            Ok(accs[j + 1]),
                        ) by {
                            if j < k {
                                assert(fold_step(func.body, prev[j], self@[j], Ok(prev[j + 1])));
                            }
                        }
                    }
                    acc = v;
                },
                Err(e) => {
                    return Err(e);
                },
            }
            k = k + 1;
        }
        Ok(acc)
    }
}

} // verus!
