use std::cell::Cell;

use typst_array::{Array, ArrayError, Func, Kind, SourceError, Span, Value};

fn ints(xs: &[i64]) -> Array {
    Array::from_vec(xs.iter().map(|&x| Value::Int(x)).collect())
}

fn int_at(a: &Array, i: i64) -> i64 {
    match a.at(i) {
        Ok(Value::Int(x)) => *x,
        other => panic!("expected an integer, got {:?}", other),
    }
}

fn values(a: &Array) -> Vec<i64> {
    (0..a.len()).map(|i| int_at(a, i)).collect()
}

fn span() -> Span {
    Span { id: 7 }
}

fn is_two(args: Vec<Value>) -> Result<Value, SourceError> {
    Ok(Value::Bool(args[0] == Value::Int(2)))
}

fn text(v: &Value) -> String {
    match v {
        Value::Int(i) => i.to_string(),
        Value::Str(s) => s.clone(),
        _ => String::from("?"),
    }
}

fn concat(a: Value, b: Value) -> Result<Value, String> {
    match (&a, &b) {
        (Value::Absent, _) => Ok(b),
        (_, Value::Absent) => Ok(a),
        (Value::Array(_), _) | (_, Value::Array(_)) => Err(String::from("cannot join arrays")),
        _ => Ok(Value::Str(text(&a) + &text(&b))),
    }
}

#[test]
fn len_matches_iteration() {
    for a in [ints(&[]), ints(&[5]), ints(&[1, 2, 3, 4])] {
        assert_eq!(a.len() as usize, a.iter().count());
        assert_eq!(a.len() as usize, a.as_slice().len());
    }
}

#[test]
fn negative_index_wraps() {
    let a = ints(&[10, 20, 30]);
    assert_eq!(int_at(&a, -1), int_at(&a, 2));
    assert_eq!(int_at(&a, -3), 10);
    assert_eq!(a.at(3).unwrap_err(), ArrayError::OutOfBounds { index: 3, len: 3 });
    assert_eq!(a.at(-4).unwrap_err(), ArrayError::OutOfBounds { index: -4, len: 3 });
}

#[test]
fn first_last_and_empty() {
    let a = ints(&[4, 5, 6]);
    assert_eq!(a.first().unwrap(), &Value::Int(4));
    assert_eq!(a.last().unwrap(), &Value::Int(6));
    let mut e = Array::new();
    assert_eq!(e.first().unwrap_err(), ArrayError::Empty);
    assert_eq!(e.last().unwrap_err(), ArrayError::Empty);
    assert_eq!(e.pop().unwrap_err(), ArrayError::Empty);
    assert_eq!(e.remove(0).unwrap_err(), ArrayError::OutOfBounds { index: 0, len: 0 });
    assert!(e.first_mut().is_err());
    assert!(e.last_mut().is_err());
}

#[test]
fn mutable_access_writes_through() {
    let mut a = ints(&[1, 2, 3]);
    let b = a.clone();
    *a.first_mut().unwrap() = Value::Int(100);
    *a.last_mut().unwrap() = Value::Int(300);
    *a.at_mut(-2).unwrap() = Value::Int(200);
    assert_eq!(values(&a), vec![100, 200, 300]);
    assert_eq!(values(&b), vec![1, 2, 3]);
    assert_eq!(a.at_mut(5).unwrap_err(), ArrayError::OutOfBounds { index: 5, len: 3 });
}

#[test]
fn slice_bounds() {
    let a = ints(&[1, 2, 3, 4, 5]);
    assert_eq!(values(&a.slice(1, None).unwrap()), vec![2, 3, 4, 5]);
    assert_eq!(a.slice(1, None).unwrap(), a.slice(1, Some(a.len())).unwrap());
    assert_eq!(values(&a.slice(-2, None).unwrap()), vec![4, 5]);
    assert_eq!(values(&a.slice(1, Some(-1)).unwrap()), vec![2, 3, 4]);
    assert_eq!(a.slice(3, Some(1)).unwrap().len(), 0);
    assert_eq!(a.slice(5, None).unwrap().len(), 0);
    assert_eq!(a.slice(6, None).unwrap_err(), ArrayError::OutOfBounds { index: 6, len: 5 });
    assert_eq!(a.slice(0, Some(-9)).unwrap_err(), ArrayError::OutOfBounds { index: -9, len: 5 });
}

#[test]
fn insert_then_remove_restores() {
    let mut a = ints(&[1, 2, 3]);
    a.insert(1, Value::Int(9)).unwrap();
    assert_eq!(values(&a), vec![1, 9, 2, 3]);
    assert_eq!(a.remove(1).unwrap(), Value::Int(9));
    assert_eq!(values(&a), vec![1, 2, 3]);
    a.insert(3, Value::Int(4)).unwrap();
    assert_eq!(values(&a), vec![1, 2, 3, 4]);
    assert_eq!(a.insert(6, Value::Int(0)).unwrap_err(), ArrayError::OutOfBounds { index: 6, len: 4 });
    assert_eq!(a.remove(4).unwrap_err(), ArrayError::OutOfBounds { index: 4, len: 4 });
    assert_eq!(a.remove(-1).unwrap(), Value::Int(4));
}

#[test]
fn push_pop_is_last_in_first_out() {
    let mut a = Array::new();
    a.push(Value::Int(1));
    a.push(Value::Int(2));
    a.push(Value::Int(3));
    assert_eq!(a.pop().unwrap(), Value::Int(3));
    assert_eq!(a.pop().unwrap(), Value::Int(2));
    assert_eq!(a.pop().unwrap(), Value::Int(1));
    assert_eq!(a.len(), 0);
}

#[test]
fn contains_compares_structurally() {
    let a = Array::from_vec(vec![Value::Int(1), Value::Array(ints(&[2, 3]))]);
    assert!(a.contains(&Value::Int(1)));
    assert!(a.contains(&Value::Array(ints(&[2, 3]))));
    assert!(!a.contains(&Value::Array(ints(&[3, 2]))));
    assert!(!a.contains(&Value::Str(String::from("1"))));
}

#[test]
fn sorted_orders_and_keeps_sorted_input() {
    let a = ints(&[3, -1, 2, 2]);
    assert_eq!(values(&a.sorted().unwrap()), vec![-1, 2, 2, 3]);
    let b = ints(&[1, 2, 3]);
    assert_eq!(b.sorted().unwrap(), b);
    let c = Array::from_vec(vec![Value::Bool(true), Value::Bool(false)]);
    assert_eq!(c.sorted().unwrap(), Array::from_vec(vec![Value::Bool(false), Value::Bool(true)]));
}

#[test]
fn sorted_rejects_incomparable() {
    let a = Array::from_vec(vec![Value::Int(1), Value::Str(String::from("a"))]);
    match a.sorted() {
        Err(ArrayError::CannotOrder(x, y)) => {
            let mut names = vec![x.name(), y.name()];
            names.sort();
            assert_eq!(names, vec!["integer", "string"]);
        },
        other => panic!("expected an ordering error, got {:?}", other.map(|r| r.len())),
    }
    assert_eq!(Kind::Int.name(), "integer");
}

#[test]
fn repeat_counts() {
    let a = ints(&[1, 2]);
    assert_eq!(a.repeat(0).unwrap().len(), 0);
    assert_eq!(a.repeat(-1).unwrap_err(), ArrayError::CannotRepeat(-1));
    assert_eq!(values(&a.repeat(3).unwrap()), vec![1, 2, 1, 2, 1, 2]);
    let b = ints(&[1, 2, 3]);
    assert_eq!(b.repeat(i64::MAX).unwrap_err(), ArrayError::CannotRepeat(i64::MAX));
    assert_eq!(Array::new().repeat(5).unwrap().len(), 0);
}

#[test]
fn flatten_nested() {
    let inner = ints(&[3, 4]);
    let middle = Array::from_vec(vec![Value::Int(2), Value::Array(inner)]);
    let a = Array::from_vec(vec![Value::Int(1), Value::Array(middle), Value::Int(5)]);
    assert_eq!(values(&a.flatten()), vec![1, 2, 3, 4, 5]);
    assert_eq!(Array::new().flatten().len(), 0);
}

#[test]
fn rev_reverses() {
    assert_eq!(values(&ints(&[1, 2, 3]).rev()), vec![3, 2, 1]);
    assert_eq!(ints(&[]).rev().len(), 0);
}

#[test]
fn join_with_separators() {
    let a = ints(&[1, 2, 3]);
    let sep = Some(Value::Str(String::from(", ")));
    assert_eq!(a.join(sep.clone(), None, concat).unwrap(), Value::Str(String::from("1, 2, 3")));
    let last = Some(Value::Str(String::from(" and ")));
    assert_eq!(a.join(sep, last, concat).unwrap(), Value::Str(String::from("1, 2 and 3")));
    assert_eq!(Array::new().join(None, None, concat).unwrap(), Value::Absent);
    let nested = Array::from_vec(vec![Value::Int(1), Value::Array(ints(&[2]))]);
    assert_eq!(nested.join(None, None, concat).unwrap_err(), "cannot join arrays");
}

#[test]
fn map_rejects_three_parameters_without_calling() {
    let calls = Cell::new(0);
    let f = Func {
        argc: Some(3),
        span: span(),
        body: |_: Vec<Value>| -> Result<Value, SourceError> {
            calls.set(calls.get() + 1);
            Ok(Value::Absent)
        },
    };
    let e = ints(&[1, 2]).map(f).unwrap_err();
    assert_eq!(e.message, "function must have one or two parameters");
    assert_eq!(e.span, span());
    assert_eq!(calls.get(), 0);
}

#[test]
fn map_with_and_without_index() {
    let a = ints(&[5, 6]);
    let double = Func {
        argc: Some(1),
        span: span(),
        body: |args: Vec<Value>| match &args[0] {
            Value::Int(x) => Ok(Value::Int(2 * x)),
            _ => Err(SourceError { span: span(), message: String::from("not a number") }),
        },
    };
    assert_eq!(values(&a.map(double).unwrap()), vec![10, 12]);
    let indexed = Func {
        argc: Some(2),
        span: span(),
        body: |args: Vec<Value>| match (&args[0], &args[1]) {
            (Value::Int(i), Value::Int(x)) => Ok(Value::Int(10 * i + x)),
            _ => Err(SourceError { span: span(), message: String::from("bad") }),
        },
    };
    assert_eq!(values(&a.map(indexed).unwrap()), vec![5, 16]);
}

#[test]
fn any_and_all_stop_early() {
    let a = ints(&[1, 2, 3]);
    let calls = Cell::new(0);
    let f = Func {
        argc: Some(1),
        span: span(),
        body: |args: Vec<Value>| {
            calls.set(calls.get() + 1);
            is_two(args)
        },
    };
    assert_eq!(a.any(f).unwrap(), true);
    assert!(calls.get() <= 2);
    let calls = Cell::new(0);
    let g = Func {
        argc: Some(1),
        span: span(),
        body: |args: Vec<Value>| -> Result<Value, SourceError> {
            calls.set(calls.get() + 1);
            Ok(Value::Bool(args[0] != Value::Int(2)))
        },
    };
    assert_eq!(a.all(g).unwrap(), false);
    assert!(calls.get() <= 2);
}

#[test]
fn find_and_position_report_no_match() {
    let a = ints(&[1, 3, 5]);
    let f = || Func { argc: None, span: span(), body: is_two };
    assert_eq!(a.find(f()).unwrap(), None);
    assert_eq!(a.position(f()).unwrap(), None);
    let b = ints(&[1, 2, 2]);
    assert_eq!(b.find(f()).unwrap(), Some(Value::Int(2)));
    assert_eq!(b.position(f()).unwrap(), Some(1));
}

#[test]
fn filter_keeps_order() {
    let a = ints(&[2, 1, 2, 3]);
    let f = Func { argc: Some(1), span: span(), body: is_two };
    assert_eq!(values(&a.filter(f).unwrap()), vec![2, 2]);
}

#[test]
fn fold_accumulates_in_order() {
    let a = ints(&[1, 2, 3]);
    let f = Func {
        argc: Some(2),
        span: span(),
        body: |args: Vec<Value>| match (&args[0], &args[1]) {
            (Value::Int(acc), Value::Int(x)) => Ok(Value::Int(acc * 10 + x)),
            _ => Err(SourceError { span: span(), message: String::from("bad") }),
        },
    };
    assert_eq!(a.fold(Value::Int(0), f).unwrap(), Value::Int(123));
    let wrong = Func { argc: Some(1), span: span(), body: is_two };
    assert_eq!(a.fold(Value::Int(0), wrong).unwrap_err().message, "function must have exactly two parameters");
}

#[test]
fn arity_and_cast_errors() {
    let a = ints(&[1]);
    let two = Func { argc: Some(2), span: span(), body: is_two };
    assert_eq!(a.find(two).unwrap_err().message, "function must have exactly one parameter");
    let not_bool = Func {
        argc: Some(1),
        span: span(),
        body: |_: Vec<Value>| -> Result<Value, SourceError> { Ok(Value::Int(1)) },
    };
    let e = a.any(not_bool).unwrap_err();
    assert_eq!(e.message, "expected boolean, found integer");
    assert_eq!(e.span, span());
}

#[test]
fn callable_failure_propagates() {
    let a = ints(&[1, 2, 3]);
    let calls = Cell::new(0);
    let f = Func {
        argc: Some(1),
        span: span(),
        body: |args: Vec<Value>| {
            calls.set(calls.get() + 1);
            if args[0] == Value::Int(2) {
                Err(SourceError { span: Span { id: 99 }, message: String::from("boom") })
            } else {
                Ok(Value::Bool(false))
            }
        },
    };
    let e = a.filter(f).unwrap_err();
    assert_eq!(e.message, "boom");
    assert_eq!(e.span, Span { id: 99 });
    assert_eq!(calls.get(), 2);
}

#[test]
fn join_single_element_ignores_last_separator() {
    let a = ints(&[7]);
    let sep = Some(Value::Str(String::from(", ")));
    let last = Some(Value::Str(String::from(" and ")));
    assert_eq!(a.join(sep, last, concat).unwrap(), Value::Int(7));
    let b = ints(&[1, 2]);
    let last = Some(Value::Str(String::from(" and ")));
    assert_eq!(b.join(None, last, concat).unwrap(), Value::Str(String::from("1 and 2")));
}

#[test]
fn append_concatenates() {
    let mut a = ints(&[1, 2]);
    let b = ints(&[3]);
    a.append(b.clone());
    assert_eq!(values(&a), vec![1, 2, 3]);
    assert_eq!(values(&b), vec![3]);
}

#[test]
fn sorted_single_array_element_is_fine() {
    let a = Array::from_vec(vec![Value::Array(ints(&[2, 1]))]);
    assert_eq!(a.sorted().unwrap(), a);
    let b = Array::from_vec(vec![Value::Array(ints(&[1])), Value::Array(ints(&[1]))]);
    assert_eq!(b.sorted().unwrap_err(), ArrayError::CannotOrder(Kind::Array, Kind::Array));
}

#[test]
fn insert_at_negative_index() {
    let mut a = ints(&[1, 2, 3]);
    a.insert(-1, Value::Int(9)).unwrap();
    assert_eq!(values(&a), vec![1, 2, 9, 3]);
    assert_eq!(a.insert(-5, Value::Int(0)).unwrap_err(), ArrayError::OutOfBounds { index: -5, len: 4 });
}

#[test]
fn sorted_orders_strings_by_character() {
    let s = |x: &str| Value::Str(String::from(x));
    let a = Array::from_vec(vec![s("b"), s("é"), s("ab"), s("a"), s("")]);
    let expected = Array::from_vec(vec![s(""), s("a"), s("ab"), s("b"), s("é")]);
    assert_eq!(a.sorted().unwrap(), expected);
}
