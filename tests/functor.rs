use rllt::functor::F;
use rllt::signature::{Kwargs, Signature};
use rllt::value::Value;
use std::cell::Cell;

fn int_of(v: &Value) -> i32 {
    match v {
        Value::Int(i) => *i,
        Value::Text(s) => s.parse::<i32>().unwrap(),
        other => panic!("not a number: {:?}", other),
    }
}

fn add_one(args: Vec<Value>, _: Kwargs) -> String {
    (int_of(&args[0]) + 1).to_string()
}

fn multiply(args: Vec<Value>, kwargs: Kwargs) -> String {
    let factor = kwargs.get(&"factor".to_string()).unwrap().parse::<i32>().unwrap();
    (int_of(&args[0]) * factor).to_string()
}

fn double(args: Vec<Value>, _: Kwargs) -> String {
    (int_of(&args[0]) * 2).to_string()
}

fn square(args: Vec<Value>, _: Kwargs) -> String {
    (int_of(&args[0]) * int_of(&args[0])).to_string()
}

fn is_even(args: Vec<Value>, _: Kwargs) -> bool {
    int_of(&args[0]) % 2 == 0
}

fn kw(pairs: &[(&str, &str)]) -> Kwargs {
    let mut k = Kwargs::new();
    for (a, b) in pairs {
        k.insert(a.to_string(), b.to_string());
    }
    k
}

#[test]
fn test_call() {
    let mut f = F::new(add_one, vec![Value::Int(1)], Kwargs::new());
    assert_eq!(f.call(vec![], Kwargs::new()), "2");
}

#[test]
fn test_chain() {
    let mut f = F::new(add_one, vec![Value::Int(1)], Kwargs::new());
    let chained = f.chain(double);
    assert_eq!(chained, "4");
}

#[test]
fn test_map() {
    let mut f = F::new(add_one, vec![Value::Int(1)], Kwargs::new());
    let mapped = f.map(square);
    assert_eq!(mapped, "4");
}

#[test]
fn test_filter() {
    let mut f = F::new(add_one, vec![Value::Int(1)], Kwargs::new());
    let filtered = f.filter(is_even);
    assert_eq!(filtered, None);
}

#[test]
fn test_curry() {
    let f = F::new(add_one, vec![Value::Int(1)], Kwargs::new());
    let mut curried = f.curry(vec![], Kwargs::new());
    assert_eq!(curried.call(vec![], Kwargs::new()), "2");
}

#[test]
fn test_transform_args() {
    let f = F::new(add_one, vec![Value::Int(1)], Kwargs::new());
    let mut transformed = f.transform_args(|args: Vec<Value>, _: Kwargs| {
        Signature::new(vec![Value::Int(int_of(&args[0]) * 2)], Kwargs::new())
    });
    let result = transformed.call(vec![], Kwargs::new());
    assert_eq!(result.args, vec![Value::Int(4)]);
}

#[test]
fn test_clear_cache() {
    let mut f = F::new(add_one, vec![Value::Int(1)], Kwargs::new());
    f.call(vec![], Kwargs::new());
    assert!(!f.is_cache_empty());
    f.clear_cache();
    assert!(f.is_cache_empty());
}

#[test]
fn repeated_call_invokes_once() {
    let count = Cell::new(0);
    let counted = |args: Vec<Value>, k: Kwargs| {
        count.set(count.get() + 1);
        multiply(args, k)
    };
    let mut f = F::new(counted, vec![Value::Int(3)], kw(&[("factor", "5")]));
    assert_eq!(f.call(vec![], kw(&[("x", "1"), ("y", "2")])), "15");
    assert_eq!(f.call(vec![], kw(&[("y", "2"), ("x", "1")])), "15");
    assert_eq!(count.get(), 1);
    assert_eq!(f.call(vec![], kw(&[("factor", "7")])), "21");
    assert_eq!(count.get(), 2);
}

#[test]
fn clear_cache_recomputes() {
    let count = Cell::new(0);
    let counted = |args: Vec<Value>, k: Kwargs| {
        count.set(count.get() + 1);
        add_one(args, k)
    };
    let mut f = F::new(counted, vec![Value::Int(1)], Kwargs::new());
    assert_eq!(f.call(vec![], Kwargs::new()), "2");
    f.clear_cache();
    assert_eq!(f.call(vec![], Kwargs::new()), "2");
    assert_eq!(count.get(), 2);
}

#[test]
fn call_arguments_follow_bound_ones() {
    let mut f = F::new(
        |args: Vec<Value>, _: Kwargs| args.iter().map(int_of).sum::<i32>().to_string(),
        vec![Value::Int(1), Value::Int(2)],
        Kwargs::new(),
    );
    assert_eq!(f.call(vec![Value::Int(10)], Kwargs::new()), "13");
    assert_eq!(f.call(vec![Value::Text("4".to_string())], Kwargs::new()), "7");
}

#[test]
fn call_keywords_override_bound_ones() {
    let mut f = F::new(multiply, vec![Value::Int(2)], kw(&[("factor", "3")]));
    assert_eq!(f.call(vec![], Kwargs::new()), "6");
    assert_eq!(f.call(vec![], kw(&[("factor", "10")])), "20");
}

#[test]
fn filter_keeps_accepted_signature() {
    let mut f = F::new(add_one, vec![Value::Int(4)], Kwargs::new());
    assert_eq!(f.filter(is_even), Some("5".to_string()));
    assert!(!f.is_cache_empty());
}

#[test]
fn rejected_filter_leaves_cache_alone() {
    let mut f = F::new(add_one, vec![Value::Int(1)], Kwargs::new());
    assert_eq!(f.filter(is_even), None);
    assert!(f.is_cache_empty());
}

#[test]
fn chain_feeds_result_as_text() {
    let mut f = F::new(add_one, vec![Value::Int(6)], Kwargs::new());
    let described = f.chain(|args: Vec<Value>, _: Kwargs| match &args[0] {
        Value::Text(s) => format!("<{}>", s),
        other => format!("{:?}", other),
    });
    assert_eq!(described, "<7>");
}

#[test]
fn reduce_copies_the_functor() {
    let mut f = F::new(add_one, vec![Value::Int(9)], Kwargs::new());
    f.call(vec![], Kwargs::new());
    let mut copy = f.reduce(|_: Vec<Value>, _: Kwargs, _: Option<String>| String::new(), None);
    assert!(!copy.is_cache_empty());
    assert_eq!(copy.call(vec![], Kwargs::new()), "10");
}

#[test]
fn keyword_mappings_compare_by_contents() {
    let a = kw(&[("a", "1"), ("b", "2")]);
    let b = kw(&[("b", "2"), ("a", "1")]);
    let c = kw(&[("a", "1"), ("b", "3")]);
    let d = kw(&[("a", "1")]);
    assert!(a.same(&b));
    assert!(!a.same(&c));
    assert!(!a.same(&d));
    assert!(!d.same(&a));
}

#[test]
fn functors_compare_by_bindings() {
    let mut a = F::new(multiply, vec![Value::Int(2)], kw(&[("factor", "3")]));
    let b = F::new(multiply, vec![Value::Int(2)], kw(&[("factor", "3")]));
    let c = F::new(multiply, vec![Value::Int(2)], kw(&[("factor", "4")]));
    let d = F::new(multiply, vec![Value::Int(5)], kw(&[("factor", "3")]));
    a.call(vec![], Kwargs::new());
    assert!(a.same_bindings(&b));
    assert!(!a.same_bindings(&c));
    assert!(!a.same_bindings(&d));
}
