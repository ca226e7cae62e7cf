use rllt::fabric::Fabric;
use rllt::value::{Erasable, Value};
use std::cell::Cell;
use std::rc::Rc;
use std::sync::atomic::{AtomicBool, Ordering};
use std::sync::Arc;

type Handlers = Fabric<Box<dyn Fn()>, Box<dyn Fn(Value) -> Value>>;

fn add_one(v: Value) -> Value {
    let x = i32::recover(v).expect("Failed to downcast argument");
    (x + 1).erase()
}

fn text_len(v: Value) -> Value {
    let s = String::recover(v).expect("Failed to downcast argument");
    (s.len() as i32).erase()
}

#[test]
fn test_add_and_execute_callback() {
    let mut fabric: Handlers = Fabric::new();
    let flag = Arc::new(AtomicBool::new(false));

    let flag_clone = flag.clone();
    fabric.add_callback(
        "test".to_string(),
        Box::new(move || {
            flag_clone.store(true, Ordering::SeqCst);
        }),
    );

    fabric.execute_callback("test");
    assert!(flag.load(Ordering::SeqCst));
}

#[test]
fn test_add_and_execute_callback_with_args() {
    let mut fabric: Handlers = Fabric::new();
    fabric.add_callback_with_args("test_with_args".to_string(), Box::new(add_one));

    let result: Option<i32> = fabric.execute_callback_with_args("test_with_args", 10);
    assert_eq!(result, Some(11));
}

#[test]
fn test_execute_all_callbacks() {
    let mut fabric: Handlers = Fabric::new();
    let counter = Arc::new(AtomicBool::new(false));

    let counter_clone = counter.clone();
    fabric.add_callback(
        "increment".to_string(),
        Box::new(move || {
            counter_clone.store(true, Ordering::SeqCst);
        }),
    );

    let counter_clone2 = counter.clone();
    fabric.add_callback(
        "increment_again".to_string(),
        Box::new(move || {
            counter_clone2.store(true, Ordering::SeqCst);
        }),
    );

    fabric.execute();
    assert!(counter.load(Ordering::SeqCst));
}

#[test]
fn test_remove_callback() {
    let mut fabric: Handlers = Fabric::new();
    let flag = Arc::new(AtomicBool::new(false));

    let flag_clone = flag.clone();
    fabric.add_callback(
        "test".to_string(),
        Box::new(move || {
            flag_clone.store(true, Ordering::SeqCst);
        }),
    );

    fabric.remove_callback("test");
    fabric.execute_callback("test");
    assert!(!flag.load(Ordering::SeqCst));
}

#[test]
fn test_execute_callback_with_wrong_type() {
    let mut fabric: Handlers = Fabric::new();
    fabric.add_callback_with_args("test_with_args".to_string(), Box::new(add_one));

    let result: Option<String> = fabric.execute_callback_with_args("test_with_args", 10);
    assert!(result.is_none());
}

#[test]
fn test_add_and_execute_multiple_callbacks_with_args() {
    let mut fabric: Handlers = Fabric::new();
    fabric.add_callback_with_args("callback1".to_string(), Box::new(add_one));
    fabric.add_callback_with_args("callback2".to_string(), Box::new(text_len));

    let result1: Option<i32> = fabric.execute_callback_with_args("callback1", 10);
    let result2: Option<i32> = fabric.execute_callback_with_args("callback2", "Hello".to_string());

    println!("Result of callback2: {:?}", result2);

    assert_eq!(result1, Some(11));
    assert_eq!(result2, Some(5));
}

#[test]
fn unregistered_names_give_nothing() {
    let fabric: Handlers = Fabric::new();
    fabric.execute_callback("missing");
    fabric.execute();
    let result: Option<i32> = fabric.execute_callback_with_args("missing", 3);
    assert_eq!(result, None);
}

#[test]
fn second_registration_replaces_first() {
    let mut fabric: Handlers = Fabric::new();
    let hits = Rc::new(Cell::new(0));
    let first = hits.clone();
    fabric.add_callback("n".to_string(), Box::new(move || first.set(first.get() + 1)));
    let second = hits.clone();
    fabric.add_callback("n".to_string(), Box::new(move || second.set(second.get() + 100)));
    fabric.execute_callback("n");
    fabric.execute();
    assert_eq!(hits.get(), 200);
}

#[test]
fn removed_argument_handler_gives_nothing() {
    let mut fabric: Handlers = Fabric::new();
    fabric.add_callback_with_args("n".to_string(), Box::new(add_one));
    fabric.remove_callback("n");
    let result: Option<i32> = fabric.execute_callback_with_args("n", 1);
    assert_eq!(result, None);
    fabric.remove_callback("n");
}

#[test]
fn namespaces_are_independent() {
    let mut fabric: Handlers = Fabric::new();
    let hits = Rc::new(Cell::new(0));
    let h = hits.clone();
    fabric.add_callback("n".to_string(), Box::new(move || h.set(h.get() + 1)));
    fabric.add_callback_with_args("n".to_string(), Box::new(add_one));

    fabric.execute_callback("n");
    let result: Option<i32> = fabric.execute_callback_with_args("n", 41);
    assert_eq!(hits.get(), 1);
    assert_eq!(result, Some(42));

    fabric.remove_callback("n");
    fabric.execute_callback("n");
    let result: Option<i32> = fabric.execute_callback_with_args("n", 41);
    assert_eq!(hits.get(), 1);
    assert_eq!(result, None);
}

#[test]
fn wrong_result_type_gives_nothing() {
    let mut fabric: Handlers = Fabric::new();
    fabric.add_callback_with_args("len".to_string(), Box::new(text_len));
    let as_long: Option<i64> = fabric.execute_callback_with_args("len", "abc".to_string());
    let as_bool: Option<bool> = fabric.execute_callback_with_args("len", "abc".to_string());
    let as_int: Option<i32> = fabric.execute_callback_with_args("len", "abc".to_string());
    assert_eq!(as_long, None);
    assert_eq!(as_bool, None);
    assert_eq!(as_int, Some(3));
}

#[test]
fn erased_values_recover_only_as_their_type() {
    assert_eq!(i32::recover(7i32.erase()), Some(7));
    assert_eq!(i64::recover(7i32.erase()), None);
    assert_eq!(String::recover("x".to_string().erase()), Some("x".to_string()));
    assert_eq!(bool::recover(().erase()), None);
    assert_eq!(<()>::recover(().erase()), Some(()));
    assert_eq!(i64::recover(9i64.erase()), Some(9));
    assert_eq!(bool::recover(true.erase()), Some(true));
}
