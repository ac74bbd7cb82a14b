use doji::heap::{Heap, Object};
use doji::value::Value;

#[test]
fn simple() {
    let mut heap = Heap::new();
    let root = heap.allocate(Object::String("42".to_string()));

    heap.collect(&vec![root]);
    assert!(heap.is_live(root));

    heap.collect(&vec![]);
    assert!(!heap.is_live(root));
}

#[test]
fn composite() {
    let mut heap = Heap::new();

    let foo = heap.allocate(Object::List(vec![Value::Int(42)]));
    let bar = heap.allocate(Object::List(vec![Value::Int(43)]));
    let root = heap.allocate(Object::List(vec![Value::List(foo), Value::List(bar)]));

    heap.collect(&vec![root]);
    assert!(heap.is_live(root));
    assert!(heap.is_live(foo));
    assert!(heap.is_live(bar));

    heap.collect(&vec![]);
    assert!(!heap.is_live(root));
    assert!(!heap.is_live(foo));
    assert!(!heap.is_live(bar));
}

#[test]
fn cyclic() {
    let mut heap = Heap::new();

    let none = heap.allocate(Object::List(vec![]));
    let first = heap.allocate(Object::List(vec![Value::List(none)]));
    let second = heap.allocate(Object::List(vec![Value::List(first)]));
    heap.put(first, Object::List(vec![Value::List(second)]));

    heap.collect(&vec![first, second]);
    assert!(heap.is_live(first));
    assert!(heap.is_live(second));
    assert!(!heap.is_live(none));

    heap.collect(&vec![second]);
    assert!(heap.is_live(first));
    assert!(heap.is_live(second));

    heap.collect(&vec![]);
    assert!(!heap.is_live(first));
    assert!(!heap.is_live(second));
}
