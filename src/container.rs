//! Equality of values and indexed access to lists and maps.
use vstd::prelude::*;

use crate::error::RuntimeErrorKind;
use crate::fiber::{keeps_fibers, keeps_open_slots, open_slot};
use crate::heap::{Heap, Object};
use crate::ops::{float_operand, float_unit_total, is_wrong_type, wrong_type, FloatOp};
use crate::value::{Value, ValueType};

verus! {

/// The content of the string under `h`, if `h` holds a live string.
pub open spec fn string_at(slots: Seq<Option<Object>>, h: usize) -> Option<Seq<char>> {
    if h < slots.len() {
        match slots[h as int] {
            Some(Object::String(s)) => Some(s@),
            _ => None,
        }
    } else {
        None
    }
}

/// Two strings are the same key when they are one object or have the same
/// content; every other key is itself (a float by its bit pattern).
pub open spec fn same_key(slots: Seq<Option<Object>>, a: Value, b: Value) -> bool {
    match (a, b) {
        (Value::String(x), Value::String(y)) => x == y || (string_at(slots, x) is Some && string_at(
            slots,
            x,
        ) == string_at(slots, y)),
        _ => a == b,
    }
}

/// Program-visible equality, on every pair of values but the ones that need
/// the float unit: immediates by value, strings by content, every other heap
/// object by identity, and values of different kinds are unequal.
pub open spec fn equal_without_floats(slots: Seq<Option<Object>>, a: Value, b: Value) -> bool {
    match (a, b) {
        (Value::String(_), Value::String(_)) => same_key(slots, a, b),
        _ => a == b,
    }
}

pub open spec fn needs_float_unit(a: Value, b: Value) -> bool {
    (a is Float && (b is Float || b is Int)) || (a is Int && b is Float)
}

fn same_string(heap: &Heap, x: usize, y: usize) -> (r: bool)
    ensures
        r == same_key(heap.view(), Value::String(x), Value::String(y)),
{
    if x == y {
        return true;
    }
    match (heap.get(x), heap.get(y)) {
        (Some(Object::String(s)), Some(Object::String(t))) => *s == *t,
        _ => false,
    }
}

/// Whether `a` and `b` are the same map key.
pub fn key_equal(heap: &Heap, a: Value, b: Value) -> (r: bool)
    ensures
        r == same_key(heap.view(), a, b),
{
    match (a, b) {
        (Value::String(x), Value::String(y)) => same_string(heap, x, y),
        _ => a == b,
    }
}

/// What `a == b` gives: the float unit decides when a float is involved with
/// a number; otherwise `equal_without_floats`.
pub open spec fn equal_spec<F: Fn(FloatOp, u64, u64) -> u64>(heap: &Heap, a: Value, b: Value, floats: &F, r: bool) -> bool {
    &&& !needs_float_unit(a, b) ==> r == equal_without_floats(heap.view(), a, b)
    &&& needs_float_unit(a, b) ==> exists|fa: u64, fb: u64, z: u64|
        float_operand(floats, a, fa) && float_operand(floats, b, fb) && #[trigger] floats.ensures((FloatOp::Eq, fa, fb), z)
            && r == (z != 0)
}

/// `a == b` as programs see it. Integers and floats compare numerically
/// across kinds, and floats through the float unit.
pub fn values_equal<F: Fn(FloatOp, u64, u64) -> u64>(heap: &Heap, a: Value, b: Value, floats: &F) -> (r: bool)
    requires
        float_unit_total(floats),
    ensures
        equal_spec(heap, a, b, floats, r),
{
    match (a, b) {
        (Value::Float(x), Value::Float(y)) => {
            let z = floats(FloatOp::Eq, x, y);
            z != 0
        },
        (Value::Int(i), Value::Float(y)) => {
            let x = floats(FloatOp::FromInt, i as u64, 0u64);
            let z = floats(FloatOp::Eq, x, y);
            assert(float_operand(floats, a, x));
            z != 0
        },
        (Value::Float(x), Value::Int(j)) => {
            let y = floats(FloatOp::FromInt, j as u64, 0u64);
            let z = floats(FloatOp::Eq, x, y);
            assert(float_operand(floats, b, y));
            z != 0
        },
        (Value::String(x), Value::String(y)) => same_string(heap, x, y),
        _ => a == b,
    }
}

/// `i` is the first position of `key` among the keys of `pairs`.
pub open spec fn first_key_at(slots: Seq<Option<Object>>, pairs: Seq<(Value, Value)>, key: Value, i: int) -> bool {
    &&& 0 <= i < pairs.len()
    &&& same_key(slots, pairs[i].0, key)
    &&& forall|j: int| 0 <= j < i ==> !same_key(slots, #[trigger] pairs[j].0, key)
}

pub open spec fn has_key(slots: Seq<Option<Object>>, pairs: Seq<(Value, Value)>, key: Value) -> bool {
    exists|i: int| 0 <= i < pairs.len() && same_key(slots, #[trigger] pairs[i].0, key)
}

/// `r` is what a map with entries `pairs` holds under `key`: the value of
/// its first entry with that key, or nil.
pub open spec fn map_lookup(slots: Seq<Option<Object>>, pairs: Seq<(Value, Value)>, key: Value, r: Value) -> bool {
    &&& forall|i: int| #[trigger] first_key_at(slots, pairs, key, i) ==> r == pairs[i].1
    &&& !has_key(slots, pairs, key) ==> r == Value::Nil
}

/// `after` is the entries `pairs` with `key` set to `v`: the first entry with
/// that key gets the new value, or the pair is appended.
pub open spec fn map_store(
    slots: Seq<Option<Object>>,
    pairs: Seq<(Value, Value)>,
    key: Value,
    v: Value,
    after: Seq<(Value, Value)>,
) -> bool {
    &&& forall|i: int| #[trigger] first_key_at(slots, pairs, key, i) ==> after == pairs.update(i, (pairs[i].0, v))
    &&& !has_key(slots, pairs, key) ==> after == pairs.push((key, v))
}

/// The position of the first entry with `key`.
fn find_key(heap: &Heap, pairs: &Vec<(Value, Value)>, key: Value) -> (r: Option<usize>)
    ensures
        r matches Some(i) ==> first_key_at(heap.view(), pairs@, key, i as int),
        r is None ==> !has_key(heap.view(), pairs@, key),
{
    let mut i: usize = 0;
    while i < pairs.len()
        invariant
            i <= pairs@.len(),
            forall|j: int| 0 <= j < i ==> !same_key(heap.view(), #[trigger] pairs@[j].0, key),
        decreases pairs@.len() - i,
    {
        if key_equal(heap, pairs[i].0, key) {
            return Some(i);
        }
        i = i + 1;
    }
    None
}

/// The list `items` after writing `v` at `k`: past the end, the list is
/// first filled with nil up to `k`.
pub open spec fn list_store(items: Seq<Value>, k: nat, v: Value) -> Seq<Value> {
    if k < items.len() {
        items.update(k as int, v)
    } else {
        items + Seq::new((k - items.len()) as nat, |i: int| Value::Nil) + seq![v]
    }
}

/// What reading position `key` of a list with `items` gives.
pub open spec fn list_get_result(items: Seq<Value>, key: Value, r: Result<Value, RuntimeErrorKind>) -> bool {
    match key {
        Value::Int(k) => r == Ok::<Value, RuntimeErrorKind>(
            if 0 <= k < items.len() { items[k as int] } else { Value::Nil },
        ),
        _ => r is Err && is_wrong_type(r->Err_0, seq![ValueType::Int], key.spec_ty()),
    }
}

/// What reading `container[key]` gives: for a list, its element (nil out of
/// range); for a map, its entry (nil when missing); anything else is a type
/// error.
pub open spec fn get_result(heap: &Heap, container: Value, key: Value, r: Result<Value, RuntimeErrorKind>) -> bool {
    &&& container is List && heap.spec_live(container->List_0) && heap.spec_object(container->List_0) is List
        ==> list_get_result(heap.spec_object(container->List_0)->List_0@, key, r)
    &&& container is Dict && heap.spec_live(container->Dict_0) && heap.spec_object(container->Dict_0) is Dict
        ==> r is Ok && map_lookup(heap.view(), heap.spec_object(container->Dict_0)->Dict_0@, key, r->Ok_0)
    &&& container is List && !(heap.spec_live(container->List_0) && heap.spec_object(container->List_0) is List)
        ==> r == Ok::<Value, RuntimeErrorKind>(Value::Nil)
    &&& container is Dict && !(heap.spec_live(container->Dict_0) && heap.spec_object(container->Dict_0) is Dict)
        ==> r == Ok::<Value, RuntimeErrorKind>(Value::Nil)
    &&& !(container is List || container is Dict) ==> (r matches Err(e) && is_wrong_type(
        e,
        seq![ValueType::List, ValueType::Dict],
        container.spec_ty(),
    ))
}

/// `container[key]`: a list element (nil out of range) or a map entry (nil
/// when missing).
pub fn get(heap: &Heap, container: Value, key: Value) -> (r: Result<Value, RuntimeErrorKind>)
    ensures
        get_result(heap, container, key, r),
{
    match container {
        Value::List(h) => match heap.get(h) {
            Some(Object::List(items)) => match key {
                Value::Int(k) => {
                    if 0 <= k && (k as u64) < (items.len() as u64) {
                        Ok(items[k as usize])
                    } else {
                        Ok(Value::Nil)
                    }
                },
                _ => {
                    let e = wrong_type(&[ValueType::Int], key.ty());
                    assert(e->InvalidType_expected@ =~= seq![ValueType::Int]);
                    Err(e)
                },
            },
            _ => Ok(Value::Nil),
        },
        Value::Dict(h) => match heap.get(h) {
            Some(Object::Dict(pairs)) => match find_key(heap, pairs, key) {
                Some(i) => Ok(pairs[i].1),
                None => Ok(Value::Nil),
            },
            _ => Ok(Value::Nil),
        },
        _ => {
            let e = wrong_type(&[ValueType::List, ValueType::Dict], container.ty());
            assert(e->InvalidType_expected@ =~= seq![ValueType::List, ValueType::Dict]);
            Err(e)
        },
    }
}

/// No two entries of `pairs` have the same key.
pub open spec fn keys_unique(slots: Seq<Option<Object>>, pairs: Seq<(Value, Value)>) -> bool {
    forall|i: int, j: int| 0 <= i < j < pairs.len() ==> !same_key(slots, #[trigger] pairs[i].0, #[trigger] pairs[j].0)
}

/// What writing `container[key] = v` does: `heap2` is the heap afterwards
/// and `r` the outcome.
pub open spec fn set_result(heap: &Heap, heap2: &Heap, container: Value, key: Value, v: Value, r: Result<(), RuntimeErrorKind>) -> bool {
    &&& heap2.view().len() == heap.view().len()
    &&& keeps_open_slots(heap, heap2)
    &&& keeps_fibers(heap, heap2)
    &&& r is Err ==> heap2.view() == heap.view()
    &&& container is List && heap.spec_live(container->List_0) && heap.spec_object(container->List_0) is List
        ==> match key {
        Value::Int(k) => if 0 <= k <= usize::MAX {
            &&& r is Ok
            &&& forall|x: usize| x != container->List_0 && x < heap.view().len() ==> #[trigger] heap2.view()[x as int] == heap.view()[x as int]
            &&& heap2.spec_live(container->List_0)
            &&& heap2.spec_object(container->List_0) is List
            &&& heap2.spec_object(container->List_0)->List_0@ == list_store(
                heap.spec_object(container->List_0)->List_0@,
                k as nat,
                v,
            )
        } else {
            r == Err::<(), RuntimeErrorKind>(RuntimeErrorKind::IndexOutOfRange)
        },
        _ => r is Err && is_wrong_type(r->Err_0, seq![ValueType::Int], key.spec_ty()),
    }
    &&& container is Dict && heap.spec_live(container->Dict_0) && heap.spec_object(container->Dict_0) is Dict ==> {
        &&& r is Ok
        &&& forall|x: usize| x != container->Dict_0 && x < heap.view().len() ==> #[trigger] heap2.view()[x as int] == heap.view()[x as int]
        &&& heap2.spec_live(container->Dict_0)
        &&& heap2.spec_object(container->Dict_0) is Dict
        &&& map_store(
            heap.view(),
            heap.spec_object(container->Dict_0)->Dict_0@,
            key,
            v,
            heap2.spec_object(container->Dict_0)->Dict_0@,
        )
        &&& keys_unique(heap.view(), heap.spec_object(container->Dict_0)->Dict_0@) ==> keys_unique(
            heap2.view(),
            heap2.spec_object(container->Dict_0)->Dict_0@,
        )
    }
    &&& container is List && !(heap.spec_live(container->List_0) && heap.spec_object(container->List_0) is List)
        && key is Int && 0 <= key->Int_0 <= usize::MAX ==> r is Ok && heap2.view() == heap.view()
    &&& container is Dict && !(heap.spec_live(container->Dict_0) && heap.spec_object(container->Dict_0) is Dict)
        ==> r is Ok && heap2.view() == heap.view()
    &&& !(container is List || container is Dict) ==> r is Err && is_wrong_type(
        r->Err_0,
        seq![ValueType::List, ValueType::Dict],
        container.spec_ty(),
    )
}

/// `container[key] = v`: a list is extended with nil up to `key` when
/// needed; a map entry is inserted or overwritten.
pub fn set(heap: &mut Heap, container: Value, key: Value, v: Value) -> (r: Result<(), RuntimeErrorKind>)
    ensures
        set_result(old(heap), final(heap), container, key, v, r),
{
    match container {
        Value::List(h) => {
            let k = match key {
                Value::Int(k) => k,
                _ => {
                    let e = wrong_type(&[ValueType::Int], key.ty());
                    assert(e->InvalidType_expected@ =~= seq![ValueType::Int]);
                    return Err(e);
                },
            };
            if k < 0 || (k as u64) > (usize::MAX as u64) {
                return Err(RuntimeErrorKind::IndexOutOfRange);
            }
            match heap.take(h) {
                Some(Object::List(items)) => {
                    let mut items = items;
                    let ghost old_items = items@;
                    let k = k as usize;
                    if k < items.len() {
                        items.set(k, v);
                    } else {
                        while items.len() < k
                            invariant
                                old_items.len() <= items@.len() <= k,
                                items@ == old_items + Seq::new((items@.len() - old_items.len()) as nat, |i: int| Value::Nil),
                            decreases k - items@.len(),
                        {
                            let ghost before = items@;
                            items.push(Value::Nil);
                            assert(items@ =~= old_items + Seq::new((items@.len() - old_items.len()) as nat, |i: int| Value::Nil));
                        }
                        items.push(v);
                    }
                    assert(items@ =~= list_store(old_items, k as nat, v));
                    heap.put(h, Object::List(items));
                    assert(heap.view() =~= old(heap).view().update(h as int, Some(Object::List(items))));
                    proof {
                        assert forall|x: usize| #[trigger] old(heap).spec_live(x) && old(heap).spec_object(x) is Fiber implies heap.spec_live(x)
                            && heap.spec_object(x) is Fiber by {
                            if x != h {
                                assert(heap.view()[x as int] == old(heap).view()[x as int]);
                            }
                        }
                        assert forall|x: usize, m: usize| x < old(heap).view().len() implies (#[trigger] open_slot(heap, x, m)) is None
                            || open_slot(heap, x, m) == open_slot(old(heap), x, m) by {
                            if x != h {
                                assert(heap.view()[x as int] == old(heap).view()[x as int]);
                            }
                        }
                    }
                    Ok(())
                },
                Some(o) => {
                    heap.put(h, o);
                    assert(heap.view() =~= old(heap).view());
                    Ok(())
                },
                None => Ok(()),
            }
        },
        Value::Dict(h) => {
            let found = match heap.get(h) {
                Some(Object::Dict(pairs)) => find_key(heap, pairs, key),
                _ => None,
            };
            match heap.take(h) {
                Some(Object::Dict(pairs)) => {
                    let mut pairs = pairs;
                    match found {
                        Some(i) => {
                            let k = pairs[i].0;
                            pairs.set(i, (k, v));
                        },
                        None => {
                            pairs.push((key, v));
                        },
                    }
                    heap.put(h, Object::Dict(pairs));
                    assert(heap.view() =~= old(heap).view().update(h as int, Some(Object::Dict(pairs))));
                    proof {
                        assert forall|x: usize| #[trigger] old(heap).spec_live(x) && old(heap).spec_object(x) is Fiber implies heap.spec_live(x)
                            && heap.spec_object(x) is Fiber by {
                            if x != h {
                                assert(heap.view()[x as int] == old(heap).view()[x as int]);
                            }
                        }
                        assert forall|x: usize, m: usize| x < old(heap).view().len() implies (#[trigger] open_slot(heap, x, m)) is None
                            || open_slot(heap, x, m) == open_slot(old(heap), x, m) by {
                            if x != h {
                                assert(heap.view()[x as int] == old(heap).view()[x as int]);
                            }
                        }
                    }
                    proof {
                        let before = old(heap).spec_object(h)->Dict_0@;
                        assert forall|i: int| #[trigger] first_key_at(old(heap).view(), before, key, i) implies pairs@ == before.update(i, (before[i].0, v)) by {
                            if found is None {
                                assert(same_key(old(heap).view(), before[i].0, key));
                            } else {
                                let f = found->Some_0 as int;
                                if f < i {
                                    assert(!same_key(old(heap).view(), before[f].0, key));
                                } else if i < f {
                                    assert(!same_key(old(heap).view(), before[i].0, key));
                                }
                                assert(pairs@ =~= before.update(i, (before[i].0, v)));
                            }
                        }
                        if !has_key(old(heap).view(), before, key) {
                            if found is Some {
                                let f = found->Some_0 as int;
                                assert(same_key(old(heap).view(), before[f].0, key));
                            }
                        }
                        assert forall|x: usize| string_at(heap.view(), x) == string_at(old(heap).view(), x) by {
                            if x != h && x < old(heap).view().len() {
                                assert(heap.view()[x as int] == old(heap).view()[x as int]);
                            }
                        }
                        assert forall|a: Value, b: Value| same_key(heap.view(), a, b) == same_key(old(heap).view(), a, b) by {
                            match (a, b) {
                                (Value::String(x), Value::String(y)) => {
                                    assert(string_at(heap.view(), x) == string_at(old(heap).view(), x));
                                    assert(string_at(heap.view(), y) == string_at(old(heap).view(), y));
                                },
                                _ => {},
                            }
                        }
                        if keys_unique(old(heap).view(), before) {
                            assert forall|i: int, j: int| 0 <= i < j < pairs@.len() implies !same_key(heap.view(), #[trigger] pairs@[i].0, #[trigger] pairs@[j].0) by {
                                assert(same_key(heap.view(), pairs@[i].0, pairs@[j].0) == same_key(old(heap).view(), pairs@[i].0, pairs@[j].0));
                                if j < before.len() {
                                    assert(pairs@[i].0 == before[i].0 && pairs@[j].0 == before[j].0);
                                } else {
                                    assert(found is None);
                                    assert(pairs@[j].0 == key);
                                    assert(pairs@[i].0 == before[i].0);
                                }
                            }
                        }
                    }
                    Ok(())
                },
                Some(o) => {
                    heap.put(h, o);
                    assert(heap.view() =~= old(heap).view());
                    Ok(())
                },
                None => Ok(()),
            }
        },
        _ => {
            let e = wrong_type(&[ValueType::List, ValueType::Dict], container.ty());
            assert(e->InvalidType_expected@ =~= seq![ValueType::List, ValueType::Dict]);
            Err(e)
        },
    }
}

} // verus!
