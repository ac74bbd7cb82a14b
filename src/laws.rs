//! Laws that relate the operations of the core.
use vstd::prelude::*;

use crate::container::{
    equal_without_floats, first_key_at, has_key, list_store, map_lookup, map_store, needs_float_unit, same_key, string_at,
};
use crate::engine::Engine;
use crate::compile::code_is;
use crate::error::{Error, RuntimeErrorKind};
use crate::fiber::{fetch, fiber_steps, gets, loads_upvalue, sets, stores_upvalue, fiber_upvalues, open_slot, open_unique, running_function, Fiber, FiberStep};
use crate::function::{Constant, Program};
use crate::opcode;
use crate::ops::{is_wrong_type, FloatOp};
use crate::state::{scheduled, state_steps, state_wakes, Id, State, Step};
use crate::value::ValueType;
use crate::heap::{is_path, reachable, Heap, Object, Upvalue};
use crate::ops::{int_arith, ArithOp};
use crate::value::Value;

verus! {

/// Integer addition, subtraction and multiplication give the exact result
/// whenever it fits in 64 bits.
pub proof fn lemma_int_arith_exact(x: i64, y: i64)
    ensures
        i64::MIN <= x + y <= i64::MAX ==> int_arith(ArithOp::Add, x, y) == Some((x + y) as i64),
        i64::MIN <= x - y <= i64::MAX ==> int_arith(ArithOp::Sub, x, y) == Some((x - y) as i64),
        i64::MIN <= x * y <= i64::MAX ==> int_arith(ArithOp::Mul, x, y) == Some((x * y) as i64),
{
    if i64::MIN <= x * y <= i64::MAX {
        assert((x * y) % 0x1_0000_0000_0000_0000 == if x * y >= 0 { x * y } else { x * y + 0x1_0000_0000_0000_0000 }) by (nonlinear_arith)
            requires
                i64::MIN <= x * y <= i64::MAX,
        ;
    }
}

/// Every value that needs no float comparison equals itself.
pub proof fn lemma_equality_reflexive(slots: Seq<Option<Object>>, v: Value)
    requires
        !needs_float_unit(v, v),
    ensures
        equal_without_floats(slots, v, v),
{
}

/// Lists, maps, closures, fibers and errors are equal exactly when they are
/// the same object.
pub proof fn lemma_identity_equality(slots: Seq<Option<Object>>, a: Value, b: Value)
    requires
        a is List || a is Dict || a is Closure || a is Fiber || a is Error,
    ensures
        equal_without_floats(slots, a, b) <==> (b.spec_ty() == a.spec_ty() && b.spec_handle() == a.spec_handle()),
{
}

/// Writing past the end of a list makes it one longer than the index, with
/// nil in every slot in between.
pub proof fn lemma_list_store_extends(items: Seq<Value>, k: nat, v: Value)
    requires
        k >= items.len(),
    ensures
        list_store(items, k, v).len() == k + 1,
        list_store(items, k, v)[k as int] == v,
        forall|i: int| 0 <= i < items.len() ==> #[trigger] list_store(items, k, v)[i] == items[i],
        forall|i: int| items.len() <= i < k ==> #[trigger] list_store(items, k, v)[i] == Value::Nil,
{
}

proof fn lemma_lookup_after_store(slots: Seq<Option<Object>>, pairs: Seq<(Value, Value)>, key: Value, v: Value, after: Seq<(Value, Value)>, r: Value)
    requires
        map_store(slots, pairs, key, v, after),
        map_lookup(slots, after, key, r),
    ensures
        r == v,
{
    assert(same_key(slots, key, key));
    if exists|i: int| 0 <= i < pairs.len() && same_key(slots, #[trigger] pairs[i].0, key) {
        let i = choose|i: int| 0 <= i < pairs.len() && same_key(slots, #[trigger] pairs[i].0, key);
        lemma_first_key_exists(slots, pairs, key, i);
        let f = choose|f: int| crate::container::first_key_at(slots, pairs, key, f);
        assert(after == pairs.update(f, (pairs[f].0, v)));
        assert(crate::container::first_key_at(slots, after, key, f));
    } else {
        assert(after == pairs.push((key, v)));
        let n = pairs.len() as int;
        assert(crate::container::first_key_at(slots, after, key, n));
    }
}

proof fn lemma_first_key_exists(slots: Seq<Option<Object>>, pairs: Seq<(Value, Value)>, key: Value, i: int)
    requires
        0 <= i < pairs.len(),
        same_key(slots, pairs[i].0, key),
    ensures
        exists|f: int| crate::container::first_key_at(slots, pairs, key, f),
    decreases i,
{
    if exists|j: int| 0 <= j < i && same_key(slots, #[trigger] pairs[j].0, key) {
        let j = choose|j: int| 0 <= j < i && same_key(slots, #[trigger] pairs[j].0, key);
        lemma_first_key_exists(slots, pairs, key, j);
    } else {
        assert(crate::container::first_key_at(slots, pairs, key, i));
    }
}

/// After a map is given `v` under `key`, reading `key` gives `v`; giving it
/// `w` afterwards overwrites, and reading gives `w`.
pub proof fn lemma_map_store_then_lookup(
    slots: Seq<Option<Object>>,
    pairs: Seq<(Value, Value)>,
    key: Value,
    v: Value,
    w: Value,
    after: Seq<(Value, Value)>,
    again: Seq<(Value, Value)>,
    r1: Value,
    r2: Value,
)
    requires
        map_store(slots, pairs, key, v, after),
        map_lookup(slots, after, key, r1),
        map_store(slots, after, key, w, again),
        map_lookup(slots, again, key, r2),
    ensures
        r1 == v,
        r2 == w,
{
    lemma_lookup_after_store(slots, pairs, key, v, after, r1);
    lemma_lookup_after_store(slots, after, key, w, again, r2);
}

/// Storing into a shared upvalue cell is seen through every closure that
/// holds the cell.
pub proof fn lemma_shared_upvalue_store(slots: Seq<Option<Object>>, c: usize, i: int, uh: usize, v: Value)
    requires
        c < slots.len(),
        uh < slots.len(),
        c != uh,
        slots[c as int] matches Some(Object::Closure(cl)) && 0 <= i < cl.upvalues@.len() && cl.upvalues@[i] == uh,
    ensures
        ({
            let after = slots.update(uh as int, Some(Object::Upvalue(Upvalue::Closed(v))));
            after[c as int] matches Some(Object::Closure(cl)) && after[cl.upvalues@[i] as int] == Some(Object::Upvalue(Upvalue::Closed(v)))
        }),
{
}

/// With no roots nothing is reachable: a collection frees every object,
/// cycles included.
pub proof fn lemma_no_roots_nothing_reachable(slots: Seq<Option<Object>>, h: usize)
    ensures
        !reachable(slots, Seq::<usize>::empty(), h),
{
    if reachable(slots, Seq::<usize>::empty(), h) {
        let path = choose|path: Seq<usize>| #[trigger] is_path(slots, Seq::<usize>::empty(), path) && path.last() == h;
        assert(Seq::<usize>::empty().contains(path[0]));
    }
}

/// Round-robin order: when the fiber at the front of the queue takes a step
/// and goes on, every waiting fiber moves up one place and the stepped fiber
/// goes last, so fibers run in the order they were queued.
pub proof fn lemma_round_robin(s1: &State, s2: &State, r: Result<Step, Error>)
    requires
        s1.spec_ready().len() > 0,
        scheduled(s1, s2, s1.spec_ready()[0], Ok(FiberStep::Continue), r),
    ensures
        r == Ok::<Step, Error>(Step::Continue),
        s2.spec_ready().len() == s1.spec_ready().len(),
        forall|i: int| 0 <= i < s1.spec_ready().len() - 1 ==> #[trigger] s2.spec_ready()[i] == s1.spec_ready()[i + 1],
        s2.spec_ready().last() == s1.spec_ready()[0],
        s2.spec_pending() == s1.spec_pending(),
{
}

/// A fiber that is not the root and returns from its first frame leaves the
/// scheduler: it is neither queued nor parked afterwards, and the step comes
/// to `Continue`.
pub proof fn lemma_finished_fiber_leaves(s1: &State, s2: &State, v: Value, r: Result<Step, Error>)
    requires
        s1.fibers_distinct(),
        s1.spec_ready().len() > 0,
        s1.spec_root() != Some(s1.spec_ready()[0]),
        scheduled(s1, s2, s1.spec_ready()[0], Ok(FiberStep::Return(v)), r),
    ensures
        r == Ok::<Step, Error>(Step::Continue),
        s2.spec_ready() == s1.spec_ready().drop_first(),
        s2.spec_pending() == s1.spec_pending(),
        !s2.spec_ready().contains(s1.spec_ready()[0]),
        forall|k: (usize, u64)| #[trigger] s2.spec_pending().contains_key(k) ==> s2.spec_pending()[k] != s1.spec_ready()[0],
        s2.spec_root() == s1.spec_root(),
{
    let fiber = s1.spec_ready()[0];
    if s2.spec_ready().contains(fiber) {
        let i = choose|i: int| 0 <= i < s2.spec_ready().len() && s2.spec_ready()[i] == fiber;
        assert(s1.spec_ready()[i + 1] == fiber);
    }
    assert forall|k: (usize, u64)| #[trigger] s2.spec_pending().contains_key(k) implies s2.spec_pending()[k] != fiber by {
        assert(s1.spec_pending().contains_key(k));
        assert(s1.spec_ready()[0] == fiber);
    }
}

/// No scheduler step changes the generation of the pending table.
pub proof fn lemma_step_keeps_generation<F: Fn(FloatOp, u64, u64) -> u64>(
    s1: &State,
    s2: &State,
    h1: &Heap,
    h2: &Heap,
    program: &Program,
    floats: &F,
    r: Result<Step, Error>,
)
    requires
        state_steps(s1, s2, h1, h2, program, floats, r),
    ensures
        s2.spec_generation() == s1.spec_generation(),
{
    if s1.spec_ready().len() > 0 {
        let (fr, t1, t2, g) = choose|fr: Result<FiberStep, RuntimeErrorKind>, t1: Heap, t2: Heap, g: Fiber|
            scheduled(s1, s2, s1.spec_ready()[0], fr, r) && t1.view() == h1.view().update(s1.spec_ready()[0] as int, None)
                && h2.view() == t2.view().update(s1.spec_ready()[0] as int, Some(Object::Fiber(g)))
                && #[trigger] fiber_steps(&t1, &t2, program, h1.spec_object(s1.spec_ready()[0])->Fiber_0, g, s1.spec_ready()[0], floats, fr);
    }
}

/// A wake never lowers the generation, and a wake that succeeds leaves it
/// above the generation of the id it consumed.
pub proof fn lemma_wake_raises_generation(s1: &State, s2: &State, h1: &Heap, h2: &Heap, id: Id, v: Value, r: Result<(), Error>)
    requires
        state_wakes(s1, s2, h1, h2, id, v, r),
    ensures
        s2.spec_generation() >= s1.spec_generation(),
        r is Ok ==> id.generation < s2.spec_generation(),
{
}

/// Ids are never issued twice. A yield is given an id of the current
/// generation that no parked fiber holds; a wake leaves the generation above
/// the id it consumed, and no step or wake lowers it; so an id consumed by a
/// wake is never the id of a later yield.
pub proof fn lemma_consumed_id_not_reissued(s1: &State, s2: &State, fiber: usize, op: Value, r: Result<Step, Error>, consumed: Id)
    requires
        scheduled(s1, s2, fiber, Ok(FiberStep::Yield(op)), r),
        consumed.generation < s1.spec_generation(),
    ensures
        r is Ok && r->Ok_0 is Yield,
        r->Ok_0->Yield_0 != consumed,
        !s1.spec_pending().contains_key(r->Ok_0->Yield_0.key()),
{
}

/// The program `INT 3; INT 4; ADD; RETURN`, run by a fiber from the start of
/// its first frame, returns `Int(7)`.
pub proof fn lemma_add_two_ints<F: Fn(FloatOp, u64, u64) -> u64>(
    program: &Program,
    h0: &Heap, h1: &Heap, h2: &Heap, h3: &Heap, h4: &Heap,
    f0: Fiber, f1: Fiber, f2: Fiber, f3: Fiber, f4: Fiber,
    me: usize,
    floats: &F,
    r1: Result<FiberStep, RuntimeErrorKind>,
    r2: Result<FiberStep, RuntimeErrorKind>,
    r3: Result<FiberStep, RuntimeErrorKind>,
    r4: Result<FiberStep, RuntimeErrorKind>,
)
    requires
        runs_code(h0, program, f0, seq![(opcode::INT, 3u32), (opcode::INT, 4u32), (opcode::ADD, 0u32), (opcode::RETURN, 0u32)]),
        fiber_steps(h0, h1, program, f0, f1, me, floats, r1),
        fiber_steps(h1, h2, program, f1, f2, me, floats, r2),
        fiber_steps(h2, h3, program, f2, f3, me, floats, r3),
        fiber_steps(h3, h4, program, f3, f4, me, floats, r4),
    ensures
        r1 == Ok::<FiberStep, RuntimeErrorKind>(FiberStep::Continue),
        r2 == Ok::<FiberStep, RuntimeErrorKind>(FiberStep::Continue),
        r3 == Ok::<FiberStep, RuntimeErrorKind>(FiberStep::Continue),
        r4 == Ok::<FiberStep, RuntimeErrorKind>(FiberStep::Return(Value::Int(7))),
{
    lemma_fetch_at(h0, program, f0, 0);
    assert(h1.view() == h0.view());
    lemma_fetch_same_heap(h0, h1, program, f0, f1);
    lemma_fetch_at(h1, program, f1, 1);
    assert(h2.view() == h1.view());
    lemma_fetch_same_heap(h1, h2, program, f1, f2);
    lemma_fetch_at(h2, program, f2, 2);
    assert(f3.stack@ == f0.stack@.push(Value::Int(3)).push(Value::Int(4)).drop_last().drop_last().push(Value::Int(7)));
    assert(h3.view() == h2.view());
    lemma_fetch_same_heap(h2, h3, program, f2, f3);
    lemma_fetch_at(h3, program, f3, 3);
}

/// The program `INT 1; CONST 0; ADD; RETURN`, whose constant 0 is the float
/// with bits `c`, returns the float the float unit gives for 1 converted to
/// a float plus `c`.
pub proof fn lemma_mixed_arith<F: Fn(FloatOp, u64, u64) -> u64>(
    program: &Program,
    h0: &Heap, h1: &Heap, h2: &Heap, h3: &Heap, h4: &Heap,
    f0: Fiber, f1: Fiber, f2: Fiber, f3: Fiber, f4: Fiber,
    me: usize,
    floats: &F,
    c: u64,
    r1: Result<FiberStep, RuntimeErrorKind>,
    r2: Result<FiberStep, RuntimeErrorKind>,
    r3: Result<FiberStep, RuntimeErrorKind>,
    r4: Result<FiberStep, RuntimeErrorKind>,
)
    requires
        runs_code(h0, program, f0, seq![(opcode::INT, 1u32), (opcode::CONST, 0u32), (opcode::ADD, 0u32), (opcode::RETURN, 0u32)]),
        running_function(h0, program, f0.frame).constants@.len() > 0,
        running_function(h0, program, f0.frame).constants@[0] == Constant::Float(c),
        fiber_steps(h0, h1, program, f0, f1, me, floats, r1),
        fiber_steps(h1, h2, program, f1, f2, me, floats, r2),
        fiber_steps(h2, h3, program, f2, f3, me, floats, r3),
        fiber_steps(h3, h4, program, f3, f4, me, floats, r4),
    ensures
        r1 == Ok::<FiberStep, RuntimeErrorKind>(FiberStep::Continue),
        r2 == Ok::<FiberStep, RuntimeErrorKind>(FiberStep::Continue),
        r3 == Ok::<FiberStep, RuntimeErrorKind>(FiberStep::Continue),
        r4 is Ok && r4->Ok_0 is Return && r4->Ok_0->Return_0 is Float,
        exists|fa: u64| #[trigger] floats.ensures((FloatOp::FromInt, 1u64, 0u64), fa)
            && floats.ensures((FloatOp::Add, fa, c), r4->Ok_0->Return_0->Float_0),
{
    lemma_fetch_at(h0, program, f0, 0);
    lemma_fetch_same_heap(h0, h1, program, f0, f1);
    lemma_fetch_at(h1, program, f1, 1);
    lemma_fetch_same_heap(h1, h2, program, f1, f2);
    lemma_fetch_at(h2, program, f2, 2);
    let s = f2.stack@;
    assert(s[s.len() - 2] == Value::Int(1));
    assert(s.last() == Value::Float(c));
    lemma_fetch_same_heap(h2, h3, program, f2, f3);
    lemma_fetch_at(h3, program, f3, 3);
}

/// The program `TRUE; INT 1; ADD; RETURN` fails at its `ADD` with a type
/// error that expects an integer or a float and names `bool`.
pub proof fn lemma_add_bool_fails<F: Fn(FloatOp, u64, u64) -> u64>(
    program: &Program,
    h0: &Heap, h1: &Heap, h2: &Heap, h3: &Heap,
    f0: Fiber, f1: Fiber, f2: Fiber, f3: Fiber,
    me: usize,
    floats: &F,
    r1: Result<FiberStep, RuntimeErrorKind>,
    r2: Result<FiberStep, RuntimeErrorKind>,
    r3: Result<FiberStep, RuntimeErrorKind>,
)
    requires
        runs_code(h0, program, f0, seq![(opcode::TRUE, 0u32), (opcode::INT, 1u32), (opcode::ADD, 0u32), (opcode::RETURN, 0u32)]),
        fiber_steps(h0, h1, program, f0, f1, me, floats, r1),
        fiber_steps(h1, h2, program, f1, f2, me, floats, r2),
        fiber_steps(h2, h3, program, f2, f3, me, floats, r3),
    ensures
        r1 == Ok::<FiberStep, RuntimeErrorKind>(FiberStep::Continue),
        r2 == Ok::<FiberStep, RuntimeErrorKind>(FiberStep::Continue),
        r3 is Err,
        is_wrong_type(r3->Err_0, seq![ValueType::Int, ValueType::Float], ValueType::Bool),
{
    lemma_fetch_at(h0, program, f0, 0);
    lemma_fetch_same_heap(h0, h1, program, f0, f1);
    lemma_fetch_at(h1, program, f1, 1);
    lemma_fetch_same_heap(h1, h2, program, f1, f2);
    lemma_fetch_at(h2, program, f2, 2);
    let s = f2.stack@;
    assert(s[s.len() - 2] == Value::Bool(true));
    assert(s.last() == Value::Int(1));
}

/// The program `INT 10; YIELD; RETURN` yields `Int(10)`; once woken with
/// `result` pushed on its stack, it returns `result`.
pub proof fn lemma_yield_then_return<F: Fn(FloatOp, u64, u64) -> u64>(
    program: &Program,
    h0: &Heap, h1: &Heap, h2: &Heap, h3: &Heap,
    f0: Fiber, f1: Fiber, f2: Fiber, woken: Fiber, f3: Fiber,
    me: usize,
    floats: &F,
    result: Value,
    r1: Result<FiberStep, RuntimeErrorKind>,
    r2: Result<FiberStep, RuntimeErrorKind>,
    r3: Result<FiberStep, RuntimeErrorKind>,
)
    requires
        runs_code(h0, program, f0, seq![(opcode::INT, 10u32), (opcode::YIELD, 0u32), (opcode::RETURN, 0u32)]),
        fiber_steps(h0, h1, program, f0, f1, me, floats, r1),
        fiber_steps(h1, h2, program, f1, f2, me, floats, r2),
        woken == (Fiber { stack: woken.stack, ..f2 }),
        woken.stack@ == f2.stack@.push(result),
        fiber_steps(h2, h3, program, woken, f3, me, floats, r3),
    ensures
        r1 == Ok::<FiberStep, RuntimeErrorKind>(FiberStep::Continue),
        r2 == Ok::<FiberStep, RuntimeErrorKind>(FiberStep::Yield(Value::Int(10))),
        r3 == Ok::<FiberStep, RuntimeErrorKind>(FiberStep::Return(result)),
{
    lemma_fetch_at(h0, program, f0, 0);
    lemma_fetch_same_heap(h0, h1, program, f0, f1);
    lemma_fetch_at(h1, program, f1, 1);
    lemma_fetch_same_heap(h1, h2, program, f1, woken);
    lemma_fetch_at(h2, program, woken, 2);
}

/// Closures that capture the same stack slot of a fiber share one cell:
/// while the slot is live, a fiber keeps a single open upvalue for it, and
/// `capture` hands that one out to every closure made over the slot.
pub proof fn lemma_same_slot_same_cell(heap: &Heap, open: Seq<usize>, me: usize, a: usize, b: usize)
    requires
        open_unique(heap, open, me),
        open.contains(a),
        open.contains(b),
        open_slot(heap, a, me) is Some,
        open_slot(heap, a, me) == open_slot(heap, b, me),
    ensures
        a == b,
{
    let i = choose|i: int| 0 <= i < open.len() && open[i] == a;
    let j = choose|j: int| 0 <= j < open.len() && open[j] == b;
    assert(open_slot(heap, open[i], me) == open_slot(heap, open[j], me));
}

/// In a well-formed engine every fiber keeps at most one open upvalue per
/// stack slot, so two closures that captured the same live slot of a fiber
/// hold the same cell.
pub proof fn lemma_engine_same_slot_same_cell(engine: &Engine, fiber: usize, a: usize, b: usize)
    requires
        engine.wf(),
        fiber_upvalues(&engine.spec_heap(), fiber) is Some,
        fiber_upvalues(&engine.spec_heap(), fiber)->Some_0.contains(a),
        fiber_upvalues(&engine.spec_heap(), fiber)->Some_0.contains(b),
        open_slot(&engine.spec_heap(), a, fiber) is Some,
        open_slot(&engine.spec_heap(), a, fiber) == open_slot(&engine.spec_heap(), b, fiber),
    ensures
        a == b,
{
    let heap = engine.spec_heap();
    assert(open_unique(&heap, fiber_upvalues(&heap, fiber)->Some_0, fiber));
    lemma_same_slot_same_cell(&heap, fiber_upvalues(&heap, fiber)->Some_0, fiber, a, b);
}

/// Through the interpreter: after `OBJ_SET` gives map `m` the value `v`
/// under `key`, an `OBJ_GET` of `key` from `m` pushes `v`.
pub proof fn lemma_obj_set_then_get(
    h1: &Heap,
    h2: &Heap,
    f1: Fiber,
    g1: Fiber,
    f2: Fiber,
    g2: Fiber,
    r1: Result<FiberStep, RuntimeErrorKind>,
    r2: Result<FiberStep, RuntimeErrorKind>,
)
    requires
        f1.stack@.len() >= f1.frame.base + 3,
        f1.stack@[f1.stack@.len() - 3] is Dict,
        h1.spec_live(f1.stack@[f1.stack@.len() - 3]->Dict_0),
        h1.spec_object(f1.stack@[f1.stack@.len() - 3]->Dict_0) is Dict,
        sets(h1, h2, f1, g1, r1),
        f2.stack@.len() >= f2.frame.base + 2,
        f2.stack@[f2.stack@.len() - 2] == f1.stack@[f1.stack@.len() - 3],
        f2.stack@.last() == f1.stack@[f1.stack@.len() - 2],
        gets(h2, f2, g2, r2),
    ensures
        r1 == Ok::<FiberStep, RuntimeErrorKind>(FiberStep::Continue),
        r2 == Ok::<FiberStep, RuntimeErrorKind>(FiberStep::Continue),
        g2.stack@.last() == f1.stack@.last(),
{
    let s = f1.stack@;
    let m = s[s.len() - 3]->Dict_0;
    let key = s[s.len() - 2];
    let v = s.last();
    let before = h1.spec_object(m)->Dict_0@;
    let after = h2.spec_object(m)->Dict_0@;
    assert(r1 is Ok);
    assert(map_store(h1.view(), before, key, v, after));
    assert(r2 is Ok);
    let got = g2.stack@.last();
    assert(map_lookup(h2.view(), after, key, got));
    assert forall|x: usize| string_at(h2.view(), x) == string_at(h1.view(), x) by {
        if x != m && x < h1.view().len() {
            assert(h2.view()[x as int] == h1.view()[x as int]);
        }
    }
    assert forall|a: Value, b: Value| same_key(h2.view(), a, b) == same_key(h1.view(), a, b) by {
        match (a, b) {
            (Value::String(x), Value::String(y)) => {
                assert(string_at(h2.view(), x) == string_at(h1.view(), x));
                assert(string_at(h2.view(), y) == string_at(h1.view(), y));
            },
            _ => {},
        }
    }
    assert forall|i: int| #[trigger] first_key_at(h1.view(), after, key, i) implies got == after[i].1 by {
        assert(first_key_at(h2.view(), after, key, i));
    }
    if !has_key(h1.view(), after, key) {
        assert(!has_key(h2.view(), after, key));
    }
    assert(map_lookup(h1.view(), after, key, got));
    lemma_lookup_after_store(h1.view(), before, key, v, after, got);
}

/// Through the interpreter: once a closure stores `w` through its upvalue
/// `i` (`UPVAL_STORE i`), a closure that holds the same cell as its upvalue
/// `j` loads `w` (`UPVAL_LOAD j`), whether the cell is closed or still open
/// on a slot of the storing fiber's stack.
pub proof fn lemma_store_then_load(
    h1: &Heap,
    h2: &Heap,
    f1: Fiber,
    g1: Fiber,
    f2: Fiber,
    g2: Fiber,
    me: usize,
    i: int,
    j: int,
    r1: Result<FiberStep, RuntimeErrorKind>,
    r2: Result<FiberStep, RuntimeErrorKind>,
)
    requires
        h1.spec_live(f1.frame.closure),
        h1.spec_object(f1.frame.closure) is Closure,
        0 <= i < h1.spec_object(f1.frame.closure)->Closure_0.upvalues@.len(),
        f1.stack@.len() > f1.frame.base,
        stores_upvalue(h1, h2, f1, g1, me, i, r1),
        h2.spec_live(f2.frame.closure),
        h2.spec_object(f2.frame.closure) is Closure,
        0 <= j < h2.spec_object(f2.frame.closure)->Closure_0.upvalues@.len(),
        h2.spec_object(f2.frame.closure)->Closure_0.upvalues@[j] == h1.spec_object(f1.frame.closure)->Closure_0.upvalues@[i],
        loads_upvalue(h2, f2, g2, me, j, r2),
        ({
            let uh = h1.spec_object(f1.frame.closure)->Closure_0.upvalues@[i];
            (h1.spec_live(uh) && h1.spec_object(uh) is Upvalue && h1.spec_object(uh)->Upvalue_0 is Closed) || (
            open_slot(h1, uh, me) is Some && open_slot(h1, uh, me)->Some_0 < f1.stack@.len() - 1 && f2.stack@ == g1.stack@)
        }),
    ensures
        r1 == Ok::<FiberStep, RuntimeErrorKind>(FiberStep::Continue),
        r2 == Ok::<FiberStep, RuntimeErrorKind>(FiberStep::Continue),
        g2.stack@.last() == f1.stack@.last(),
{
    let uh = h1.spec_object(f1.frame.closure)->Closure_0.upvalues@[i];
    if h1.spec_live(uh) && h1.spec_object(uh) is Upvalue && h1.spec_object(uh)->Upvalue_0 is Closed {
        assert(h2.spec_live(uh));
        assert(h2.spec_object(uh) == Object::Upvalue(Upvalue::Closed(f1.stack@.last())));
    } else {
        assert(h2.view() == h1.view());
        assert(open_slot(h2, uh, me) == open_slot(h1, uh, me));
        let slot = open_slot(h1, uh, me)->Some_0;
        assert(g1.stack@[slot as int] == f1.stack@.last());
    }
}

/// Fiber `f` is at the start of its first frame, with only the running
/// closure on its stack, and that closure's function has exactly `code`.
pub open spec fn runs_code(heap: &Heap, program: &Program, f: Fiber, code: Seq<(u8, u32)>) -> bool {
    &&& f.frame.pc == 0
    &&& f.frame.base == 0
    &&& f.call_stack@.len() == 0
    &&& f.stack@.len() == 1
    &&& heap.spec_live(f.frame.closure)
    &&& heap.spec_object(f.frame.closure) is Closure
    &&& heap.spec_object(f.frame.closure)->Closure_0.function < program.functions@.len()
    &&& code_is(running_function(heap, program, f.frame).code@, code)
}

/// A fiber of `runs_code` that has taken `k` steps without leaving its frame
/// is at instruction `k`.
proof fn lemma_fetch_at(heap: &Heap, program: &Program, f: Fiber, k: int)
    requires
        heap.spec_live(f.frame.closure),
        heap.spec_object(f.frame.closure) is Closure,
        heap.spec_object(f.frame.closure)->Closure_0.function < program.functions@.len(),
        f.frame.pc == k,
        0 <= k < running_function(heap, program, f.frame).code@.len(),
    ensures
        fetch(heap, program, f.frame) == Some(running_function(heap, program, f.frame).code@[k]),
{
}

/// A step that leaves the heap and the frame's closure as they were leaves
/// the running function as it was.
proof fn lemma_fetch_same_heap(h1: &Heap, h2: &Heap, program: &Program, f: Fiber, g: Fiber)
    requires
        h2.view() == h1.view(),
        g.frame.closure == f.frame.closure,
    ensures
        h2.spec_live(g.frame.closure) == h1.spec_live(f.frame.closure),
        h2.spec_object(g.frame.closure) == h1.spec_object(f.frame.closure),
        running_function(h2, program, g.frame) == running_function(h1, program, f.frame),
{
}

} // verus!
