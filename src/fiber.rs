//! Fibers: a value stack, a call stack of frames, and the interpreter that
//! executes one instruction at a time.
use vstd::prelude::*;

use crate::container;
use crate::error::{RuntimeError, RuntimeErrorContext, RuntimeErrorKind};
use crate::function::{Constant, Function, Program, UpvalueDescriptor};
use crate::heap::{Closure, Heap, Object, Upvalue};
use crate::instruction::{signed_operand, Instruction};
use crate::opcode;
use crate::ops::{self, ArithOp, BitOp, CompareOp, FloatOp, float_unit_total};
use crate::value::{Value, ValueType};

verus! {

/// An invocation in progress: the closure being run, the next instruction,
/// and the bottom of its locals on the fiber's value stack.
#[derive(Clone, Copy, Debug, PartialEq, Eq, Structural)]
pub struct Frame {
    pub closure: usize,
    pub pc: usize,
    pub base: usize,
}

/// The state of a fiber.
#[derive(Clone, Debug)]
pub struct Fiber {
    pub frame: Frame,
    pub call_stack: Vec<Frame>,
    pub stack: Vec<Value>,
    pub open_upvalues: Vec<usize>,
}

impl Fiber {
    /// A fiber whose first frame runs `closure` with no arguments; the
    /// closure itself sits in slot 0.
    pub fn new(closure: usize) -> (r: Fiber)
        ensures
            r.frame == (Frame { closure, pc: 0, base: 0 }),
            r.call_stack@.len() == 0,
            r.stack@ == seq![Value::Closure(closure)],
            r.open_upvalues@.len() == 0,
    {
        let mut stack: Vec<Value> = Vec::new();
        stack.push(Value::Closure(closure));
        Fiber {
            frame: Frame { closure, pc: 0, base: 0 },
            call_stack: Vec::new(),
            stack,
            open_upvalues: Vec::new(),
        }
    }
}

/// What one step of a fiber came to.
#[derive(Clone, Copy, Debug, PartialEq, Eq, Structural)]
pub enum FiberStep {
    /// An instruction ran; the fiber can go on.
    Continue,
    /// The fiber yielded this operation and waits to be woken.
    Yield(Value),
    /// The fiber's first frame returned this value; the fiber is done.
    Return(Value),
    /// The fiber made a new fiber, stored under this handle.
    Spawn(usize),
}

/// The error context of an instruction of `function` at `pc`.
fn context(program: &Program, function: &Function, pc: usize) -> (r: RuntimeErrorContext)
    ensures
        r.path == program.path,
        r.chunk_name == function.name,
        r.bytecode_offset == pc,
{
    RuntimeErrorContext { path: program.path.clone(), chunk_name: function.name.clone(), bytecode_offset: pc }
}

impl Fiber {
    /// Pushes a value on the stack.
    pub fn push(&mut self, v: Value)
        ensures
            final(self).stack@ == old(self).stack@.push(v),
            final(self).frame == old(self).frame,
            final(self).call_stack == old(self).call_stack,
            final(self).open_upvalues == old(self).open_upvalues,
    {
        self.stack.push(v);
    }

    /// Pops a value of the running frame.
    fn pop(&mut self) -> (r: Result<Value, RuntimeErrorKind>)
        ensures
            old(self).stack@.len() > old(self).frame.base ==> r == Ok::<Value, RuntimeErrorKind>(old(self).stack@.last())
                && final(self).stack@ == old(self).stack@.drop_last(),
            old(self).stack@.len() <= old(self).frame.base ==> r == Err::<Value, RuntimeErrorKind>(RuntimeErrorKind::StackUnderflow)
                && final(self).stack@ == old(self).stack@,
            final(self).frame == old(self).frame,
            final(self).call_stack@ == old(self).call_stack@,
            final(self).open_upvalues@ == old(self).open_upvalues@,
    {
        if self.stack.len() > self.frame.base {
            let v = self.stack.pop().unwrap();
            Ok(v)
        } else {
            Err(RuntimeErrorKind::StackUnderflow)
        }
    }

    /// The open upvalue of this fiber (`me`) for stack slot `slot`: the one
    /// already open for it, else a new one.
    pub fn capture(&mut self, me: usize, heap: &mut Heap, slot: usize) -> (r: usize)
        ensures
            heap_grows(old(heap), final(heap)),
            no_new_fibers(old(heap), final(heap)),
            final(heap).spec_live(r),
            final(heap).spec_object(r) == Object::Upvalue(Upvalue::Open { fiber: me, slot }),
            final(self).stack@ == old(self).stack@,
            final(self).frame == old(self).frame,
            final(self).call_stack@ == old(self).call_stack@,
            final(self).open_upvalues@.contains(r),
            forall|h: usize| old(self).open_upvalues@.contains(h) ==> final(self).open_upvalues@.contains(h),
            open_unique(old(heap), old(self).open_upvalues@, me) ==> open_unique(final(heap), final(self).open_upvalues@, me),
            (exists|i: int| 0 <= i < old(self).open_upvalues@.len() && old(heap).spec_live(#[trigger] old(self).open_upvalues@[i])
                && old(heap).spec_object(old(self).open_upvalues@[i]) == Object::Upvalue(Upvalue::Open { fiber: me, slot }))
                ==> final(heap).view() == old(heap).view() && old(self).open_upvalues@.contains(r),
    {
        let mut i: usize = 0;
        while i < self.open_upvalues.len()
            invariant
                i <= self.open_upvalues@.len(),
                forall|j: int| 0 <= j < i ==> !(heap.spec_live(#[trigger] self.open_upvalues@[j]) && heap.spec_object(self.open_upvalues@[j]) == Object::Upvalue(Upvalue::Open { fiber: me, slot })),
            decreases self.open_upvalues@.len() - i,
        {
            let h = self.open_upvalues[i];
            match heap.get(h) {
                Some(Object::Upvalue(Upvalue::Open { fiber, slot: s })) => {
                    if *fiber == me && *s == slot {
                        return h;
                    }
                },
                _ => {},
            }
            i = i + 1;
        }
        let ghost heap0 = *heap;
        let h = heap.allocate(Object::Upvalue(Upvalue::Open { fiber: me, slot }));
        self.open_upvalues.push(h);
        proof {
            lemma_grows_keeps_open_slots(&heap0, heap);
            if open_unique(old(heap), old(self).open_upvalues@, me) {
                let l1 = old(self).open_upvalues@;
                let l2 = self.open_upvalues@;
                assert forall|k: int| 0 <= k < l2.len() implies #[trigger] l2[k] < heap.view().len() by {
                    if k < l1.len() {
                        assert(l2[k] == l1[k]);
                    }
                }
                assert forall|a: int, b: int|
                    0 <= a < l2.len() && 0 <= b < l2.len() && open_slot(heap, l2[a], me) is Some
                        && #[trigger] open_slot(heap, l2[a], me) == #[trigger] open_slot(heap, l2[b], me) implies l2[a] == l2[b] by {
                    if a < l1.len() {
                        assert(l2[a] == l1[a]);
                        assert(l1[a] < old(heap).view().len());
                        assert(open_slot(heap, l1[a], me) == open_slot(old(heap), l1[a], me));
                    }
                    if b < l1.len() {
                        assert(l2[b] == l1[b]);
                        assert(l1[b] < old(heap).view().len());
                        assert(open_slot(heap, l1[b], me) == open_slot(old(heap), l1[b], me));
                    }
                    if a < l1.len() && b == l1.len() {
                        assert(!(old(heap).spec_live(l1[a]) && old(heap).spec_object(l1[a]) == Object::Upvalue(Upvalue::Open { fiber: me, slot })));
                    }
                    if b < l1.len() && a == l1.len() {
                        assert(!(old(heap).spec_live(l1[b]) && old(heap).spec_object(l1[b]) == Object::Upvalue(Upvalue::Open { fiber: me, slot })));
                    }
                }
            }
            assert(self.open_upvalues@.last() == h);
            assert forall|x: usize| old(self).open_upvalues@.contains(x) implies self.open_upvalues@.contains(x) by {
                let j = choose|j: int| 0 <= j < old(self).open_upvalues@.len() && old(self).open_upvalues@[j] == x;
                assert(self.open_upvalues@[j] == x);
            }
        }
        h
    }

    /// Closes every open upvalue of this fiber (`me`) on a slot at or above
    /// `threshold`: each takes the value in its slot and leaves the list of
    /// open upvalues.
    pub fn close_upvalues(&mut self, me: usize, heap: &mut Heap, threshold: usize)
        ensures
            final(heap).view().len() == old(heap).view().len(),
            final(self).stack@ == old(self).stack@,
            final(self).frame == old(self).frame,
            final(self).call_stack@ == old(self).call_stack@,
            forall|h: usize| #[trigger] final(self).open_upvalues@.contains(h) ==> old(self).open_upvalues@.contains(h),
            keeps_open_slots(old(heap), final(heap)),
            keeps_fibers(old(heap), final(heap)),
            open_unique(old(heap), old(self).open_upvalues@, me) ==> open_unique(final(heap), final(self).open_upvalues@, me),
            forall|h: usize| #[trigger] old(self).open_upvalues@.contains(h) && closes(old(heap), h, me, threshold, old(self).stack@.len())
                ==> final(heap).spec_live(h) && final(heap).spec_object(h) == Object::Upvalue(Upvalue::Closed(old(self).stack@[open_slot(old(heap), h, me)->Some_0 as int])),
            forall|x: usize| x < old(heap).view().len() && !(old(self).open_upvalues@.contains(x) && closes(old(heap), x, me, threshold, old(self).stack@.len()))
                ==> #[trigger] final(heap).view()[x as int] == old(heap).view()[x as int],
    {
        let mut kept: Vec<usize> = Vec::new();
        let mut i: usize = 0;
        let ghost heap0 = heap.view();
        while i < self.open_upvalues.len()
            invariant
                i <= self.open_upvalues@.len(),
                self.open_upvalues@ == old(self).open_upvalues@,
                self.stack@ == old(self).stack@,
                self.frame == old(self).frame,
                self.call_stack@ == old(self).call_stack@,
                heap.view().len() == old(heap).view().len(),
                keeps_open_slots(old(heap), heap),
                keeps_fibers(old(heap), heap),
                forall|k: int| 0 <= k < kept@.len() ==> old(self).open_upvalues@.contains(#[trigger] kept@[k]),
                forall|j: int| 0 <= j < i && closes(old(heap), #[trigger] old(self).open_upvalues@[j], me, threshold, old(self).stack@.len())
                    ==> heap.spec_live(old(self).open_upvalues@[j]) && heap.spec_object(old(self).open_upvalues@[j]) == Object::Upvalue(
                    Upvalue::Closed(old(self).stack@[open_slot(old(heap), old(self).open_upvalues@[j], me)->Some_0 as int])),
                forall|h: usize| h < heap.view().len() && !(exists|j: int| 0 <= j < i && old(self).open_upvalues@[j] == h && closes(old(heap), h, me, threshold, old(self).stack@.len()))
                    ==> #[trigger] heap.view()[h as int] == old(heap).view()[h as int],
            decreases self.open_upvalues@.len() - i,
        {
            let h = self.open_upvalues[i];
            let mut close_at: Option<usize> = None;
            match heap.get(h) {
                Some(Object::Upvalue(Upvalue::Open { fiber, slot })) => {
                    if *fiber == me && threshold <= *slot && *slot < self.stack.len() {
                        close_at = Some(*slot);
                    }
                },
                _ => {},
            }
            match close_at {
                Some(slot) => {
                    let ghost heap0 = *heap;
                    heap.put(h, Object::Upvalue(Upvalue::Closed(self.stack[slot])));
                    proof {
                        assert forall|x: usize, m: usize| x < heap0.view().len() implies (#[trigger] open_slot(heap, x, m)) is None
                            || open_slot(heap, x, m) == open_slot(&heap0, x, m) by {
                            if x != h {
                                assert(heap.view()[x as int] == heap0.view()[x as int]);
                            }
                        }
                        lemma_keeps_open_slots_trans(old(heap), &heap0, heap);
                        assert forall|x: usize| #[trigger] heap0.spec_live(x) && heap0.spec_object(x) is Fiber implies heap.spec_live(x)
                            && heap.spec_object(x) is Fiber by {
                            if x != h {
                                assert(heap.view()[x as int] == heap0.view()[x as int]);
                            }
                        }
                        lemma_keeps_fibers_trans(old(heap), &heap0, heap);
                    }
                },
                None => {
                    assert(old(self).open_upvalues@[i as int] == h);
                    kept.push(h);
                },
            }
            i = i + 1;
        }
        self.open_upvalues = kept;
        assert forall|x: usize| x < old(heap).view().len() && !(old(self).open_upvalues@.contains(x) && closes(old(heap), x, me, threshold, old(self).stack@.len()))
            implies #[trigger] heap.view()[x as int] == old(heap).view()[x as int] by {
            if exists|j: int| 0 <= j < old(self).open_upvalues@.len() && old(self).open_upvalues@[j] == x && closes(old(heap), x, me, threshold, old(self).stack@.len()) {
                let j = choose|j: int| 0 <= j < old(self).open_upvalues@.len() && old(self).open_upvalues@[j] == x && closes(old(heap), x, me, threshold, old(self).stack@.len());
                assert(old(self).open_upvalues@.contains(x));
            }
        }
        assert forall|h: usize| #[trigger] self.open_upvalues@.contains(h) implies old(self).open_upvalues@.contains(h) by {
            let k = choose|k: int| 0 <= k < self.open_upvalues@.len() && self.open_upvalues@[k] == h;
            assert(old(self).open_upvalues@.contains(kept@[k]));
        }
        proof {
            if open_unique(old(heap), old(self).open_upvalues@, me) {
                lemma_open_unique_kept(old(heap), heap, old(self).open_upvalues@, self.open_upvalues@, me);
            }
        }
    }
}

impl Fiber {
    /// The handle of upvalue `index` of the running closure.
    fn upvalue_handle(&self, heap: &Heap, index: usize) -> (r: Result<usize, RuntimeErrorKind>)
        ensures
            r is Err ==> r == Err::<usize, RuntimeErrorKind>(RuntimeErrorKind::InvalidUpvalueIndex(index)),
            r is Ok <==> (heap.spec_live(self.frame.closure) && heap.spec_object(self.frame.closure) is Closure
                && index < heap.spec_object(self.frame.closure)->Closure_0.upvalues@.len()),
            r is Ok ==> r->Ok_0 == heap.spec_object(self.frame.closure)->Closure_0.upvalues@[index as int],
    {
        match heap.get(self.frame.closure) {
            Some(Object::Closure(c)) => {
                if index < c.upvalues.len() {
                    Ok(c.upvalues[index])
                } else {
                    Err(RuntimeErrorKind::InvalidUpvalueIndex(index))
                }
            },
            _ => Err(RuntimeErrorKind::InvalidUpvalueIndex(index)),
        }
    }

    /// The value of the upvalue under `uh`: its own once closed, else that of
    /// the stack slot it refers to, in this fiber (`me`) or another.
    fn read_upvalue(&self, me: usize, heap: &Heap, uh: usize, index: usize) -> (r: Result<Value, RuntimeErrorKind>)
        ensures
            heap.spec_live(uh) && heap.spec_object(uh) is Upvalue && heap.spec_object(uh)->Upvalue_0 is Closed
                ==> r == Ok::<Value, RuntimeErrorKind>(heap.spec_object(uh)->Upvalue_0->Closed_0),
            open_slot(heap, uh, me) is Some && open_slot(heap, uh, me)->Some_0 < self.stack@.len()
                ==> r == Ok::<Value, RuntimeErrorKind>(self.stack@[open_slot(heap, uh, me)->Some_0 as int]),
    {
        match heap.get(uh) {
            Some(Object::Upvalue(Upvalue::Closed(v))) => Ok(*v),
            Some(Object::Upvalue(Upvalue::Open { fiber, slot })) => {
                let slot = *slot;
                if *fiber == me {
                    if slot < self.stack.len() {
                        Ok(self.stack[slot])
                    } else {
                        Err(RuntimeErrorKind::InvalidStackSlot(slot))
                    }
                } else {
                    match heap.get(*fiber) {
                        Some(Object::Fiber(f)) => {
                            if slot < f.stack.len() {
                                Ok(f.stack[slot])
                            } else {
                                Err(RuntimeErrorKind::InvalidStackSlot(slot))
                            }
                        },
                        _ => Err(RuntimeErrorKind::InvalidUpvalueIndex(index)),
                    }
                }
            },
            _ => Err(RuntimeErrorKind::InvalidUpvalueIndex(index)),
        }
    }

    /// Stores `v` through the upvalue under `uh`.
    fn write_upvalue(&mut self, me: usize, heap: &mut Heap, uh: usize, index: usize, v: Value) -> (r: Result<(), RuntimeErrorKind>)
        ensures
            final(heap).view().len() == old(heap).view().len(),
            keeps_open_slots(old(heap), final(heap)),
            keeps_fibers(old(heap), final(heap)),
            final(self).frame == old(self).frame,
            final(self).call_stack@ == old(self).call_stack@,
            final(self).open_upvalues@ == old(self).open_upvalues@,
            final(self).stack@.len() == old(self).stack@.len(),
            old(heap).spec_live(uh) && old(heap).spec_object(uh) is Upvalue && old(heap).spec_object(uh)->Upvalue_0 is Closed ==> r is Ok
                && final(heap).view() == old(heap).view().update(uh as int, Some(Object::Upvalue(Upvalue::Closed(v))))
                && final(self).stack@ == old(self).stack@,
            open_slot(old(heap), uh, me) is Some && open_slot(old(heap), uh, me)->Some_0 < old(self).stack@.len() ==> r is Ok
                && final(self).stack@ == old(self).stack@.update(open_slot(old(heap), uh, me)->Some_0 as int, v)
                && final(heap).view() == old(heap).view(),
    {
        let mut target: Option<(usize, usize)> = None;
        match heap.get(uh) {
            Some(Object::Upvalue(Upvalue::Closed(_))) => {},
            Some(Object::Upvalue(Upvalue::Open { fiber, slot })) => {
                target = Some((*fiber, *slot));
            },
            _ => {
                return Err(RuntimeErrorKind::InvalidUpvalueIndex(index));
            },
        }
        match target {
            None => {
                heap.put(uh, Object::Upvalue(Upvalue::Closed(v)));
                proof {
                    assert forall|x: usize, m: usize| x < old(heap).view().len() implies (#[trigger] open_slot(heap, x, m)) is None
                        || open_slot(heap, x, m) == open_slot(old(heap), x, m) by {
                        if x != uh {
                            assert(heap.view()[x as int] == old(heap).view()[x as int]);
                        }
                    }
                    assert forall|x: usize| #[trigger] old(heap).spec_live(x) && old(heap).spec_object(x) is Fiber implies heap.spec_live(x)
                        && heap.spec_object(x) is Fiber by {
                        if x != uh {
                            assert(heap.view()[x as int] == old(heap).view()[x as int]);
                        }
                    }
                }
                Ok(())
            },
            Some((fiber, slot)) => {
                if fiber == me {
                    if slot < self.stack.len() {
                        self.stack.set(slot, v);
                        Ok(())
                    } else {
                        Err(RuntimeErrorKind::InvalidStackSlot(slot))
                    }
                } else {
                    match heap.take(fiber) {
                        Some(Object::Fiber(f)) => {
                            let mut f = f;
                            if slot < f.stack.len() {
                                f.stack.set(slot, v);
                                heap.put(fiber, Object::Fiber(f));
                                proof {
                                    assert forall|x: usize, m: usize| x < old(heap).view().len() implies (#[trigger] open_slot(heap, x, m)) is None
                                        || open_slot(heap, x, m) == open_slot(old(heap), x, m) by {
                                        if x != fiber {
                                            assert(heap.view()[x as int] == old(heap).view()[x as int]);
                                        }
                                    }
                                    assert forall|x: usize| #[trigger] old(heap).spec_live(x) && old(heap).spec_object(x) is Fiber implies heap.spec_live(x)
                                        && heap.spec_object(x) is Fiber by {
                                        if x != fiber {
                                            assert(heap.view()[x as int] == old(heap).view()[x as int]);
                                        }
                                    }
                                }
                                Ok(())
                            } else {
                                heap.put(fiber, Object::Fiber(f));
                                assert(heap.view() =~= old(heap).view());
                                Err(RuntimeErrorKind::InvalidStackSlot(slot))
                            }
                        },
                        Some(o) => {
                            heap.put(fiber, o);
                            assert(heap.view() =~= old(heap).view());
                            Err(RuntimeErrorKind::InvalidUpvalueIndex(index))
                        },
                        None => Err(RuntimeErrorKind::InvalidUpvalueIndex(index)),
                    }
                }
            },
        }
    }

    /// The frame-relative slot `slot` as an index of the stack.
    fn slot_index(&self, slot: usize) -> (r: Result<usize, RuntimeErrorKind>)
        ensures
            self.frame.base <= self.stack@.len() && slot < self.stack@.len() - self.frame.base ==> r is Ok
                && r->Ok_0 as int == self.frame.base + slot,
            !(self.frame.base <= self.stack@.len() && slot < self.stack@.len() - self.frame.base) ==> r == Err::<usize, RuntimeErrorKind>(RuntimeErrorKind::InvalidStackSlot(slot)),
    {
        if self.frame.base <= self.stack.len() && slot < self.stack.len() - self.frame.base {
            Ok(self.frame.base + slot)
        } else {
            Err(RuntimeErrorKind::InvalidStackSlot(slot))
        }
    }

    /// Makes a closure over program function `fi`, capturing its upvalues.
    fn make_closure(&mut self, me: usize, heap: &mut Heap, program: &Program, fi: usize) -> (r: Result<usize, RuntimeErrorKind>)
        requires
            fi < program.functions@.len(),
        ensures
            heap_grows(old(heap), final(heap)),
            no_new_fibers(old(heap), final(heap)),
            open_unique(old(heap), old(self).open_upvalues@, me) ==> open_unique(final(heap), final(self).open_upvalues@, me),
            final(self).frame == old(self).frame,
            final(self).call_stack@ == old(self).call_stack@,
            final(self).stack@ == old(self).stack@,
            (r matches Ok(h) ==> final(heap).spec_live(h) && final(heap).spec_object(h) is Closure
                && final(heap).spec_object(h)->Closure_0.function == fi
                && captures(old(heap), final(heap), *old(self), me, program.functions@[fi as int].upvalues@,
                    final(heap).spec_object(h)->Closure_0.upvalues@)
                && kept_open(program.functions@[fi as int].upvalues@, final(heap).spec_object(h)->Closure_0.upvalues@,
                    final(self).open_upvalues@)),
            forall|x: usize| old(self).open_upvalues@.contains(x) ==> #[trigger] final(self).open_upvalues@.contains(x),
            descriptors_valid(old(heap), *old(self), program.functions@[fi as int].upvalues@) ==> r is Ok,
    {
        let target = &program.functions[fi];
        let mut upvalues: Vec<usize> = Vec::new();
        let mut i: usize = 0;
        while i < target.upvalues.len()
            invariant
                fi < program.functions@.len(),
                *target == program.functions@[fi as int],
                heap_grows(old(heap), heap),
                no_new_fibers(old(heap), heap),
                self.frame == old(self).frame,
                self.call_stack@ == old(self).call_stack@,
                self.stack@ == old(self).stack@,
                i <= target.upvalues@.len(),
                captures(old(heap), heap, *old(self), me, target.upvalues@.subrange(0, i as int), upvalues@),
                open_unique(old(heap), old(self).open_upvalues@, me) ==> open_unique(heap, self.open_upvalues@, me),
                kept_open(target.upvalues@.subrange(0, i as int), upvalues@, self.open_upvalues@),
                forall|x: usize| old(self).open_upvalues@.contains(x) ==> #[trigger] self.open_upvalues@.contains(x),
            decreases target.upvalues@.len() - i,
        {
            let ghost heap_before = *heap;
            let ghost open_before = self.open_upvalues@;
            let uh = match target.upvalues[i] {
                UpvalueDescriptor::Local(s) => {
                    let abs = match self.slot_index(s) {
                        Ok(a) => a,
                        Err(e) => {
                            proof {
                                assert(target.upvalues@[i as int] == UpvalueDescriptor::Local(s));
                                assert(target.upvalues@ == program.functions@[fi as int].upvalues@);
                                assert(!descriptors_valid(old(heap), *old(self), target.upvalues@));
                            }
                            return Err(e);
                        },
                    };
                    self.capture(me, heap, abs)
                },
                UpvalueDescriptor::Outer(j) => match self.upvalue_handle(heap, j) {
                    Ok(h) => h,
                    Err(e) => {
                        proof {
                            assert(target.upvalues@[i as int] == UpvalueDescriptor::Outer(j));
                            assert(target.upvalues@ == program.functions@[fi as int].upvalues@);
                            if old(heap).spec_live(self.frame.closure) {
                                assert(heap.view()[self.frame.closure as int] == old(heap).view()[self.frame.closure as int]);
                            }
                            assert(!descriptors_valid(old(heap), *old(self), target.upvalues@));
                        }
                        return Err(e);
                    },
                },
            };
            upvalues.push(uh);
            proof {
                let ds2 = target.upvalues@.subrange(0, i + 1);
                assert forall|k: int| 0 <= k < ds2.len() && #[trigger] ds2[k] is Local implies self.open_upvalues@.contains(upvalues@[k]) by {
                    if k < i {
                        assert(ds2[k] == target.upvalues@.subrange(0, i as int)[k]);
                        assert(open_before.contains(upvalues@[k]));
                    }
                }
                assert forall|x: usize| old(self).open_upvalues@.contains(x) implies #[trigger] self.open_upvalues@.contains(x) by {
                    assert(open_before.contains(x));
                }
                assert forall|x: usize| old(heap).view().len() <= x < heap.view().len() implies #[trigger] fiber_upvalues(heap, x) is None by {
                    if x < heap_before.view().len() {
                        assert(heap.view()[x as int] == heap_before.view()[x as int]);
                        assert(fiber_upvalues(&heap_before, x) is None);
                    }
                }
                let ds = target.upvalues@.subrange(0, i + 1);
                assert forall|k: int| 0 <= k < ds.len() implies #[trigger] captured(old(heap), heap, *old(self), me, ds[k], upvalues@[k]) by {
                    if k < i {
                        assert(ds[k] == target.upvalues@.subrange(0, i as int)[k]);
                        assert(captured(old(heap), &heap_before, *old(self), me, ds[k], upvalues@[k]));
                        lemma_captured_grows(old(heap), &heap_before, heap, *old(self), me, ds[k], upvalues@[k]);
                    }
                }
            }
            i = i + 1;
        }
        assert(target.upvalues@.subrange(0, target.upvalues@.len() as int) =~= target.upvalues@);
        let ghost heap_before = *heap;
        let ghost list_before = self.open_upvalues@;
        let h = heap.allocate(Object::Closure(Closure { function: fi, upvalues }));
        proof {
            assert forall|x: usize| old(heap).view().len() <= x < heap.view().len() implies #[trigger] fiber_upvalues(heap, x) is None by {
                if x < heap_before.view().len() {
                    assert(heap.view()[x as int] == heap_before.view()[x as int]);
                    assert(fiber_upvalues(&heap_before, x) is None);
                }
            }
            lemma_grows_keeps_open_slots(&heap_before, heap);
            if open_unique(&heap_before, list_before, me) {
                lemma_open_unique_kept(&heap_before, heap, list_before, list_before, me);
            }
            assert forall|k: int| 0 <= k < target.upvalues@.len() implies #[trigger] captured(old(heap), heap, *old(self), me, target.upvalues@[k], upvalues@[k]) by {
                assert(captured(old(heap), &heap_before, *old(self), me, target.upvalues@[k], upvalues@[k]));
                lemma_captured_grows(old(heap), &heap_before, heap, *old(self), me, target.upvalues@[k], upvalues@[k]);
            }
        }
        Ok(h)
    }

    /// Pops two operands, applies the binary operation of opcode `ins`
    /// (arithmetic, comparison, logic, bitwise or equality) and pushes the
    /// result.
    fn binary<F: Fn(FloatOp, u64, u64) -> u64>(&mut self, heap: &Heap, ins: u8, floats: &F) -> (r: Result<(), RuntimeErrorKind>)
        requires
            float_unit_total(floats),
        ensures
            final(self).frame == old(self).frame,
            final(self).call_stack@ == old(self).call_stack@,
            final(self).open_upvalues@ == old(self).open_upvalues@,
            r is Ok ==> final(self).stack@.len() == old(self).stack@.len() - 1,
            arith_of(ins) is Some && old(self).stack@.len() >= old(self).frame.base + 2
                && old(self).stack@[old(self).stack@.len() - 2] is Int && old(self).stack@.last() is Int
                && ops::int_arith(arith_of(ins)->Some_0, old(self).stack@[old(self).stack@.len() - 2]->Int_0, old(self).stack@.last()->Int_0) is Some
                ==> r is Ok && final(self).stack@ == old(self).stack@.drop_last().drop_last().push(Value::Int(
                    ops::int_arith(arith_of(ins)->Some_0, old(self).stack@[old(self).stack@.len() - 2]->Int_0, old(self).stack@.last()->Int_0)->Some_0)),
            old(self).stack@.len() >= old(self).frame.base + 2 ==> binary_on_stack(
                ins, old(self).stack@[old(self).stack@.len() - 2], old(self).stack@.last(), old(self).stack@, final(self).stack@, r),
            old(self).stack@.len() >= old(self).frame.base + 2 ==> numeric_on_stack(
                ins, old(self).stack@, final(self).stack@, floats, r),
            old(self).stack@.len() >= old(self).frame.base + 2 ==> other_binary_on_stack(
                heap, ins, old(self).stack@, final(self).stack@, floats, r),
    {
        let b = match self.pop() {
            Ok(v) => v,
            Err(e) => {
                return Err(e);
            },
        };
        let a = match self.pop() {
            Ok(v) => v,
            Err(e) => {
                return Err(e);
            },
        };
        let res = if ins == opcode::ADD {
            ops::arith(ArithOp::Add, a, b, floats)
        } else if ins == opcode::SUB {
            ops::arith(ArithOp::Sub, a, b, floats)
        } else if ins == opcode::MUL {
            ops::arith(ArithOp::Mul, a, b, floats)
        } else if ins == opcode::DIV {
            ops::arith(ArithOp::Div, a, b, floats)
        } else if ins == opcode::MOD {
            ops::arith(ArithOp::Rem, a, b, floats)
        } else if ins == opcode::GT {
            ops::compare(CompareOp::Gt, a, b, floats)
        } else if ins == opcode::GTE {
            ops::compare(CompareOp::Gte, a, b, floats)
        } else if ins == opcode::LT {
            ops::compare(CompareOp::Lt, a, b, floats)
        } else if ins == opcode::LTE {
            ops::compare(CompareOp::Lte, a, b, floats)
        } else if ins == opcode::AND {
            ops::logic(true, a, b)
        } else if ins == opcode::OR {
            ops::logic(false, a, b)
        } else if ins == opcode::BIT_AND {
            ops::bitwise(BitOp::And, a, b)
        } else if ins == opcode::BIT_OR {
            ops::bitwise(BitOp::Or, a, b)
        } else if ins == opcode::BIT_XOR {
            ops::bitwise(BitOp::Xor, a, b)
        } else if ins == opcode::SHL {
            ops::bitwise(BitOp::Shl, a, b)
        } else if ins == opcode::SHR {
            ops::bitwise(BitOp::Shr, a, b)
        } else if ins == opcode::EQ {
            Ok(Value::Bool(container::values_equal(heap, a, b, floats)))
        } else {
            Ok(Value::Bool(!container::values_equal(heap, a, b, floats)))
        };
        match res {
            Ok(v) => {
                self.push(v);
                assert(self.stack@.drop_last() =~= old(self).stack@.drop_last().drop_last());
                Ok(())
            },
            Err(e) => Err(e),
        }
    }
}

impl Fiber {
    /// Runs instruction `ins` of `function` (whose closure is the running
    /// frame's); `pc` has already moved past it.
    fn execute<F: Fn(FloatOp, u64, u64) -> u64>(
        &mut self,
        me: usize,
        heap: &mut Heap,
        program: &Program,
        function: &Function,
        ins: Instruction,
        floats: &F,
    ) -> (r: Result<FiberStep, RuntimeErrorKind>)
        requires
            float_unit_total(floats),
        ensures
            final(heap).view().len() >= old(heap).view().len(),
            (r matches Ok(FiberStep::Spawn(fh)) ==> old(heap).view().len() <= fh && final(heap).spec_live(fh)
                && final(heap).spec_object(fh) is Fiber),
            executes(*old(self), *final(self), ins, r),
            effect(old(heap), final(heap), program, *function, *old(self), *final(self), me, ins, floats, r),
            open_unique(old(heap), old(self).open_upvalues@, me) ==> open_unique(final(heap), final(self).open_upvalues@, me),
            keeps_fibers(old(heap), final(heap)),
            keeps_open_slots(old(heap), final(heap)),
            (r matches Ok(FiberStep::Spawn(fh)) ==> fiber_upvalues(final(heap), fh) == Some(Seq::<usize>::empty())),
            ins.spec_opcode() == opcode::CALL ==> calls(old(heap), program, *old(self), *final(self), ins.spec_operand() as int, r),
            ins.spec_opcode() == opcode::UPVAL_LOAD ==> loads_upvalue(old(heap), *old(self), *final(self), me, ins.spec_operand() as int, r),
            ins.spec_opcode() == opcode::OBJ_GET ==> gets(old(heap), *old(self), *final(self), r),
            ins.spec_opcode() == opcode::OBJ_SET ==> sets(old(heap), final(heap), *old(self), *final(self), r),
            ins.spec_opcode() == opcode::UPVAL_STORE ==> stores_upvalue(old(heap), final(heap), *old(self), *final(self), me, ins.spec_operand() as int, r),
            ins.spec_opcode() == opcode::CLOSURE && r is Ok ==> {
                let fi = function.functions@[ins.spec_operand() as int];
                let h = final(self).stack@.last()->Closure_0;
                &&& final(self).stack@.len() == old(self).stack@.len() + 1
                &&& final(self).stack@.last() is Closure
                &&& final(self).stack@.drop_last() == old(self).stack@
                &&& final(heap).spec_live(h)
                &&& final(heap).spec_object(h) is Closure
                &&& final(heap).spec_object(h)->Closure_0.function == fi
                &&& captures(old(heap), final(heap), *old(self), me, program.functions@[fi as int].upvalues@,
                    final(heap).spec_object(h)->Closure_0.upvalues@)
            },
    {
        let op = ins.opcode();
        let operand = ins.operand() as usize;
        if op == opcode::NO_OP {
        } else if op == opcode::NIL {
            self.push(Value::Nil);
        } else if op == opcode::TRUE {
            self.push(Value::Bool(true));
        } else if op == opcode::FALSE {
            self.push(Value::Bool(false));
        } else if op == opcode::INT {
            self.push(Value::Int(ins.signed_operand()));
        } else if op == opcode::CONST {
            if operand >= function.constants.len() {
                return Err(RuntimeErrorKind::InvalidConstantIndex(operand));
            }
            let v = match &function.constants[operand] {
                Constant::Int(i) => Value::Int(*i),
                Constant::Float(x) => Value::Float(*x),
                Constant::String(text) => {
                    let ghost heap0 = *heap;
                    let h = heap.allocate(Object::String(text.clone()));
                    proof {
                        assert(heap.view().drop_last() =~= heap0.view());
                        lemma_grows_keeps_open_slots(&heap0, heap);
                        lemma_grows_keeps_fibers(&heap0, heap);
                        lemma_open_unique_same_list(&heap0, heap, self.open_upvalues@, me);
                    }
                    Value::String(h)
                },
            };
            self.push(v);
        } else if op == opcode::LIST {
            let h = heap.allocate(Object::List(Vec::new()));
            proof {
                assert(heap.view().drop_last() =~= old(heap).view());
                lemma_grows_keeps_open_slots(old(heap), heap);
                lemma_grows_keeps_fibers(old(heap), heap);
                lemma_open_unique_same_list(old(heap), heap, self.open_upvalues@, me);
            }
            self.push(Value::List(h));
        } else if op == opcode::MAP {
            let h = heap.allocate(Object::Dict(Vec::new()));
            proof {
                assert(heap.view().drop_last() =~= old(heap).view());
                lemma_grows_keeps_open_slots(old(heap), heap);
                lemma_grows_keeps_fibers(old(heap), heap);
                lemma_open_unique_same_list(old(heap), heap, self.open_upvalues@, me);
            }
            self.push(Value::Dict(h));
        } else if op == opcode::CLOSURE {
            let fi = match function.function(operand) {
                Some(fi) => fi,
                None => {
                    return Err(RuntimeErrorKind::InvalidChunkIndex(operand));
                },
            };
            if fi >= program.functions.len() {
                return Err(RuntimeErrorKind::InvalidChunkIndex(fi));
            }
            let made = self.make_closure(me, heap, program, fi);
            proof {
                lemma_grows_keeps_fibers(old(heap), heap);
                lemma_grows_keeps_open_slots(old(heap), heap);
            }
            match made {
                Ok(h) => {
                    self.push(Value::Closure(h));
                    assert(self.stack@.drop_last() =~= old(self).stack@);
                },
                Err(e) => {
                    return Err(e);
                },
            }
        } else if op == opcode::LOAD {
            match self.slot_index(operand) {
                Ok(i) => {
                    let v = self.stack[i];
                    self.push(v);

                },
                Err(e) => {
                    return Err(e);
                },
            }
        } else if op == opcode::STORE {
            let v = match self.pop() {
                Ok(v) => v,
                Err(e) => {
                    return Err(e);
                },
            };
            match self.slot_index(operand) {
                Ok(i) => {
                    self.stack.set(i, v);
                },
                Err(e) => {
                    return Err(e);
                },
            }
        } else if op == opcode::DUP {
            let v = match self.pop() {
                Ok(v) => v,
                Err(e) => {
                    return Err(e);
                },
            };
            self.push(v);
            self.push(v);
            assert(self.stack@ =~= old(self).stack@.push(old(self).stack@.last()));
        } else if op == opcode::POP {
            match self.pop() {
                Ok(_) => {},
                Err(e) => {
                    return Err(e);
                },
            }
        } else if op == opcode::ADD || op == opcode::SUB || op == opcode::MUL || op == opcode::DIV
            || op == opcode::MOD || op == opcode::GT || op == opcode::GTE || op == opcode::LT
            || op == opcode::LTE || op == opcode::AND || op == opcode::OR || op == opcode::BIT_AND
            || op == opcode::BIT_OR || op == opcode::BIT_XOR || op == opcode::SHL || op == opcode::SHR
            || op == opcode::EQ || op == opcode::NEQ {
            match self.binary(heap, op, floats) {
                Ok(()) => {},
                Err(e) => {
                    return Err(e);
                },
            }
        } else if op == opcode::NEG || op == opcode::NOT {
            let a = match self.pop() {
                Ok(v) => v,
                Err(e) => {
                    return Err(e);
                },
            };
            let res = if op == opcode::NEG {
                ops::negate(a, floats)
            } else {
                ops::not(a)
            };
            match res {
                Ok(v) => {
                    self.push(v);
                    assert(self.stack@.drop_last() =~= old(self).stack@.drop_last());
                },
                Err(e) => {
                    return Err(e);
                },
            }
        } else if op == opcode::TEST {
            match self.pop() {
                Ok(Value::Bool(true)) => {
                    if self.frame.pc < usize::MAX {
                        self.frame.pc = self.frame.pc + 1;
                    }
                },
                Ok(Value::Bool(false)) => {
                },
                Ok(v) => {
                    let e = ops::wrong_type(&[ValueType::Bool], v.ty());
                    assert(e->InvalidType_expected@ =~= seq![ValueType::Bool]);
                    return Err(e);
                },
                Err(e) => {
                    return Err(e);
                },
            }
        } else if op == opcode::JUMP {
            let offset = ins.signed_operand();
            let pc = self.frame.pc;
            assert(offset as int == signed_operand(ins.spec_operand()));
            if offset >= 0 {
                if pc <= usize::MAX - (offset as usize) {
                    self.frame.pc = pc + offset as usize;
                } else {
                    return Err(RuntimeErrorKind::InvalidBytecodeOffset);
                }
            } else {
                let back = (0i64 - offset) as usize;
                assert(back as int == -(offset as int));
                if back <= pc {
                    self.frame.pc = pc - back;
                } else {
                    return Err(RuntimeErrorKind::InvalidBytecodeOffset);
                }
            }
        } else if op == opcode::CALL {
            let argc = operand;
            if !(self.frame.base <= self.stack.len() && argc < self.stack.len() - self.frame.base) {
                return Err(RuntimeErrorKind::StackUnderflow);
            }
            let callee_slot = self.stack.len() - 1 - argc;
            let callee = self.stack[callee_slot];
            let ch = match callee {
                Value::Closure(ch) => ch,
                _ => {
                    let e = ops::wrong_type(&[ValueType::Closure], callee.ty());
                    assert(e->InvalidType_expected@ =~= seq![ValueType::Closure]);
                    return Err(e);
                },
            };
            let arity = match heap.get(ch) {
                Some(Object::Closure(c)) => {
                    if c.function < program.functions.len() {
                        program.functions[c.function].arity
                    } else {
                        return Err(RuntimeErrorKind::InvalidChunkIndex(c.function));
                    }
                },
                _ => {
                    return Err(ops::wrong_type(&[ValueType::Closure], callee.ty()));
                },
            };
            if arity != argc {
                return Err(RuntimeErrorKind::WrongArity { expected: arity, received: argc });
            }
            self.call_stack.push(self.frame);
            self.frame = Frame { closure: ch, pc: 0, base: callee_slot };
        } else if op == opcode::RETURN {
            if self.stack.len() <= self.frame.base {
                return Err(RuntimeErrorKind::StackUnderflow);
            }
            let base = self.frame.base;
            self.close_upvalues(me, heap, base);
            let v = match self.pop() {
                Ok(v) => v,
                Err(e) => {
                    return Err(e);
                },
            };
            self.stack.truncate(base);
            assert(self.stack@ =~= old(self).stack@.subrange(0, base as int));
            match self.call_stack.pop() {
                Some(caller) => {
                    self.frame = caller;
                    self.push(v);
                },
                None => {
                    return Ok(FiberStep::Return(v));
                },
            }
        } else if op == opcode::UPVAL_LOAD {
            let uh = match self.upvalue_handle(heap, operand) {
                Ok(h) => h,
                Err(e) => {
                    return Err(e);
                },
            };
            match self.read_upvalue(me, heap, uh, operand) {
                Ok(v) => self.push(v),
                Err(e) => {
                    return Err(e);
                },
            }
        } else if op == opcode::UPVAL_STORE {
            let v = match self.pop() {
                Ok(v) => v,
                Err(e) => {
                    return Err(e);
                },
            };
            let uh = match self.upvalue_handle(heap, operand) {
                Ok(h) => h,
                Err(e) => {
                    return Err(e);
                },
            };
            let r = self.write_upvalue(me, heap, uh, operand, v);
            proof {
                lemma_open_unique_same_list(old(heap), heap, self.open_upvalues@, me);
            }
            match r {
                Ok(()) => {},
                Err(e) => {
                    return Err(e);
                },
            }
        } else if op == opcode::UPVAL_CLOSE {
            if self.stack.len() <= self.frame.base {
                return Err(RuntimeErrorKind::StackUnderflow);
            }
            let top = self.stack.len() - 1;
            self.close_upvalues(me, heap, top);
            self.stack.pop();
        } else if op == opcode::OBJ_GET {
            let key = match self.pop() {
                Ok(v) => v,
                Err(e) => {
                    return Err(e);
                },
            };
            let obj = match self.pop() {
                Ok(v) => v,
                Err(e) => {
                    return Err(e);
                },
            };
            match container::get(heap, obj, key) {
                Ok(v) => {
                    self.push(v);
                    assert(self.stack@.drop_last() =~= old(self).stack@.drop_last().drop_last());
                },
                Err(e) => {
                    return Err(e);
                },
            }
        } else if op == opcode::OBJ_SET {
            let v = match self.pop() {
                Ok(v) => v,
                Err(e) => {
                    return Err(e);
                },
            };
            let key = match self.pop() {
                Ok(v) => v,
                Err(e) => {
                    return Err(e);
                },
            };
            let obj = match self.pop() {
                Ok(v) => v,
                Err(e) => {
                    return Err(e);
                },
            };
            let r = container::set(heap, obj, key, v);
            proof {
                lemma_open_unique_same_list(old(heap), heap, self.open_upvalues@, me);
            }
            match r {
                Ok(()) => {},
                Err(e) => {
                    return Err(e);
                },
            }
        } else if op == opcode::SPAWN {
            let c = match self.pop() {
                Ok(v) => v,
                Err(e) => {
                    return Err(e);
                },
            };
            match c {
                Value::Closure(ch) => {
                    let fh = heap.allocate(Object::Fiber(Fiber::new(ch)));
                    proof {
                        assert(heap.spec_object(fh)->Fiber_0.open_upvalues@ =~= Seq::<usize>::empty());
                        assert(fiber_upvalues(heap, fh) == Some(Seq::<usize>::empty()));
                        lemma_grows_keeps_open_slots(old(heap), heap);
                        lemma_grows_keeps_fibers(old(heap), heap);
                        lemma_open_unique_same_list(old(heap), heap, self.open_upvalues@, me);
                    }
                    self.push(Value::Fiber(fh));
                    proof {
                        assert(heap.view().drop_last() =~= old(heap).view());
                        assert(self.stack@ =~= old(self).stack@.drop_last().push(Value::Fiber(fh)));
                        assert(heap.spec_object(fh)->Fiber_0.stack@ =~= seq![old(self).stack@.last()]);
                    }
                    return Ok(FiberStep::Spawn(fh));
                },
                _ => {
                    return Err(ops::wrong_type(&[ValueType::Closure], c.ty()));
                },
            }
        } else if op == opcode::YIELD {
            match self.pop() {
                Ok(v) => {
                    return Ok(FiberStep::Yield(v));
                },
                Err(e) => {
                    return Err(e);
                },
            }
        } else {
            return Err(RuntimeErrorKind::InvalidOpcode(op));
        }
        Ok(FiberStep::Continue)
    }

    /// Runs the next instruction of the running frame. `me` is this fiber's
    /// handle; its heap slot is empty while it runs.
    pub fn step<F: Fn(FloatOp, u64, u64) -> u64>(&mut self, me: usize, heap: &mut Heap, program: &Program, floats: &F) -> (r: Result<FiberStep, RuntimeError>)
        requires
            float_unit_total(floats),
        ensures
            final(heap).view().len() >= old(heap).view().len(),
            (r matches Ok(FiberStep::Spawn(fh)) ==> old(heap).view().len() <= fh && final(heap).spec_live(fh)
                && final(heap).spec_object(fh) is Fiber),
            fetch(old(heap), program, old(self).frame) is None ==> r is Err,
            open_unique(old(heap), old(self).open_upvalues@, me) ==> open_unique(final(heap), final(self).open_upvalues@, me),
            keeps_fibers(old(heap), final(heap)),
            keeps_open_slots(old(heap), final(heap)),
            (r matches Ok(FiberStep::Spawn(fh)) ==> fiber_upvalues(final(heap), fh) == Some(Seq::<usize>::empty())),
            r is Err ==> r->Err_0.spec_context().bytecode_offset == old(self).frame.pc,
            fiber_steps(old(heap), final(heap), program, *old(self), *final(self), me, floats, kind_of(r)),
    {
        let pc = self.frame.pc;
        let fi = match heap.get(self.frame.closure) {
            Some(Object::Closure(c)) => c.function,
            _ => {
                let ctx = RuntimeErrorContext { path: program.path.clone(), chunk_name: String::new(), bytecode_offset: pc };
                return Err(RuntimeError::new(ctx, RuntimeErrorKind::InvalidClosure(self.frame.closure)));
            },
        };
        if fi >= program.functions.len() {
            let ctx = RuntimeErrorContext { path: program.path.clone(), chunk_name: String::new(), bytecode_offset: pc };
            return Err(RuntimeError::invalid_chunk_index(ctx, fi));
        }
        let function = &program.functions[fi];
        let ins = match function.instruction(pc) {
            Some(ins) => ins,
            None => {
                return Err(RuntimeError::invalid_bytecode_offset(context(program, function, pc)));
            },
        };
        let n = function.code.len();
        assert(pc < n);
        self.frame.pc = pc + 1;
        match self.execute(me, heap, program, function, ins, floats) {
            Ok(s) => Ok(s),
            Err(kind) => Err(RuntimeError::new(context(program, function, pc), kind)),
        }
    }
}

/// The instruction the running frame of a fiber is at, if its closure,
/// function and offset are all valid.
pub open spec fn fetch(heap: &Heap, program: &Program, frame: Frame) -> Option<Instruction> {
    if heap.spec_live(frame.closure) && heap.spec_object(frame.closure) is Closure {
        let fi = heap.spec_object(frame.closure)->Closure_0.function;
        if fi < program.functions@.len() && frame.pc < program.functions@[fi as int].code@.len() {
            Some(program.functions@[fi as int].code@[frame.pc as int])
        } else {
            None
        }
    } else {
        None
    }
}

/// What running instruction `ins` does to fiber `f` (whose pc has moved
/// past it), for the instructions that work on the stack and the frame
/// alone: `g` is the fiber afterwards and `r` the outcome.
pub open spec fn executes(f: Fiber, g: Fiber, ins: Instruction, r: Result<FiberStep, RuntimeErrorKind>) -> bool {
    let op = ins.spec_opcode();
    let s = f.stack@;
    let n = s.len() - f.frame.base;
    let x = ins.spec_operand() as int;
    let jump = signed_operand(ins.spec_operand());
    let continues = r == Ok::<FiberStep, RuntimeErrorKind>(FiberStep::Continue) && g.frame == f.frame
        && g.call_stack@ == f.call_stack@;
    &&& op == opcode::NO_OP ==> continues && g.stack@ == s
    &&& op == opcode::NIL ==> continues && g.stack@ == s.push(Value::Nil)
    &&& op == opcode::TRUE ==> continues && g.stack@ == s.push(Value::Bool(true))
    &&& op == opcode::FALSE ==> continues && g.stack@ == s.push(Value::Bool(false))
    &&& op == opcode::INT ==> continues && g.stack@ == s.push(Value::Int(signed_operand(ins.spec_operand()) as i64))
    &&& op == opcode::DUP && n >= 1 ==> continues && g.stack@ == s.push(s.last())
    &&& op == opcode::POP && n >= 1 ==> continues && g.stack@ == s.drop_last()
    &&& (op == opcode::DUP || op == opcode::POP || op == opcode::YIELD || op == opcode::RETURN) && n < 1
        ==> r == Err::<FiberStep, RuntimeErrorKind>(RuntimeErrorKind::StackUnderflow)
    &&& n >= 2 && (compare_of(op) is Some || bit_of(op) is Some) && s[s.len() - 2] is Int && s.last() is Int ==> continues
    &&& n >= 2 && (op == opcode::AND || op == opcode::OR) && s[s.len() - 2] is Bool && s.last() is Bool ==> continues
    &&& n >= 2 && (compare_of(op) is Some || bit_of(op) is Some || op == opcode::AND || op == opcode::OR)
        && r is Ok ==> binary_on_stack(op, s[s.len() - 2], s.last(), s, g.stack@, Ok(()))
    &&& op == opcode::NOT && n >= 1 && s.last() is Bool ==> continues && g.stack@ == s.drop_last().push(Value::Bool(!s.last()->Bool_0))
    &&& op == opcode::NEG && n >= 1 && s.last() is Int ==> continues
        && g.stack@ == s.drop_last().push(Value::Int(vstd::wrapping::i64_specs::wrapping_sub(0i64, s.last()->Int_0)))
    &&& arith_of(op) is Some && n >= 2 && s[s.len() - 2] is Int && s.last() is Int
        && ops::int_arith(arith_of(op)->Some_0, s[s.len() - 2]->Int_0, s.last()->Int_0) is Some
        ==> continues && g.stack@ == s.drop_last().drop_last().push(Value::Int(
            ops::int_arith(arith_of(op)->Some_0, s[s.len() - 2]->Int_0, s.last()->Int_0)->Some_0))
    &&& op == opcode::YIELD && n >= 1 ==> r == Ok::<FiberStep, RuntimeErrorKind>(FiberStep::Yield(s.last()))
        && g.stack@ == s.drop_last() && g.frame == f.frame && g.call_stack@ == f.call_stack@
    &&& op == opcode::RETURN && n >= 1 && f.call_stack@.len() == 0 ==> r == Ok::<FiberStep, RuntimeErrorKind>(FiberStep::Return(s.last()))
    &&& op == opcode::RETURN && n >= 1 && f.call_stack@.len() > 0 ==> continues_after_return(f, g, r)
    &&& !known_opcode(op) ==> r == Err::<FiberStep, RuntimeErrorKind>(RuntimeErrorKind::InvalidOpcode(op))
    &&& op == opcode::LOAD && 0 <= x < n ==> continues && g.stack@ == s.push(s[f.frame.base + x])
    &&& op == opcode::LOAD && !(0 <= x < n) ==> r == Err::<FiberStep, RuntimeErrorKind>(RuntimeErrorKind::InvalidStackSlot(x as usize))
    &&& op == opcode::STORE && n >= 1 && x < n - 1 ==> continues && g.stack@ == s.drop_last().update(f.frame.base + x, s.last())
    &&& op == opcode::STORE && n >= 1 && x >= n - 1 ==> r == Err::<FiberStep, RuntimeErrorKind>(RuntimeErrorKind::InvalidStackSlot(x as usize))
    &&& op == opcode::TEST && n >= 1 && s.last() == Value::Bool(false) ==> continues && g.stack@ == s.drop_last()
    &&& op == opcode::TEST && n >= 1 && s.last() == Value::Bool(true) && f.frame.pc < usize::MAX ==> r == Ok::<FiberStep, RuntimeErrorKind>(FiberStep::Continue)
        && g.stack@ == s.drop_last() && g.frame == (Frame { pc: (f.frame.pc + 1) as usize, ..f.frame }) && g.call_stack@ == f.call_stack@
    &&& op == opcode::TEST && n >= 1 && !(s.last() is Bool) ==> r is Err && ops::is_wrong_type(r->Err_0, seq![ValueType::Bool], s.last().spec_ty())
    &&& op == opcode::JUMP && 0 <= f.frame.pc + jump <= usize::MAX ==> r == Ok::<FiberStep, RuntimeErrorKind>(FiberStep::Continue) && g.stack@ == s
        && g.frame == (Frame { pc: (f.frame.pc + jump) as usize, ..f.frame }) && g.call_stack@ == f.call_stack@
    &&& op == opcode::JUMP && !(0 <= f.frame.pc + jump <= usize::MAX) ==> r == Err::<FiberStep, RuntimeErrorKind>(RuntimeErrorKind::InvalidBytecodeOffset)
}

/// What `CALL argc` does: the value `argc` below the top must be a closure
/// whose function takes `argc` arguments; a new frame runs it from offset 0,
/// with the callee in its slot 0.
pub open spec fn calls(heap: &Heap, program: &Program, f: Fiber, g: Fiber, argc: int, r: Result<FiberStep, RuntimeErrorKind>) -> bool {
    let s = f.stack@;
    let n = s.len() - f.frame.base;
    let callee_slot = s.len() - 1 - argc;
    &&& argc >= n ==> r == Err::<FiberStep, RuntimeErrorKind>(RuntimeErrorKind::StackUnderflow)
    &&& argc < n && s[callee_slot] is Closure && heap.spec_live(s[callee_slot]->Closure_0)
        && heap.spec_object(s[callee_slot]->Closure_0) is Closure
        && heap.spec_object(s[callee_slot]->Closure_0)->Closure_0.function < program.functions@.len() ==> {
        let ch = s[callee_slot]->Closure_0;
        let arity = program.functions@[heap.spec_object(ch)->Closure_0.function as int].arity;
        &&& arity == argc ==> r == Ok::<FiberStep, RuntimeErrorKind>(FiberStep::Continue)
            && g.call_stack@ == f.call_stack@.push(f.frame)
            && g.frame == (Frame { closure: ch, pc: 0, base: callee_slot as usize })
            && g.stack@ == s
        &&& arity != argc ==> r == Err::<FiberStep, RuntimeErrorKind>(RuntimeErrorKind::WrongArity { expected: arity, received: argc as usize })
    }
    &&& argc < n && !(s[callee_slot] is Closure) ==> r is Err && ops::is_wrong_type(r->Err_0, seq![ValueType::Closure], s[callee_slot].spec_ty())
}

/// What `UPVAL_LOAD index` does when the running closure has that upvalue:
/// it pushes the cell's value, closed or still in its stack slot.
pub open spec fn loads_upvalue(heap: &Heap, f: Fiber, g: Fiber, me: usize, index: int, r: Result<FiberStep, RuntimeErrorKind>) -> bool {
    heap.spec_live(f.frame.closure) && heap.spec_object(f.frame.closure) is Closure
        && index < heap.spec_object(f.frame.closure)->Closure_0.upvalues@.len() ==> {
        let uh = heap.spec_object(f.frame.closure)->Closure_0.upvalues@[index];
        &&& heap.spec_live(uh) && heap.spec_object(uh) is Upvalue && heap.spec_object(uh)->Upvalue_0 is Closed
            ==> r == Ok::<FiberStep, RuntimeErrorKind>(FiberStep::Continue)
            && g.stack@ == f.stack@.push(heap.spec_object(uh)->Upvalue_0->Closed_0)
        &&& open_slot(heap, uh, me) is Some && open_slot(heap, uh, me)->Some_0 < f.stack@.len()
            ==> r == Ok::<FiberStep, RuntimeErrorKind>(FiberStep::Continue)
            && g.stack@ == f.stack@.push(f.stack@[open_slot(heap, uh, me)->Some_0 as int])
    }
}

/// What `UPVAL_STORE index` does when the running closure has that upvalue
/// and a value is on the stack: it pops the value into the cell, closed or
/// still in its stack slot.
pub open spec fn stores_upvalue(heap: &Heap, heap2: &Heap, f: Fiber, g: Fiber, me: usize, index: int, r: Result<FiberStep, RuntimeErrorKind>) -> bool {
    let s = f.stack@;
    heap.spec_live(f.frame.closure) && heap.spec_object(f.frame.closure) is Closure
        && index < heap.spec_object(f.frame.closure)->Closure_0.upvalues@.len() && s.len() > f.frame.base ==> {
        let uh = heap.spec_object(f.frame.closure)->Closure_0.upvalues@[index];
        &&& heap.spec_live(uh) && heap.spec_object(uh) is Upvalue && heap.spec_object(uh)->Upvalue_0 is Closed
            ==> r == Ok::<FiberStep, RuntimeErrorKind>(FiberStep::Continue) && g.stack@ == s.drop_last()
            && heap2.view() == heap.view().update(uh as int, Some(Object::Upvalue(Upvalue::Closed(s.last()))))
        &&& open_slot(heap, uh, me) is Some && open_slot(heap, uh, me)->Some_0 < s.len() - 1
            ==> r == Ok::<FiberStep, RuntimeErrorKind>(FiberStep::Continue)
            && g.stack@ == s.drop_last().update(open_slot(heap, uh, me)->Some_0 as int, s.last())
            && heap2.view() == heap.view()
    }
}

/// What `OBJ_SET` does: it pops a value, a key and a container and writes
/// the value there as `container::set` does.
pub open spec fn sets(heap: &Heap, heap2: &Heap, f: Fiber, g: Fiber, r: Result<FiberStep, RuntimeErrorKind>) -> bool {
    let s = f.stack@;
    s.len() >= f.frame.base + 3 ==> {
        let container = s[s.len() - 3];
        let key = s[s.len() - 2];
        let v = s.last();
        &&& r is Ok ==> r == Ok::<FiberStep, RuntimeErrorKind>(FiberStep::Continue)
            && g.stack@ == s.drop_last().drop_last().drop_last()
            && container::set_result(heap, heap2, container, key, v, Ok(()))
        &&& r is Err ==> container::set_result(heap, heap2, container, key, v, Err(r->Err_0))
    }
}

/// What `OBJ_GET` does: it pops a key and a container and pushes what
/// `container::get` reads there.
pub open spec fn gets(heap: &Heap, f: Fiber, g: Fiber, r: Result<FiberStep, RuntimeErrorKind>) -> bool {
    let s = f.stack@;
    s.len() >= f.frame.base + 2 ==> {
        let container = s[s.len() - 2];
        let key = s.last();
        &&& r is Ok ==> r == Ok::<FiberStep, RuntimeErrorKind>(FiberStep::Continue)
            && g.stack@.len() == s.len() - 1
            && g.stack@.drop_last() == s.drop_last().drop_last()
            && container::get_result(heap, container, key, Ok(g.stack@.last()))
            && g.frame == f.frame && g.call_stack@ == f.call_stack@
        &&& r is Err ==> container::get_result(heap, container, key, Err(r->Err_0))
    }
}

/// A return from a called frame: the caller's frame is resumed, the callee's
/// locals are gone, and the returned value is on top.
pub open spec fn continues_after_return(f: Fiber, g: Fiber, r: Result<FiberStep, RuntimeErrorKind>) -> bool {
    &&& r == Ok::<FiberStep, RuntimeErrorKind>(FiberStep::Continue)
    &&& g.frame == f.call_stack@.last()
    &&& g.call_stack@ == f.call_stack@.drop_last()
    &&& g.stack@ == f.stack@.subrange(0, f.frame.base as int).push(f.stack@.last())
}

pub open spec fn known_opcode(op: u8) -> bool {
    op == opcode::NO_OP || op == opcode::NIL || op == opcode::TRUE || op == opcode::FALSE || op == opcode::INT
        || op == opcode::CONST || op == opcode::LIST || op == opcode::MAP || op == opcode::CLOSURE
        || op == opcode::LOAD || op == opcode::STORE || op == opcode::DUP || op == opcode::POP
        || op == opcode::ADD || op == opcode::SUB || op == opcode::MUL || op == opcode::DIV
        || op == opcode::MOD || op == opcode::GT || op == opcode::GTE || op == opcode::LT
        || op == opcode::LTE || op == opcode::AND || op == opcode::OR || op == opcode::BIT_AND
        || op == opcode::BIT_OR || op == opcode::BIT_XOR || op == opcode::SHL || op == opcode::SHR
        || op == opcode::EQ || op == opcode::NEQ || op == opcode::NEG || op == opcode::NOT
        || op == opcode::TEST || op == opcode::JUMP || op == opcode::CALL || op == opcode::RETURN
        || op == opcode::UPVAL_LOAD || op == opcode::UPVAL_STORE || op == opcode::UPVAL_CLOSE
        || op == opcode::OBJ_GET || op == opcode::OBJ_SET || op == opcode::SPAWN || op == opcode::YIELD
}

/// The comparison of an opcode.
pub open spec fn compare_of(ins: u8) -> Option<CompareOp> {
    if ins == opcode::GT {
        Some(CompareOp::Gt)
    } else if ins == opcode::GTE {
        Some(CompareOp::Gte)
    } else if ins == opcode::LT {
        Some(CompareOp::Lt)
    } else if ins == opcode::LTE {
        Some(CompareOp::Lte)
    } else {
        None
    }
}

/// The bitwise operation of an opcode.
pub open spec fn bit_of(ins: u8) -> Option<BitOp> {
    if ins == opcode::BIT_AND {
        Some(BitOp::And)
    } else if ins == opcode::BIT_OR {
        Some(BitOp::Or)
    } else if ins == opcode::BIT_XOR {
        Some(BitOp::Xor)
    } else if ins == opcode::SHL {
        Some(BitOp::Shl)
    } else if ins == opcode::SHR {
        Some(BitOp::Shr)
    } else {
        None
    }
}

/// What a binary opcode `ins` does to a stack `s` whose top two values are
/// `a` and `b`, for integer comparisons, bitwise operations and boolean
/// logic: `t` is the stack afterwards.
pub open spec fn binary_on_stack(ins: u8, a: Value, b: Value, s: Seq<Value>, t: Seq<Value>, r: Result<(), RuntimeErrorKind>) -> bool {
    let rest = s.drop_last().drop_last();
    &&& compare_of(ins) is Some && a is Int && b is Int ==> r is Ok
        && t == rest.push(Value::Bool(ops::int_compare(compare_of(ins)->Some_0, a->Int_0, b->Int_0)))
    &&& bit_of(ins) is Some && a is Int && b is Int ==> r is Ok
        && t == rest.push(Value::Int(ops::int_bitwise(bit_of(ins)->Some_0, a->Int_0, b->Int_0)))
    &&& (ins == opcode::AND || ins == opcode::OR) && a is Bool && b is Bool ==> r is Ok
        && t == rest.push(Value::Bool(if ins == opcode::AND { a->Bool_0 && b->Bool_0 } else { a->Bool_0 || b->Bool_0 }))
}

/// What an arithmetic or comparison opcode `ins` does to a stack `s` with
/// two values on top, as `ops::arith` and `ops::compare` compute it: `t` is
/// the stack afterwards.
pub open spec fn numeric_on_stack<F: Fn(FloatOp, u64, u64) -> u64>(ins: u8, s: Seq<Value>, t: Seq<Value>, floats: &F, r: Result<(), RuntimeErrorKind>) -> bool {
    let a = s[s.len() - 2];
    let b = s.last();
    let rest = s.drop_last().drop_last();
    &&& arith_of(ins) is Some && r is Ok ==> t.len() == rest.len() + 1 && t.drop_last() == rest
        && ops::arith_spec(arith_of(ins)->Some_0, a, b, floats, Ok(t.last()))
    &&& arith_of(ins) is Some && r is Err ==> ops::arith_spec(arith_of(ins)->Some_0, a, b, floats, Err(r->Err_0))
    &&& compare_of(ins) is Some && r is Ok ==> t.len() == rest.len() + 1 && t.drop_last() == rest
        && ops::compare_spec(compare_of(ins)->Some_0, a, b, floats, Ok(t.last()))
    &&& compare_of(ins) is Some && r is Err ==> ops::compare_spec(compare_of(ins)->Some_0, a, b, floats, Err(r->Err_0))
}

/// The outcome of a fiber step, with an error reduced to its kind.
pub open spec fn kind_of(r: Result<FiberStep, RuntimeError>) -> Result<FiberStep, RuntimeErrorKind> {
    match r {
        Ok(s) => Ok(s),
        Err(e) => Err(e.spec_kind()),
    }
}

/// `f` with its pc moved past the instruction it is at.
pub open spec fn moved_past(f: Fiber) -> Fiber {
    Fiber { frame: Frame { pc: (f.frame.pc + 1) as usize, ..f.frame }, ..f }
}

/// One step of fiber `f` (handle `me`): if its frame is at a valid
/// instruction, that instruction's `effect`, with the pc moved past it; else
/// an error, with nothing changed.
pub open spec fn fiber_steps<F: Fn(FloatOp, u64, u64) -> u64>(
    h1: &Heap,
    h2: &Heap,
    program: &Program,
    f: Fiber,
    g: Fiber,
    me: usize,
    floats: &F,
    r: Result<FiberStep, RuntimeErrorKind>,
) -> bool {
    match fetch(h1, program, f.frame) {
        None => r is Err && g == f && h2.view() == h1.view(),
        Some(ins) => effect(h1, h2, program, running_function(h1, program, f.frame), moved_past(f), g, me, ins, floats, r),
    }
}

/// The opcodes that leave the heap as it is.
pub open spec fn leaves_heap(op: u8) -> bool {
    op == opcode::NO_OP || op == opcode::NIL || op == opcode::TRUE || op == opcode::FALSE || op == opcode::INT
        || op == opcode::LOAD || op == opcode::STORE || op == opcode::DUP || op == opcode::POP
        || arith_of(op) is Some || compare_of(op) is Some || bit_of(op) is Some || op == opcode::AND
        || op == opcode::OR || op == opcode::EQ || op == opcode::NEQ || op == opcode::NEG || op == opcode::NOT
        || op == opcode::TEST || op == opcode::JUMP || op == opcode::CALL || op == opcode::YIELD
        || op == opcode::UPVAL_LOAD || op == opcode::OBJ_GET
}

/// Closing the open upvalues `open` of fiber `me` at `threshold`, with the
/// fiber's stack `stack`: each one open on a slot at or above the threshold
/// takes the value in its slot; every other object is left as it was.
pub open spec fn closed_at(h1: &Heap, h2: &Heap, open: Seq<usize>, stack: Seq<Value>, me: usize, threshold: usize) -> bool {
    &&& h2.view().len() == h1.view().len()
    &&& forall|h: usize| #[trigger] open.contains(h) && closes(h1, h, me, threshold, stack.len())
        ==> h2.spec_live(h) && h2.spec_object(h) == Object::Upvalue(Upvalue::Closed(stack[open_slot(h1, h, me)->Some_0 as int]))
    &&& forall|x: usize| x < h1.view().len() && !(open.contains(x) && closes(h1, x, me, threshold, stack.len()))
        ==> #[trigger] h2.view()[x as int] == h1.view()[x as int]
}

/// `h2` is `h1` with one more object.
pub open spec fn one_more(h1: &Heap, h2: &Heap) -> bool {
    h2.view().len() == h1.view().len() + 1 && h2.view().drop_last() == h1.view() && h2.spec_live(h1.view().len() as usize)
}

/// The function of the closure that `frame` runs.
pub open spec fn running_function(heap: &Heap, program: &Program, frame: Frame) -> Function {
    program.functions@[heap.spec_object(frame.closure)->Closure_0.function as int]
}

/// Everything one instruction `ins` of `function` does: `f` is the fiber
/// (handle `me`) with its pc moved past `ins`, `g` the fiber afterwards,
/// `h1` and `h2` the heap before and after, and `r` the outcome.
pub open spec fn effect<F: Fn(FloatOp, u64, u64) -> u64>(
    h1: &Heap,
    h2: &Heap,
    program: &Program,
    function: Function,
    f: Fiber,
    g: Fiber,
    me: usize,
    ins: Instruction,
    floats: &F,
    r: Result<FiberStep, RuntimeErrorKind>,
) -> bool {
    let op = ins.spec_opcode();
    let x = ins.spec_operand() as int;
    let s = f.stack@;
    let n = s.len() - f.frame.base;
    let top = h1.view().len() as usize;
    let continues = r == Ok::<FiberStep, RuntimeErrorKind>(FiberStep::Continue) && g.frame == f.frame
        && g.call_stack@ == f.call_stack@;
    &&& executes(f, g, ins, r)
    &&& leaves_heap(op) ==> h2.view() == h1.view()
    &&& op == opcode::CALL ==> calls(h1, program, f, g, x, r)
    &&& op == opcode::UPVAL_LOAD ==> loads_upvalue(h1, f, g, me, x, r)
    &&& op == opcode::UPVAL_STORE ==> stores_upvalue(h1, h2, f, g, me, x, r)
    &&& op == opcode::OBJ_GET ==> gets(h1, f, g, r)
    &&& op == opcode::OBJ_SET ==> sets(h1, h2, f, g, r)
    &&& n >= 2 && (arith_of(op) is Some || compare_of(op) is Some) ==> numeric_on_stack(op, s, g.stack@, floats, match r {
        Ok(_) => Ok(()),
        Err(e) => Err(e),
    }) && (r is Ok ==> continues)
    &&& n >= 2 && (bit_of(op) is Some || op == opcode::AND || op == opcode::OR || op == opcode::EQ || op == opcode::NEQ)
        ==> other_binary_on_stack(h1, op, s, g.stack@, floats, match r {
        Ok(_) => Ok(()),
        Err(e) => Err(e),
    }) && (r is Ok ==> continues)
    &&& n >= 1 && op == opcode::NEG && r is Ok ==> continues && g.stack@.len() == s.len() && g.stack@.drop_last() == s.drop_last()
        && ops::negate_spec(s.last(), floats, Ok(g.stack@.last()))
    &&& n >= 1 && op == opcode::NEG && r is Err ==> ops::negate_spec(s.last(), floats, Err(r->Err_0))
    &&& n >= 1 && op == opcode::NOT && r is Ok ==> continues && g.stack@.len() == s.len() && g.stack@.drop_last() == s.drop_last()
        && ops::not_spec(s.last(), Ok(g.stack@.last()))
    &&& n >= 1 && op == opcode::NOT && r is Err ==> ops::not_spec(s.last(), Err(r->Err_0))
    &&& op == opcode::CONST && x < function.constants@.len() ==> match function.constants@[x] {
        Constant::Int(i) => continues && g.stack@ == s.push(Value::Int(i)) && h2.view() == h1.view(),
        Constant::Float(b) => continues && g.stack@ == s.push(Value::Float(b)) && h2.view() == h1.view(),
        Constant::String(t) => continues && g.stack@ == s.push(Value::String(top)) && one_more(h1, h2)
            && h2.spec_object(top) == Object::String(t),
    }
    &&& op == opcode::CONST && x >= function.constants@.len() ==> r == Err::<FiberStep, RuntimeErrorKind>(
        RuntimeErrorKind::InvalidConstantIndex(x as usize))
    &&& op == opcode::LIST ==> continues && g.stack@ == s.push(Value::List(top)) && one_more(h1, h2)
        && h2.spec_object(top) is List && h2.spec_object(top)->List_0@.len() == 0
    &&& op == opcode::MAP ==> continues && g.stack@ == s.push(Value::Dict(top)) && one_more(h1, h2)
        && h2.spec_object(top) is Dict && h2.spec_object(top)->Dict_0@.len() == 0
    &&& op == opcode::SPAWN && n >= 1 && s.last() is Closure ==> {
        let child = h2.spec_object(top)->Fiber_0;
        &&& r == Ok::<FiberStep, RuntimeErrorKind>(FiberStep::Spawn(top))
        &&& g.stack@ == s.drop_last().push(Value::Fiber(top))
        &&& g.frame == f.frame && g.call_stack@ == f.call_stack@
        &&& one_more(h1, h2) && h2.spec_object(top) is Fiber
        &&& child.frame == (Frame { closure: s.last()->Closure_0, pc: 0, base: 0 })
        &&& child.call_stack@.len() == 0 && child.open_upvalues@.len() == 0
        &&& child.stack@ == seq![s.last()]
    }
    &&& op == opcode::RETURN && n >= 1 ==> closed_at(h1, h2, f.open_upvalues@, s, me, f.frame.base)
    &&& op == opcode::UPVAL_CLOSE && n >= 1 ==> continues && g.stack@ == s.drop_last()
        && closed_at(h1, h2, f.open_upvalues@, s, me, (s.len() - 1) as usize)
    &&& op == opcode::UPVAL_CLOSE && n < 1 ==> r == Err::<FiberStep, RuntimeErrorKind>(RuntimeErrorKind::StackUnderflow)
    &&& op == opcode::CLOSURE && x >= function.functions@.len() ==> r == Err::<FiberStep, RuntimeErrorKind>(
        RuntimeErrorKind::InvalidChunkIndex(x as usize))
    &&& op == opcode::CLOSURE && x < function.functions@.len() && function.functions@[x] >= program.functions@.len()
        ==> r == Err::<FiberStep, RuntimeErrorKind>(RuntimeErrorKind::InvalidChunkIndex(function.functions@[x]))
    &&& op == opcode::CLOSURE && x < function.functions@.len() && function.functions@[x] < program.functions@.len()
        && descriptors_valid(h1, f, program.functions@[function.functions@[x] as int].upvalues@) ==> r is Ok
    &&& op == opcode::CLOSURE && r is Ok ==> {
        let fi = function.functions@[x];
        let h = g.stack@.last()->Closure_0;
        &&& continues
        &&& g.stack@.len() == s.len() + 1
        &&& g.stack@.last() is Closure
        &&& g.stack@.drop_last() == s
        &&& h2.spec_live(h)
        &&& h2.spec_object(h) is Closure
        &&& h2.spec_object(h)->Closure_0.function == fi
        &&& captures(h1, h2, f, me, program.functions@[fi as int].upvalues@, h2.spec_object(h)->Closure_0.upvalues@)
        &&& kept_open(program.functions@[fi as int].upvalues@, h2.spec_object(h)->Closure_0.upvalues@, g.open_upvalues@)
    }
    &&& r matches Ok(FiberStep::Return(_)) ==> op == opcode::RETURN && f.call_stack@.len() == 0 && n >= 1
    &&& r matches Ok(FiberStep::Yield(_)) ==> op == opcode::YIELD && n >= 1
    &&& r matches Ok(FiberStep::Spawn(_)) ==> op == opcode::SPAWN
}

/// What the bitwise, logic and equality opcodes do to a stack `s` with two
/// values on top, as `ops` and `container::values_equal` compute it: `t` is
/// the stack afterwards.
pub open spec fn other_binary_on_stack<F: Fn(FloatOp, u64, u64) -> u64>(
    heap: &Heap,
    ins: u8,
    s: Seq<Value>,
    t: Seq<Value>,
    floats: &F,
    r: Result<(), RuntimeErrorKind>,
) -> bool {
    let a = s[s.len() - 2];
    let b = s.last();
    let rest = s.drop_last().drop_last();
    let replaced = t.len() == rest.len() + 1 && t.drop_last() == rest;
    &&& bit_of(ins) is Some && r is Ok ==> replaced && ops::bitwise_spec(bit_of(ins)->Some_0, a, b, Ok(t.last()))
    &&& bit_of(ins) is Some && r is Err ==> ops::bitwise_spec(bit_of(ins)->Some_0, a, b, Err(r->Err_0))
    &&& (ins == opcode::AND || ins == opcode::OR) && r is Ok ==> replaced && ops::logic_spec(ins == opcode::AND, a, b, Ok(t.last()))
    &&& (ins == opcode::AND || ins == opcode::OR) && r is Err ==> ops::logic_spec(ins == opcode::AND, a, b, Err(r->Err_0))
    &&& ins == opcode::EQ ==> r is Ok && replaced && t.last() is Bool && container::equal_spec(heap, a, b, floats, t.last()->Bool_0)
    &&& ins == opcode::NEQ ==> r is Ok && replaced && t.last() is Bool && container::equal_spec(heap, a, b, floats, !t.last()->Bool_0)
}

/// The arithmetic operation of an opcode.
pub open spec fn arith_of(ins: u8) -> Option<ArithOp> {
    if ins == opcode::ADD {
        Some(ArithOp::Add)
    } else if ins == opcode::SUB {
        Some(ArithOp::Sub)
    } else if ins == opcode::MUL {
        Some(ArithOp::Mul)
    } else if ins == opcode::DIV {
        Some(ArithOp::Div)
    } else if ins == opcode::MOD {
        Some(ArithOp::Rem)
    } else {
        None
    }
}

/// Upvalue handle `uh` is what descriptor `d` captures for a closure made
/// by fiber `f` (handle `me`): for a local, an open upvalue of `me` on that
/// slot of the running frame; for an outer upvalue, the running closure's
/// upvalue of that index.
pub open spec fn captured(before: &Heap, after: &Heap, f: Fiber, me: usize, d: UpvalueDescriptor, uh: usize) -> bool {
    match d {
        UpvalueDescriptor::Local(s) => after.spec_live(uh) && after.spec_object(uh) == Object::Upvalue(
            Upvalue::Open { fiber: me, slot: (f.frame.base + s) as usize },
        ),
        UpvalueDescriptor::Outer(j) => after.spec_live(f.frame.closure) && after.spec_object(f.frame.closure) is Closure
            && j < after.spec_object(f.frame.closure)->Closure_0.upvalues@.len()
            && uh == after.spec_object(f.frame.closure)->Closure_0.upvalues@[j as int],
    }
}

proof fn lemma_captured_grows(before: &Heap, mid: &Heap, after: &Heap, f: Fiber, me: usize, d: UpvalueDescriptor, uh: usize)
    requires
        captured(before, mid, f, me, d, uh),
        heap_grows(mid, after),
    ensures
        captured(before, after, f, me, d, uh),
{
    match d {
        UpvalueDescriptor::Local(_) => {
            assert(after.view()[uh as int] == mid.view()[uh as int]);
        },
        UpvalueDescriptor::Outer(_) => {
            assert(after.view()[f.frame.closure as int] == mid.view()[f.frame.closure as int]);
        },
    }
}

/// Every descriptor of `ds` can be captured by fiber `f`: a local names a
/// slot of the running frame, an outer upvalue one of the running closure's.
pub open spec fn descriptors_valid(heap: &Heap, f: Fiber, ds: Seq<UpvalueDescriptor>) -> bool {
    forall|k: int|
        0 <= k < ds.len() ==> match #[trigger] ds[k] {
            UpvalueDescriptor::Local(s) => f.frame.base <= f.stack@.len() && s < f.stack@.len() - f.frame.base,
            UpvalueDescriptor::Outer(j) => heap.spec_live(f.frame.closure) && heap.spec_object(f.frame.closure) is Closure
                && j < heap.spec_object(f.frame.closure)->Closure_0.upvalues@.len(),
        }
}

/// Every upvalue that `ds` captures from a local slot is one of the fiber's
/// open upvalues `open`: the one kept for that slot.
pub open spec fn kept_open(ds: Seq<UpvalueDescriptor>, ups: Seq<usize>, open: Seq<usize>) -> bool {
    forall|k: int| 0 <= k < ds.len() && #[trigger] ds[k] is Local ==> open.contains(ups[k])
}

/// The upvalues `ups` of a new closure are what the descriptors `ds` capture.
pub open spec fn captures(before: &Heap, after: &Heap, f: Fiber, me: usize, ds: Seq<UpvalueDescriptor>, ups: Seq<usize>) -> bool {
    &&& ups.len() == ds.len()
    &&& forall|k: int| 0 <= k < ds.len() ==> #[trigger] captured(before, after, f, me, ds[k], ups[k])
}

/// The slot of `h` if it holds an open upvalue of fiber `me`.
pub open spec fn open_slot(heap: &Heap, h: usize, me: usize) -> Option<usize> {
    if heap.spec_live(h) {
        match heap.spec_object(h) {
            Object::Upvalue(Upvalue::Open { fiber, slot }) => if fiber == me {
                Some(slot)
            } else {
                None
            },
            _ => None,
        }
    } else {
        None
    }
}

/// `heap` has no two entries of `ups` open on the same slot of fiber `me`,
/// and every entry is a handle of `heap`.
pub open spec fn open_unique(heap: &Heap, ups: Seq<usize>, me: usize) -> bool {
    &&& forall|i: int| 0 <= i < ups.len() ==> #[trigger] ups[i] < heap.view().len()
    &&& forall|i: int, j: int|
        0 <= i < ups.len() && 0 <= j < ups.len() && open_slot(heap, ups[i], me) is Some
            && #[trigger] open_slot(heap, ups[i], me) == #[trigger] open_slot(heap, ups[j], me) ==> ups[i] == ups[j]
}

/// `after` opens no upvalue that `before` did not: every object of `before`
/// either keeps the slot it is open on, or is not open any more.
pub open spec fn keeps_open_slots(before: &Heap, after: &Heap) -> bool {
    &&& before.view().len() <= after.view().len()
    &&& forall|x: usize, me: usize|
        x < before.view().len() ==> (#[trigger] open_slot(after, x, me)) is None || open_slot(after, x, me)
            == open_slot(before, x, me)
}

pub proof fn lemma_grows_keeps_open_slots(before: &Heap, after: &Heap)
    requires
        heap_grows(before, after),
    ensures
        keeps_open_slots(before, after),
{
    assert forall|x: usize, me: usize| x < before.view().len() implies (#[trigger] open_slot(after, x, me)) is None
        || open_slot(after, x, me) == open_slot(before, x, me) by {
        assert(after.view()[x as int] == before.view()[x as int]);
    }
}

pub proof fn lemma_keeps_open_slots_trans(a: &Heap, b: &Heap, c: &Heap)
    requires
        keeps_open_slots(a, b),
        keeps_open_slots(b, c),
    ensures
        keeps_open_slots(a, c),
{
    assert forall|x: usize, me: usize| x < a.view().len() implies (#[trigger] open_slot(c, x, me)) is None
        || open_slot(c, x, me) == open_slot(a, x, me) by {
        assert(open_slot(b, x, me) is None || open_slot(b, x, me) == open_slot(a, x, me));
    }
}

/// Uniqueness of open upvalues survives a heap change that opens nothing
/// and a list that only drops entries.
pub proof fn lemma_open_unique_kept(h1: &Heap, h2: &Heap, l1: Seq<usize>, l2: Seq<usize>, me: usize)
    requires
        open_unique(h1, l1, me),
        keeps_open_slots(h1, h2),
        forall|k: int| 0 <= k < l2.len() ==> l1.contains(#[trigger] l2[k]),
    ensures
        open_unique(h2, l2, me),
{
    assert forall|k: int| 0 <= k < l2.len() implies #[trigger] l2[k] < h2.view().len() by {
        assert(l1.contains(l2[k]));
        let a = choose|a: int| 0 <= a < l1.len() && l1[a] == l2[k];
        assert(l1[a] < h1.view().len());
    }
    assert forall|i: int, j: int|
        0 <= i < l2.len() && 0 <= j < l2.len() && open_slot(h2, l2[i], me) is Some
            && #[trigger] open_slot(h2, l2[i], me) == #[trigger] open_slot(h2, l2[j], me) implies l2[i] == l2[j] by {
        assert(l1.contains(l2[i]));
        assert(l1.contains(l2[j]));
        let a = choose|a: int| 0 <= a < l1.len() && l1[a] == l2[i];
        let b = choose|b: int| 0 <= b < l1.len() && l1[b] == l2[j];
        assert(l1[a] < h1.view().len());
        assert(l1[b] < h1.view().len());
        assert(open_slot(h2, l1[a], me) == open_slot(h1, l1[a], me));
        assert(open_slot(h2, l1[b], me) == open_slot(h1, l1[b], me));
    }
}

pub proof fn lemma_open_unique_same_list(h1: &Heap, h2: &Heap, l: Seq<usize>, me: usize)
    requires
        keeps_open_slots(h1, h2),
    ensures
        open_unique(h1, l, me) ==> open_unique(h2, l, me),
{
    if open_unique(h1, l, me) {
        assert forall|k: int| 0 <= k < l.len() implies l.contains(#[trigger] l[k]) by {}
        lemma_open_unique_kept(h1, h2, l, l, me);
    }
}

/// Closing at `threshold` closes `h`: an open upvalue of `me` on a slot at or
/// above the threshold, below the stack's length `len`.
pub open spec fn closes(heap: &Heap, h: usize, me: usize, threshold: usize, len: nat) -> bool {
    open_slot(heap, h, me) is Some && threshold <= open_slot(heap, h, me)->Some_0 < len
}

/// Every fiber of `heap` but `skip` has at most one open upvalue per slot.
pub open spec fn unique_except(heap: &Heap, skip: Option<usize>) -> bool {
    forall|x: usize|
        Some(x) != skip && #[trigger] fiber_upvalues(heap, x) is Some ==> open_unique(heap, fiber_upvalues(heap, x)->Some_0, x)
}

/// Carries `unique_except` across a heap change that opens no upvalue and
/// gives no fiber but `skip` a new list of open upvalues.
pub proof fn lemma_unique_except_kept(h1: &Heap, h2: &Heap, skip: Option<usize>)
    requires
        unique_except(h1, skip),
        keeps_open_slots(h1, h2),
        forall|x: usize|
            Some(x) != skip && x < h1.view().len() ==> #[trigger] fiber_upvalues(h2, x) is None || fiber_upvalues(h2, x)
                == fiber_upvalues(h1, x),
        forall|x: usize|
            h1.view().len() <= x < h2.view().len() ==> #[trigger] fiber_upvalues(h2, x) is None || fiber_upvalues(h2, x)
                == Some(Seq::<usize>::empty()),
    ensures
        unique_except(h2, skip),
{
    assert forall|x: usize| Some(x) != skip && #[trigger] fiber_upvalues(h2, x) is Some implies open_unique(
        h2,
        fiber_upvalues(h2, x)->Some_0,
        x,
    ) by {
        if x < h1.view().len() {
            assert(fiber_upvalues(h2, x) == fiber_upvalues(h1, x));
            lemma_open_unique_same_list(h1, h2, fiber_upvalues(h1, x)->Some_0, x);
        } else {
            assert(x < h2.view().len());
            assert(fiber_upvalues(h2, x)->Some_0 =~= Seq::<usize>::empty());
        }
    }
}

/// No fiber was made between `before` and `after`.
pub open spec fn no_new_fibers(before: &Heap, after: &Heap) -> bool {
    forall|x: usize| before.view().len() <= x < after.view().len() ==> #[trigger] fiber_upvalues(after, x) is None
}

/// The open upvalues of the fiber under `x`, if `x` holds a live fiber.
pub open spec fn fiber_upvalues(heap: &Heap, x: usize) -> Option<Seq<usize>> {
    if heap.spec_live(x) && heap.spec_object(x) is Fiber {
        Some(heap.spec_object(x)->Fiber_0.open_upvalues@)
    } else {
        None
    }
}

/// No fiber of `after` holds an open upvalue that it did not hold in
/// `before`: the fibers of `before` are fibers of `after` with the same open
/// upvalues, no other object of `before` became a fiber, and fibers made
/// since hold none.
pub open spec fn keeps_fibers(before: &Heap, after: &Heap) -> bool {
    &&& before.view().len() <= after.view().len()
    &&& forall|x: usize| x < before.view().len() ==> #[trigger] fiber_upvalues(after, x) == fiber_upvalues(before, x)
    &&& forall|x: usize|
        before.view().len() <= x < after.view().len() ==> #[trigger] fiber_upvalues(after, x) is None
            || fiber_upvalues(after, x) == Some(Seq::<usize>::empty())
}

pub proof fn lemma_grows_keeps_fibers(before: &Heap, after: &Heap)
    requires
        heap_grows(before, after),
        forall|x: usize|
            before.view().len() <= x < after.view().len() ==> #[trigger] fiber_upvalues(after, x) is None
                || fiber_upvalues(after, x) == Some(Seq::<usize>::empty()),
    ensures
        keeps_fibers(before, after),
{
    assert forall|x: usize| x < before.view().len() implies #[trigger] fiber_upvalues(after, x) == fiber_upvalues(before, x) by {
        assert(after.view()[x as int] == before.view()[x as int]);
    }
}

pub proof fn lemma_keeps_fibers_trans(a: &Heap, b: &Heap, c: &Heap)
    requires
        keeps_fibers(a, b),
        keeps_fibers(b, c),
    ensures
        keeps_fibers(a, c),
{
    assert forall|x: usize| x < a.view().len() implies #[trigger] fiber_upvalues(c, x) == fiber_upvalues(a, x) by {
        assert(fiber_upvalues(b, x) == fiber_upvalues(a, x));
    }
    assert forall|x: usize| a.view().len() <= x < c.view().len() implies #[trigger] fiber_upvalues(c, x) is None
        || fiber_upvalues(c, x) == Some(Seq::<usize>::empty()) by {
        if x < b.view().len() {
            assert(fiber_upvalues(c, x) == fiber_upvalues(b, x));
        }
    }
}

/// A heap change at `h` alone, from and to objects that are not fibers.
pub proof fn lemma_put_keeps_fibers(before: &Heap, after: &Heap, h: usize)
    requires
        before.view().len() == after.view().len(),
        forall|x: usize| x != h && x < before.view().len() ==> #[trigger] after.view()[x as int] == before.view()[x as int],
        fiber_upvalues(before, h) == fiber_upvalues(after, h),
    ensures
        keeps_fibers(before, after),
{
    assert forall|x: usize| x < before.view().len() implies #[trigger] fiber_upvalues(after, x) == fiber_upvalues(before, x) by {
        if x != h {
            assert(after.view()[x as int] == before.view()[x as int]);
        }
    }
}

/// `after` holds every object of `before` and maybe more: nothing is freed
/// or moved outside a collection.
pub open spec fn heap_grows(before: &Heap, after: &Heap) -> bool {
    &&& before.view().len() <= after.view().len()
    &&& forall|h: usize| h < before.view().len() ==> #[trigger] after.view()[h as int] == before.view()[h as int]
}

} // verus!
