//! The scheduler: a FIFO ready queue, the table of fibers parked on a yield,
//! and the root fiber whose return ends the evaluation.
use std::collections::VecDeque;

use generational_arena::{Arena, Index};
use vstd::prelude::*;

use crate::error::{EngineError, Error, RuntimeErrorKind};
use crate::fiber::{
    Frame,
    fetch, fiber_upvalues, keeps_fibers, keeps_open_slots, lemma_open_unique_same_list, lemma_unique_except_kept,
    fiber_steps, kind_of, open_slot, open_unique, unique_except, Fiber, FiberStep,
};
use crate::function::Program;
use crate::heap::{Heap, Object};
use crate::opcode;
use crate::ops::{float_unit_total, FloatOp};
use crate::value::Value;

verus! {

/// `generational_arena::Arena`, the table in which yielded fibers wait for
/// their wake; its contents are seen through `pending_entries`.
#[verifier::external_type_specification]
#[verifier::external_body]
#[verifier::reject_recursive_types(T)]
pub struct ExArena<T>(Arena<T>);

/// The entries of a pending table: each occupied index, as its raw parts
/// (slot, generation), with the fiber handle stored there.
pub uninterp spec fn pending_entries(a: Arena<usize>) -> Map<(usize, u64), usize>;

/// The arena's generation: every index it hands out carries it, and each
/// removal of an entry raises it by one.
pub uninterp spec fn arena_generation(a: Arena<usize>) -> u64;

/// `m` has no entry.
pub open spec fn no_entries(m: Map<(usize, u64), usize>) -> bool {
    m == Map::<(usize, u64), usize>::empty()
}

/// `vs` holds exactly the values stored in `m`.
pub open spec fn holds_values(vs: Seq<usize>, m: Map<(usize, u64), usize>) -> bool {
    forall|x: usize| vs.contains(x) <==> exists|k: (usize, u64)| #[trigger] m.contains_key(k) && m[k] == x
}

/// Relies on `generational_arena::Arena::new`: a new arena holds nothing.
#[verifier::external_body]
fn arena_new() -> (r: Arena<usize>)
    ensures
        no_entries(pending_entries(r)),
        arena_generation(r) == 0,
{
    Arena::new()
}

/// Relies on `Arena::insert`: the value goes into a free slot, under an index
/// that no entry holds and that carries the current generation, and the
/// index is returned; the generation stays.
#[verifier::external_body]
fn arena_insert(a: &mut Arena<usize>, v: usize) -> (r: (usize, u64))
    ensures
        !pending_entries(*old(a)).contains_key(r),
        pending_entries(*final(a)) == pending_entries(*old(a)).insert(r, v),
        r.1 == arena_generation(*old(a)),
        arena_generation(*final(a)) == arena_generation(*old(a)),
{
    a.insert(v).into_raw_parts()
}

/// Relies on `Arena::remove`: the entry under the index is taken out and
/// returned, and the generation goes up by one (which would overflow at its
/// largest value); an index that holds no entry changes nothing.
#[verifier::external_body]
fn arena_remove(a: &mut Arena<usize>, id: (usize, u64)) -> (r: Option<usize>)
    requires
        arena_generation(*old(a)) < u64::MAX,
    ensures
        pending_entries(*old(a)).contains_key(id) ==> arena_generation(*final(a)) == arena_generation(*old(a)) + 1,
        !pending_entries(*old(a)).contains_key(id) ==> arena_generation(*final(a)) == arena_generation(*old(a)),
        pending_entries(*old(a)).contains_key(id) ==> r == Some(pending_entries(*old(a))[id])
            && pending_entries(*final(a)) == pending_entries(*old(a)).remove(id),
        !pending_entries(*old(a)).contains_key(id) ==> r is None && pending_entries(*final(a))
            == pending_entries(*old(a)),
{
    a.remove(Index::from_raw_parts(id.0, id.1))
}

/// Relies on `Arena::is_empty`: whether no entry is occupied.
#[verifier::external_body]
fn arena_is_empty(a: &Arena<usize>) -> (r: bool)
    ensures
        r == no_entries(pending_entries(*a)),
{
    a.is_empty()
}

/// Relies on `Arena::iter`: it visits every occupied entry; the stored
/// handles are handed out.
#[verifier::external_body]
fn arena_values(a: &Arena<usize>) -> (r: Vec<usize>)
    ensures
        holds_values(r@, pending_entries(*a)),
{
    a.iter().map(|(_, f)| *f).collect()
}

/// The value of `o`, if any, as a sequence.
pub open spec fn option_seq(o: Option<usize>) -> Seq<usize> {
    match o {
        Some(x) => seq![x],
        None => Seq::empty(),
    }
}

/// One scheduler step from `s1` with heap `h1` to `s2` with heap `h2`, with
/// result `r`: with no fiber ready the result is `Park` and nothing changes;
/// else the front fiber takes a step (`fiber_steps`, run with its heap slot
/// empty) and the scheduler goes on as `scheduled` says.
pub open spec fn state_steps<F: Fn(FloatOp, u64, u64) -> u64>(
    s1: &State,
    s2: &State,
    h1: &Heap,
    h2: &Heap,
    program: &Program,
    floats: &F,
    r: Result<Step, Error>,
) -> bool {
    &&& !(r is Err && r->Err_0 is Engine)
    &&& h2.view().len() >= h1.view().len()
    &&& s2.spec_root() == s1.spec_root()
    &&& s1.spec_ready().len() == 0 ==> r == Ok::<Step, Error>(Step::Park) && s2.spec_ready()
        == s1.spec_ready() && s2.spec_pending() == s1.spec_pending() && h2.view() == h1.view()
        && s2.spec_generation() == s1.spec_generation()
    &&& s1.spec_ready().len() > 0 ==> {
        let fiber = s1.spec_ready()[0];
        let rest = s1.spec_ready().drop_first();
        &&& r != Ok::<Step, Error>(Step::Park)
        &&& exists|fr: Result<FiberStep, RuntimeErrorKind>, t1: Heap, t2: Heap, g: Fiber|
            scheduled(s1, s2, fiber, fr, r)
            && t1.view() == h1.view().update(fiber as int, None)
            && h2.view() == t2.view().update(fiber as int, Some(Object::Fiber(g)))
            && #[trigger] fiber_steps(&t1, &t2, program, h1.spec_object(fiber)->Fiber_0, g, fiber, floats, fr)
        &&& r == Ok::<Step, Error>(Step::Continue) ==> s2.spec_pending() == s1.spec_pending()
        &&& r matches Ok(Step::Yield(id, _)) ==> !s1.spec_pending().contains_key(id.key())
            && s2.spec_pending() == s1.spec_pending().insert(id.key(), fiber)
            && s2.spec_ready() == rest
        &&& r matches Ok(Step::Return(_)) ==> s1.spec_root() == Some(fiber)
            && s2.spec_ready() == rest && s2.spec_pending() == s1.spec_pending()
        &&& r is Err ==> s2.spec_ready() == rest && s2.spec_pending() == s1.spec_pending()
        &&& h1.spec_live(fiber) && h1.spec_object(fiber) is Fiber
            && yields(h1, program, h1.spec_object(fiber)->Fiber_0) ==> r is Ok && r->Ok_0 is Yield
            && r->Ok_0->Yield_1 == h1.spec_object(fiber)->Fiber_0.stack@.last()
        &&& h1.spec_live(fiber) && h1.spec_object(fiber) is Fiber
            && returns_at_top(h1, program, h1.spec_object(fiber)->Fiber_0) ==> if s1.spec_root() == Some(fiber) {
            r == Ok::<Step, Error>(Step::Return(h1.spec_object(fiber)->Fiber_0.stack@.last()))
        } else {
            r == Ok::<Step, Error>(Step::Continue)
        }
    }
}

/// Waking `id` with `result`, from `s1` with heap `h1` to `s2` with heap
/// `h2`: the parked fiber leaves the pending table for the back of the ready
/// queue, with `result` pushed on its stack and every other object left as it
/// was; the generation goes up, so the id is never issued again. An unknown
/// id, or a generation at its limit, changes nothing and is an error.
pub open spec fn state_wakes(s1: &State, s2: &State, h1: &Heap, h2: &Heap, id: Id, result: Value, r: Result<(), Error>) -> bool {
    &&& s2.spec_root() == s1.spec_root()
    &&& s1.spec_generation() == u64::MAX ==> r == Err::<(), Error>(Error::Engine(EngineError::IdsExhausted))
        && s2.spec_pending() == s1.spec_pending() && s2.spec_ready() == s1.spec_ready()
        && h2.view() == h1.view() && s2.spec_generation() == s1.spec_generation()
    &&& s1.spec_generation() < u64::MAX && s1.spec_pending().contains_key(id.key()) ==> {
        let fiber = s1.spec_pending()[id.key()];
        let f = h1.spec_object(fiber)->Fiber_0;
        &&& r is Ok
        &&& s2.spec_pending() == s1.spec_pending().remove(id.key())
        &&& s2.spec_ready() == s1.spec_ready().push(fiber)
        &&& s2.spec_generation() == s1.spec_generation() + 1
        &&& id.generation < s2.spec_generation()
        &&& s1.spec_pending().dom().finite() ==> s2.spec_pending().dom().len() == s1.spec_pending().dom().len() - 1
        &&& h2.view() == h1.view().update(fiber as int, Some(Object::Fiber(Fiber {
            stack: h2.spec_object(fiber)->Fiber_0.stack,
            ..f
        })))
        &&& h2.spec_object(fiber)->Fiber_0.stack@ == f.stack@.push(result)
    }
    &&& s1.spec_generation() < u64::MAX && !s1.spec_pending().contains_key(id.key()) ==> r == Err::<(), Error>(
        Error::Engine(EngineError::WakeNonExistentFiber))
        && s2.spec_pending() == s1.spec_pending() && s2.spec_ready() == s1.spec_ready()
        && h2.view() == h1.view() && s2.spec_generation() == s1.spec_generation()
}

/// How the scheduler goes on from `s1` to `s2` after the fiber at the front
/// of the queue, `fiber`, took a step with outcome `fr`: a fiber that goes on
/// goes to the back of the queue (after the fiber it spawned, if any); a
/// fiber that yields is parked under a fresh id of the current generation; a
/// fiber that returns leaves the scheduler, and ends the evaluation if it is
/// the root; an error is handed back.
pub open spec fn scheduled(s1: &State, s2: &State, fiber: usize, fr: Result<FiberStep, RuntimeErrorKind>, r: Result<Step, Error>) -> bool {
    let rest = s1.spec_ready().drop_first();
    let same_pending = s2.spec_pending() == s1.spec_pending();
    &&& s2.spec_root() == s1.spec_root()
    &&& s2.spec_generation() == s1.spec_generation()
    &&& match fr {
        Ok(FiberStep::Continue) => r == Ok::<Step, Error>(Step::Continue) && s2.spec_ready() == rest.push(fiber) && same_pending,
        Ok(FiberStep::Spawn(child)) => r == Ok::<Step, Error>(Step::Continue) && s2.spec_ready() == rest.push(child).push(fiber)
            && same_pending,
        Ok(FiberStep::Yield(op)) => r is Ok && r->Ok_0 is Yield && r->Ok_0->Yield_1 == op && s2.spec_ready() == rest
            && !s1.spec_pending().contains_key(r->Ok_0->Yield_0.key())
            && s2.spec_pending() == s1.spec_pending().insert(r->Ok_0->Yield_0.key(), fiber)
            && r->Ok_0->Yield_0.generation == s1.spec_generation(),
        Ok(FiberStep::Return(v)) => s2.spec_ready() == rest && same_pending && r == if s1.spec_root() == Some(fiber) {
            Ok::<Step, Error>(Step::Return(v))
        } else {
            Ok::<Step, Error>(Step::Continue)
        },
        Err(k) => r is Err && r->Err_0 is Runtime && r->Err_0->Runtime_0.spec_kind() == k && s2.spec_ready() == rest
            && same_pending,
    }
}

/// Fiber `f` is at a `YIELD`, with the operation on its stack.
pub open spec fn yields(heap: &Heap, program: &Program, f: Fiber) -> bool {
    &&& fetch(heap, program, f.frame) is Some
    &&& fetch(heap, program, f.frame)->Some_0.spec_opcode() == opcode::YIELD
    &&& f.stack@.len() > f.frame.base
}

/// Fiber `f` is at a `RETURN` of its first frame, with a value to return.
pub open spec fn returns_at_top(heap: &Heap, program: &Program, f: Fiber) -> bool {
    &&& fetch(heap, program, f.frame) is Some
    &&& fetch(heap, program, f.frame)->Some_0.spec_opcode() == opcode::RETURN
    &&& f.stack@.len() > f.frame.base
    &&& f.call_stack@.len() == 0
}

/// `x` holds a live fiber.
pub open spec fn is_fiber(heap: &Heap, x: usize) -> bool {
    heap.spec_live(x) && heap.spec_object(x) is Fiber
}

/// The id under which a parked fiber waits for its wake.
#[derive(Clone, Copy, Debug, PartialEq, Eq, Structural, Hash)]
pub struct Id {
    pub index: usize,
    pub generation: u64,
}

impl Id {
    pub open spec fn key(self) -> (usize, u64) {
        (self.index, self.generation)
    }
}

/// What one scheduler step came to.
#[derive(Clone, Copy, Debug, PartialEq, Eq, Structural)]
pub enum Step {
    /// No fiber is ready: the host should poll its driver.
    Park,
    /// A fiber ran an instruction.
    Continue,
    /// The fiber that ran yielded this operation and is parked under the id.
    Yield(Id, Value),
    /// The root fiber returned this value: the evaluation is over.
    Return(Value),
}

pub struct State {
    root_fiber: Option<usize>,
    ready_queue: VecDeque<usize>,
    pending: Arena<usize>,
    woken: u64,
}

impl State {
    pub closed spec fn spec_root(&self) -> Option<usize> {
        self.root_fiber
    }

    pub closed spec fn spec_ready(&self) -> Seq<usize> {
        self.ready_queue@
    }

    pub closed spec fn spec_pending(&self) -> Map<(usize, u64), usize> {
        pending_entries(self.pending)
    }

    /// The generation of the pending table: the number of wakes so far.
    pub closed spec fn spec_generation(&self) -> u64 {
        arena_generation(self.pending)
    }

    pub closed spec fn counts_wakes(&self) -> bool {
        self.woken == arena_generation(self.pending)
    }

    /// Every fiber the scheduler refers to is a live fiber of `heap`.
    pub open spec fn wf(&self, heap: &Heap) -> bool {
        &&& forall|i: int| 0 <= i < self.spec_ready().len() ==> is_fiber(heap, #[trigger] self.spec_ready()[i])
        &&& forall|k: (usize, u64)| #[trigger] self.spec_pending().contains_key(k) ==> is_fiber(heap, self.spec_pending()[k])
        &&& self.spec_root() is Some ==> is_fiber(heap, self.spec_root()->Some_0)
        &&& unique_except(heap, None)
        &&& self.counts_wakes()
        &&& forall|k: (usize, u64)| #[trigger] self.spec_pending().contains_key(k) ==> k.1 <= self.spec_generation()
        &&& self.fibers_distinct()
    }

    /// Each fiber stands at most once in the scheduler: once in the ready
    /// queue, or under one id of the finite pending table.
    pub open spec fn fibers_distinct(&self) -> bool {
        &&& self.spec_ready().no_duplicates()
        &&& self.spec_pending().dom().finite()
        &&& forall|i: int, k: (usize, u64)|
            0 <= i < self.spec_ready().len() && #[trigger] self.spec_pending().contains_key(k) ==> self.spec_pending()[k]
                != #[trigger] self.spec_ready()[i]
        &&& forall|k1: (usize, u64), k2: (usize, u64)|
            #[trigger] self.spec_pending().contains_key(k1) && #[trigger] self.spec_pending().contains_key(k2) && k1 != k2
                ==> self.spec_pending()[k1] != self.spec_pending()[k2]
    }

    pub proof fn lemma_wf_kept(&self, h1: &Heap, h2: &Heap)
        requires
            self.wf(h1),
            keeps_fibers(h1, h2),
            keeps_open_slots(h1, h2),
        ensures
            self.wf(h2),
    {
        lemma_unique_except_kept(h1, h2, None);
        assert forall|x: usize| is_fiber(h1, x) implies #[trigger] is_fiber(h2, x) by {
            assert(fiber_upvalues(h2, x) == fiber_upvalues(h1, x));
        }
        assert forall|i: int| 0 <= i < self.spec_ready().len() implies is_fiber(h2, #[trigger] self.spec_ready()[i]) by {
            assert(is_fiber(h1, self.spec_ready()[i]));
        }
        assert forall|k: (usize, u64)| #[trigger] self.spec_pending().contains_key(k) implies is_fiber(h2, self.spec_pending()[k]) by {
            assert(is_fiber(h1, self.spec_pending()[k]));
        }
        if self.spec_root() is Some {
            assert(is_fiber(h1, self.spec_root()->Some_0));
        }
    }

    pub proof fn lemma_wf_transfer(s1: &State, s2: &State, h1: &Heap, h2: &Heap)
        requires
            s1.wf(h1),
            forall|x: usize| #[trigger] is_fiber(h1, x) ==> is_fiber(h2, x),
            forall|i: int| 0 <= i < s2.spec_ready().len() ==> s1.spec_ready().contains(#[trigger] s2.spec_ready()[i])
                || is_fiber(h2, s2.spec_ready()[i]),
            forall|k: (usize, u64)| #[trigger] s2.spec_pending().contains_key(k) ==> (s1.spec_pending().contains_key(k)
                && s2.spec_pending()[k] == s1.spec_pending()[k]) || is_fiber(h2, s2.spec_pending()[k]),
            s2.spec_root() == s1.spec_root(),
            unique_except(h2, None),
            s2.counts_wakes(),
            forall|k: (usize, u64)| #[trigger] s2.spec_pending().contains_key(k) ==> k.1 <= s2.spec_generation(),
            s2.fibers_distinct(),
        ensures
            s2.wf(h2),
    {
        assert forall|i: int| 0 <= i < s2.spec_ready().len() implies is_fiber(h2, #[trigger] s2.spec_ready()[i]) by {
            if s1.spec_ready().contains(s2.spec_ready()[i]) {
                let j = choose|j: int| 0 <= j < s1.spec_ready().len() && s1.spec_ready()[j] == s2.spec_ready()[i];
                assert(is_fiber(h1, s1.spec_ready()[j]));
            }
        }
        assert forall|k: (usize, u64)| #[trigger] s2.spec_pending().contains_key(k) implies is_fiber(h2, s2.spec_pending()[k]) by {
            if s1.spec_pending().contains_key(k) && s2.spec_pending()[k] == s1.spec_pending()[k] {
                assert(is_fiber(h1, s1.spec_pending()[k]));
            }
        }
        if s2.spec_root() is Some {
            assert(is_fiber(h1, s1.spec_root()->Some_0));
        }
    }

    pub fn new() -> (r: State)
        ensures
            r.spec_root() is None,
            r.spec_ready().len() == 0,
            r.spec_pending() == Map::<(usize, u64), usize>::empty(),
            r.spec_generation() == 0,
            r.counts_wakes(),
    {
        State { root_fiber: None, ready_queue: VecDeque::new(), pending: arena_new(), woken: 0 }
    }

    pub fn root_fiber(&self) -> (r: Option<usize>)
        ensures
            r == self.spec_root(),
    {
        self.root_fiber
    }

    /// Every fiber the scheduler holds: the parked ones, the ready ones in
    /// queue order, then the root.
    pub fn fibers(&self) -> (r: Vec<usize>)
        ensures
            exists|parked: Seq<usize>| #[trigger] holds_values(parked, self.spec_pending())
                && r@ == parked + self.spec_ready() + option_seq(self.spec_root()),
    {
        let mut r = arena_values(&self.pending);
        let ghost parked = r@;
        let mut i: usize = 0;
        while i < self.ready_queue.len()
            invariant
                i <= self.ready_queue@.len(),
                r@ == parked + self.ready_queue@.subrange(0, i as int),
            decreases self.ready_queue@.len() - i,
        {
            r.push(self.ready_queue[i]);
            assert(r@ =~= parked + self.ready_queue@.subrange(0, i + 1));
            i = i + 1;
        }
        assert(self.ready_queue@.subrange(0, self.ready_queue@.len() as int) =~= self.ready_queue@);
        match self.root_fiber {
            Some(f) => {
                r.push(f);
            },
            None => {},
        }
        assert(r@ =~= parked + self.spec_ready() + option_seq(self.spec_root()));
        assert(holds_values(parked, self.spec_pending()));
        r
    }

    /// Makes a fiber that runs `closure` with no arguments and queues it. The
    /// first fiber made while no other is ready or parked becomes the root.
    pub fn spawn(&mut self, heap: &mut Heap, closure: usize) -> (r: usize)
        requires
            old(self).wf(old(heap)),
        ensures
            final(self).wf(final(heap)),
            r == old(heap).view().len(),
            final(heap).view().len() == old(heap).view().len() + 1,
            forall|h: usize| h < old(heap).view().len() ==> #[trigger] final(heap).view()[h as int] == old(heap).view()[h as int],
            final(heap).spec_live(r),
            final(heap).spec_object(r) is Fiber,
            final(heap).spec_object(r)->Fiber_0.frame == (Frame { closure, pc: 0, base: 0 }),
            final(heap).spec_object(r)->Fiber_0.call_stack@.len() == 0,
            final(heap).spec_object(r)->Fiber_0.stack@ == seq![Value::Closure(closure)],
            final(heap).spec_object(r)->Fiber_0.open_upvalues@.len() == 0,
            final(self).spec_generation() == old(self).spec_generation(),
            final(self).spec_ready() == old(self).spec_ready().push(r),
            final(self).spec_pending() == old(self).spec_pending(),
            final(self).spec_root() == if old(self).spec_ready().len() == 0 && old(self).spec_pending() == Map::<(usize, u64), usize>::empty() {
                Some(r)
            } else {
                old(self).spec_root()
            },
    {
        let fiber = heap.allocate(Object::Fiber(Fiber::new(closure)));
        proof {
            assert(heap.spec_object(fiber)->Fiber_0.open_upvalues@ =~= Seq::<usize>::empty());
            assert(fiber_upvalues(heap, fiber) == Some(Seq::<usize>::empty()));
            crate::fiber::lemma_grows_keeps_fibers(old(heap), heap);
            crate::fiber::lemma_grows_keeps_open_slots(old(heap), heap);
            self.lemma_wf_kept(old(heap), heap);
        }
        if self.ready_queue.len() == 0 && arena_is_empty(&self.pending) {
            self.root_fiber = Some(fiber);
        }
        self.ready_queue.push_back(fiber);
        proof {
            assert(is_fiber(heap, fiber));
            assert(old(self).wf(heap));
            assert forall|i: int| 0 <= i < self.spec_ready().len() implies is_fiber(heap, #[trigger] self.spec_ready()[i]) by {
                if i < old(self).spec_ready().len() {
                    assert(self.spec_ready()[i] == old(self).spec_ready()[i]);
                }
            }
            assert forall|k: (usize, u64)| #[trigger] self.spec_pending().contains_key(k) implies is_fiber(heap, self.spec_pending()[k]) by {
                assert(old(self).spec_pending().contains_key(k));
            }
            assert forall|k: (usize, u64)| #[trigger] self.spec_pending().contains_key(k) implies k.1 <= self.spec_generation() by {
                assert(old(self).spec_pending().contains_key(k));
            }
        }
        fiber
    }

    /// Runs one instruction of the fiber at the front of the ready queue.
    pub fn step<F: Fn(FloatOp, u64, u64) -> u64>(&mut self, heap: &mut Heap, program: &Program, floats: &F) -> (r: Result<Step, Error>)
        requires
            float_unit_total(floats),
            old(self).wf(old(heap)),
        ensures
            final(self).wf(final(heap)),
            state_steps(old(self), final(self), old(heap), final(heap), program, floats, r),
    {
        let fiber = match self.ready_queue.pop_front() {
            Some(f) => f,
            None => {
                proof {
                    assert forall|k: (usize, u64)| #[trigger] self.spec_pending().contains_key(k) implies k.1 <= self.spec_generation() by {
                        assert(old(self).spec_pending().contains_key(k));
                    }
                    State::lemma_wf_transfer(old(self), self, heap, heap);
                }
                return Ok(Step::Park);
            },
        };
        let mut f = match heap.take(fiber) {
            Some(Object::Fiber(f)) => f,
            Some(o) => {
                heap.put(fiber, o);
                return Err(Error::Engine(EngineError::InvalidFiber));
            },
            None => {
                return Err(Error::Engine(EngineError::InvalidFiber));
            },
        };
        proof {
            let f0 = old(heap).spec_object(fiber)->Fiber_0;
            if fetch(old(heap), program, f0.frame) is Some {
                assert(f0.frame.closure != fiber);
                assert(fetch(heap, program, f.frame) == fetch(old(heap), program, f0.frame));
            }
        }
        let ghost taken = *heap;
        proof {
            assert(is_fiber(old(heap), fiber));
            assert forall|x: usize| #[trigger] is_fiber(old(heap), x) && x != fiber implies is_fiber(&taken, x) by {
                assert(taken.view()[x as int] == old(heap).view()[x as int]);
            }
            assert forall|x: usize, m: usize| x < old(heap).view().len() implies (#[trigger] open_slot(&taken, x, m)) is None
                || open_slot(&taken, x, m) == open_slot(old(heap), x, m) by {
                if x != fiber {
                    assert(taken.view()[x as int] == old(heap).view()[x as int]);
                }
            }
            assert forall|x: usize| Some(x) != Some(fiber) && x < old(heap).view().len() implies #[trigger] fiber_upvalues(&taken, x) is None
                || fiber_upvalues(&taken, x) == fiber_upvalues(old(heap), x) by {
                if x != fiber {
                    assert(taken.view()[x as int] == old(heap).view()[x as int]);
                }
            }
            lemma_unique_except_kept(old(heap), &taken, Some(fiber));
            assert(fiber_upvalues(old(heap), fiber) == Some(f.open_upvalues@));
            lemma_open_unique_same_list(old(heap), &taken, f.open_upvalues@, fiber);
        }
        let ghost f0 = f;
        let res = f.step(fiber, heap, program, floats);
        let ghost stepped = *heap;
        proof {
            assert forall|x: usize| Some(x) != Some(fiber) && x < taken.view().len() implies #[trigger] fiber_upvalues(&stepped, x) is None
                || fiber_upvalues(&stepped, x) == fiber_upvalues(&taken, x) by {
            }
            lemma_unique_except_kept(&taken, &stepped, Some(fiber));
        }
        heap.put(fiber, Object::Fiber(f));
        proof {
            assert forall|x: usize, m: usize| x < stepped.view().len() implies (#[trigger] open_slot(heap, x, m)) is None
                || open_slot(heap, x, m) == open_slot(&stepped, x, m) by {
                if x != fiber {
                    assert(heap.view()[x as int] == stepped.view()[x as int]);
                }
            }
            assert forall|x: usize| Some(x) != Some(fiber) && x < stepped.view().len() implies #[trigger] fiber_upvalues(heap, x) is None
                || fiber_upvalues(heap, x) == fiber_upvalues(&stepped, x) by {
                if x != fiber {
                    assert(heap.view()[x as int] == stepped.view()[x as int]);
                }
            }
            lemma_unique_except_kept(&stepped, heap, Some(fiber));
            lemma_open_unique_same_list(&stepped, heap, f.open_upvalues@, fiber);
            assert(fiber_upvalues(heap, fiber) == Some(f.open_upvalues@));
            assert forall|x: usize| #[trigger] fiber_upvalues(heap, x) is Some implies open_unique(heap, fiber_upvalues(heap, x)->Some_0, x) by {
                if x != fiber {
                    assert(Some(x) != Some(fiber));
                }
            }
            assert(unique_except(heap, None));
            assert forall|x: usize| #[trigger] is_fiber(old(heap), x) implies is_fiber(heap, x) by {
                if x != fiber {
                    assert(is_fiber(&taken, x));
                    assert(taken.spec_live(x) && taken.spec_object(x) is Fiber);
                    assert(fiber_upvalues(&stepped, x) == fiber_upvalues(&taken, x));
                    assert(is_fiber(&stepped, x));
                    assert(heap.view()[x as int] == stepped.view()[x as int]);
                }
            }
            assert forall|x: usize| #[trigger] is_fiber(&stepped, x) implies is_fiber(heap, x) by {
                if x != fiber {
                    assert(heap.view()[x as int] == stepped.view()[x as int]);
                }
            }
            assert forall|i: int| 0 <= i < self.spec_ready().len() implies is_fiber(heap, #[trigger] self.spec_ready()[i]) by {
                assert(self.spec_ready()[i] == old(self).spec_ready()[i + 1]);
                assert(is_fiber(old(heap), old(self).spec_ready()[i + 1]));
            }
            assert forall|k: (usize, u64)| #[trigger] self.spec_pending().contains_key(k) implies is_fiber(heap, self.spec_pending()[k]) by {
                assert(is_fiber(old(heap), old(self).spec_pending()[k]));
            }
            if self.spec_root() is Some {
                assert(is_fiber(old(heap), self.spec_root()->Some_0));
            }
            assert forall|k: (usize, u64)| #[trigger] self.spec_pending().contains_key(k) implies k.1 <= self.spec_generation() by {
                assert(old(self).spec_pending().contains_key(k));
            }
            assert(self.wf(heap));
        }
        let ghost mid = *self;
        let is_root = match self.root_fiber {
            Some(root) => root == fiber,
            None => false,
        };
        let ghost fr = kind_of(res);
        let out = match res {
            Ok(FiberStep::Continue) => {
                self.ready_queue.push_back(fiber);
                Ok(Step::Continue)
            },
            Ok(FiberStep::Spawn(child)) => {
                proof {
                    assert(is_fiber(&stepped, child));
                }
                self.ready_queue.push_back(child);
                self.ready_queue.push_back(fiber);
                Ok(Step::Continue)
            },
            Ok(FiberStep::Yield(op)) => {
                let key = arena_insert(&mut self.pending, fiber);
                Ok(Step::Yield(Id { index: key.0, generation: key.1 }, op))
            },
            Ok(FiberStep::Return(v)) => {
                if is_root {
                    Ok(Step::Return(v))
                } else {
                    Ok(Step::Continue)
                }
            },
            Err(e) => Err(Error::Runtime(e)),
        };
        proof {
            assert(is_fiber(heap, fiber));
            assert forall|i: int| 0 <= i < self.spec_ready().len() implies mid.spec_ready().contains(#[trigger] self.spec_ready()[i])
                || is_fiber(heap, self.spec_ready()[i]) by {
                if i < mid.spec_ready().len() {
                    assert(self.spec_ready()[i] == mid.spec_ready()[i]);
                }
            }
            assert forall|k: (usize, u64)| #[trigger] self.spec_pending().contains_key(k) implies k.1 <= self.spec_generation() by {
                if mid.spec_pending().contains_key(k) {
                    assert(old(self).spec_pending().contains_key(k));
                }
            }
            State::lemma_wf_transfer(&mid, self, heap, heap);
            assert(mid.spec_ready() == old(self).spec_ready().drop_first());
            assert(scheduled(old(self), self, fiber, fr, out));
            assert(taken.view() == old(heap).view().update(fiber as int, None));
            assert(heap.view() == stepped.view().update(fiber as int, Some(Object::Fiber(f))));
            assert(f0 == old(heap).spec_object(fiber)->Fiber_0);
            assert(fiber_steps(&taken, &stepped, program, f0, f, fiber, floats, fr));
        }
        out
    }

    /// Resumes the fiber parked under `id`: `result` becomes the value of its
    /// yield, and the fiber goes to the back of the ready queue. The wake
    /// raises the generation, so `id` is never handed out again.
    pub fn wake(&mut self, heap: &mut Heap, id: Id, result: Value) -> (r: Result<(), Error>)
        requires
            old(self).wf(old(heap)),
        ensures
            final(self).wf(final(heap)),
            state_wakes(old(self), final(self), old(heap), final(heap), id, result, r),
    {
        if self.woken == u64::MAX {
            return Err(Error::Engine(EngineError::IdsExhausted));
        }
        let fiber = match arena_remove(&mut self.pending, (id.index, id.generation)) {
            Some(f) => f,
            None => {
                proof {
                    assert forall|k: (usize, u64)| #[trigger] self.spec_pending().contains_key(k) implies k.1 <= self.spec_generation() by {
                        assert(old(self).spec_pending().contains_key(k));
                    }
                    State::lemma_wf_transfer(old(self), self, heap, heap);
                }
                return Err(Error::Engine(EngineError::WakeNonExistentFiber));
            },
        };
        self.woken = self.woken + 1;
        proof {
            assert(old(self).spec_pending().contains_key(id.key()));
            assert(id.key().1 <= old(self).spec_generation());
            assert forall|k: (usize, u64)| #[trigger] self.spec_pending().contains_key(k) implies k.1 <= self.spec_generation() by {
                assert(old(self).spec_pending().contains_key(k));
            }
        }
        proof {
            assert(is_fiber(old(heap), fiber));
        }
        match heap.take(fiber) {
            Some(Object::Fiber(f)) => {
                let mut f = f;
                let ghost f_before = f;
                f.push(result);
                heap.put(fiber, Object::Fiber(f));
                assert(f == Fiber { stack: f.stack, ..f_before });
                assert(heap.view() =~= old(heap).view().update(fiber as int, Some(Object::Fiber(f))));
                assert(f_before == old(heap).spec_object(fiber)->Fiber_0);
                let ghost q = self.spec_ready();
                assert(q == old(self).spec_ready());
                self.ready_queue.push_back(fiber);
                proof {
                    assert forall|x: usize, m: usize| x < old(heap).view().len() implies (#[trigger] open_slot(heap, x, m)) is None
                        || open_slot(heap, x, m) == open_slot(old(heap), x, m) by {
                        if x != fiber {
                            assert(heap.view()[x as int] == old(heap).view()[x as int]);
                        }
                    }
                    assert forall|x: usize| Some(x) != None::<usize> && x < old(heap).view().len() implies #[trigger] fiber_upvalues(heap, x) is None
                        || fiber_upvalues(heap, x) == fiber_upvalues(old(heap), x) by {
                        if x != fiber {
                            assert(heap.view()[x as int] == old(heap).view()[x as int]);
                        }
                    }
                    lemma_unique_except_kept(old(heap), heap, None);
                    assert forall|x: usize| #[trigger] is_fiber(old(heap), x) implies is_fiber(heap, x) by {
                        if x != fiber {
                            assert(heap.view()[x as int] == old(heap).view()[x as int]);
                        }
                    }
                    assert forall|i: int| 0 <= i < self.spec_ready().len() implies is_fiber(heap, #[trigger] self.spec_ready()[i]) by {
                        if i < q.len() {
                            assert(self.spec_ready()[i] == q[i]);
                            assert(is_fiber(old(heap), q[i]));
                        }
                    }
                    assert forall|k: (usize, u64)| #[trigger] self.spec_pending().contains_key(k) implies is_fiber(heap, self.spec_pending()[k]) by {
                        assert(old(self).spec_pending().contains_key(k));
                        assert(is_fiber(old(heap), old(self).spec_pending()[k]));
                    }
                    if self.spec_root() is Some {
                        assert(is_fiber(old(heap), self.spec_root()->Some_0));
                    }
                }
                Ok(())
            },
            Some(o) => {
                heap.put(fiber, o);
                Err(Error::Engine(EngineError::InvalidFiber))
            },
            None => Err(Error::Engine(EngineError::InvalidFiber)),
        }
    }
}

} // verus!
