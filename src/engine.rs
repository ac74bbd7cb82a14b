//! The embedding surface: a program, its heap and scheduler, and the values
//! the host keeps alive across collections.
use vstd::prelude::*;

use crate::error::Error;
use crate::function::Program;
use crate::heap::{reachable, Closure, Heap, Object};
use crate::ops::{float_unit_total, FloatOp};
use crate::fiber::{Frame, fiber_upvalues, lemma_grows_keeps_fibers, lemma_unique_except_kept, open_slot};
use crate::heap::is_path;
use crate::state::{holds_values, is_fiber, option_seq, state_steps, state_wakes, Id, State, Step};
use crate::value::Value;

verus! {

/// A value the host holds across collections: an opaque token.
#[derive(Clone, Copy, Debug, PartialEq, Eq, Structural)]
pub struct RootValue {
    index: usize,
}

impl RootValue {
    pub closed spec fn spec_index(&self) -> usize {
        self.index
    }
}

/// The handles of `roots`' values, in order.
pub open spec fn rooted_handles(roots: Seq<Option<Value>>) -> Seq<usize>
    decreases roots.len(),
{
    if roots.len() == 0 {
        Seq::empty()
    } else {
        rooted_handles(roots.drop_last()) + match roots.last() {
            Some(v) => match v.spec_handle() {
                Some(h) => seq![h],
                None => Seq::empty(),
            },
            None => Seq::empty(),
        }
    }
}

/// What the host does next for an evaluation.
#[derive(Clone, Copy, Debug, PartialEq, Eq, Structural)]
pub enum Action {
    /// The evaluation is over with this value.
    Finish(Value),
    /// Hand this operation to the driver under this id, then poll it.
    Dispatch(Id, Value),
    /// Poll the driver without waiting, and drive again.
    Poll,
    /// No fiber can run: wait for the driver to complete an operation.
    Wait,
}

/// The action for what a run of steps came to.
pub open spec fn action_of(r: Result<Step, Error>) -> Result<Action, Error> {
    match r {
        Ok(Step::Return(v)) => Ok(Action::Finish(v)),
        Ok(Step::Yield(id, op)) => Ok(Action::Dispatch(id, op)),
        Ok(Step::Continue) => Ok(Action::Poll),
        Ok(Step::Park) => Ok(Action::Wait),
        Err(e) => Err(e),
    }
}

/// Each state of `chain` is reached from the one before by a scheduler step
/// that came to `Continue`.
pub open spec fn continue_chain<F: Fn(FloatOp, u64, u64) -> u64>(chain: Seq<(State, Heap)>, program: &Program, floats: &F) -> bool {
    forall|i: int|
        0 <= i < chain.len() - 1 ==> #[trigger] state_steps(
            &chain[i].0,
            &chain[i + 1].0,
            &chain[i].1,
            &chain[i + 1].1,
            program,
            floats,
            Ok::<Step, Error>(Step::Continue),
        )
}

/// Running at most `budget` steps from `(s1, h1)` ends in `(s2, h2)` with
/// `r`: steps go on while they come to `Continue`; `Continue` comes back only
/// after `budget` of them; else `r` is the first other result, with that
/// step's effect.
pub open spec fn runs<F: Fn(FloatOp, u64, u64) -> u64>(
    s1: State,
    h1: Heap,
    s2: State,
    h2: Heap,
    program: &Program,
    floats: &F,
    budget: usize,
    r: Result<Step, Error>,
) -> bool {
    exists|chain: Seq<(State, Heap)>|
        #[trigger] continue_chain(chain, program, floats) && chain.len() >= 1 && chain[0] == (s1, h1) && (r
            == Ok::<Step, Error>(Step::Continue) ==> chain.len() == budget + 1 && chain.last() == (s2, h2)) && (r
            != Ok::<Step, Error>(Step::Continue) ==> chain.len() <= budget && state_steps(
            &chain.last().0,
            &s2,
            &chain.last().1,
            &h2,
            program,
            floats,
            r,
        ))
}

/// One turn of the host loop from `(s1, h1)` to `(s2, h2)`: each woken pair,
/// in order, is woken; the first wake that fails ends the turn with its
/// error; after all of them, `budget` steps run and `r` is the action for
/// what they came to.
pub open spec fn drives<F: Fn(FloatOp, u64, u64) -> u64>(
    s1: State,
    h1: Heap,
    s2: State,
    h2: Heap,
    program: &Program,
    floats: &F,
    budget: usize,
    woken: Seq<(Id, Value)>,
    r: Result<Action, Error>,
) -> bool {
    exists|chain: Seq<(State, Heap)>, k: int|
        #![trigger chain[k]]
        0 <= k <= woken.len() && chain.len() == k + 1 && chain[0] == (s1, h1) && (forall|i: int|
            0 <= i < k ==> #[trigger] state_wakes(
                &chain[i].0,
                &chain[i + 1].0,
                &chain[i].1,
                &chain[i + 1].1,
                woken[i].0,
                woken[i].1,
                Ok::<(), Error>(()),
            )) && (k < woken.len() ==> r is Err && state_wakes(
            &chain[k].0,
            &s2,
            &chain[k].1,
            &h2,
            woken[k].0,
            woken[k].1,
            Err::<(), Error>(r->Err_0),
        )) && (k == woken.len() ==> exists|rr: Result<Step, Error>|
            #[trigger] runs(chain[k].0, chain[k].1, s2, h2, program, floats, budget, rr) && r == action_of(rr))
}

pub struct Engine {
    heap: Heap,
    state: State,
    program: Program,
    roots: Vec<Option<Value>>,
}

/// Builds an engine for a compiled program.
pub struct EngineBuilder {
    program: Program,
}

impl EngineBuilder {
    pub closed spec fn spec_program(&self) -> Program {
        self.program
    }

    pub fn new(program: Program) -> (r: EngineBuilder)
        ensures
            r.spec_program() == program,
    {
        EngineBuilder { program }
    }

    pub fn build(self) -> (r: Engine)
        ensures
            r.spec_heap().view().len() == 0,
            r.spec_state().spec_ready().len() == 0,
            r.spec_state().spec_root() is None,
            r.wf(),
    {
        Engine::new(self.program)
    }
}

impl Engine {
    pub closed spec fn spec_heap(&self) -> Heap {
        self.heap
    }

    pub closed spec fn spec_state(&self) -> State {
        self.state
    }

    pub closed spec fn spec_program(&self) -> Program {
        self.program
    }

    pub closed spec fn spec_roots(&self) -> Seq<Option<Value>> {
        self.roots@
    }

    /// Every fiber the scheduler refers to is a live fiber of the heap.
    pub open spec fn wf(&self) -> bool {
        self.spec_state().wf(&self.spec_heap())
    }

    pub fn builder(program: Program) -> (r: EngineBuilder)
        ensures
            r.spec_program() == program,
    {
        EngineBuilder::new(program)
    }

    pub fn new(program: Program) -> (r: Engine)
        ensures
            r.spec_heap().view().len() == 0,
            r.spec_state().spec_ready().len() == 0,
            r.spec_state().spec_root() is None,
            r.spec_roots().len() == 0,
            r.wf(),
    {
        Engine { heap: Heap::new(), state: State::new(), program, roots: Vec::new() }
    }

    pub fn heap(&self) -> (r: &Heap)
        ensures
            *r == self.spec_heap(),
    {
        &self.heap
    }

    /// A closure over function `index` of the program, with no upvalues.
    pub fn closure(&mut self, index: usize) -> (r: Value)
        requires
            old(self).wf(),
        ensures
            final(self).wf(),
            r == Value::Closure(old(self).spec_heap().view().len() as usize),
            final(self).spec_heap().view() == old(self).spec_heap().view().push(
                Some(final(self).spec_heap().spec_object(r->Closure_0)),
            ),
            final(self).spec_heap().spec_object(r->Closure_0) is Closure,
            final(self).spec_heap().spec_object(r->Closure_0)->Closure_0.function == index,
            final(self).spec_state() == old(self).spec_state(),
            final(self).spec_roots() == old(self).spec_roots(),
    {
        let h = self.heap.allocate(Object::Closure(Closure { function: index, upvalues: Vec::new() }));
        proof {
            lemma_grows_keeps_fibers(&old(self).heap, &self.heap);
            crate::fiber::lemma_grows_keeps_open_slots(&old(self).heap, &self.heap);
            self.state.lemma_wf_kept(&old(self).heap, &self.heap);
        }
        Value::Closure(h)
    }

    /// Queues a fiber that runs `closure` with no arguments; see `State::spawn`.
    pub fn spawn(&mut self, closure: usize) -> (r: usize)
        requires
            old(self).wf(),
        ensures
            final(self).wf(),
            r == old(self).spec_heap().view().len(),
            final(self).spec_state().spec_ready() == old(self).spec_state().spec_ready().push(r),
            final(self).spec_heap().spec_live(r),
            final(self).spec_heap().spec_object(r) is Fiber,
            final(self).spec_heap().spec_object(r)->Fiber_0.frame == (Frame { closure, pc: 0, base: 0 }),
            final(self).spec_heap().spec_object(r)->Fiber_0.call_stack@.len() == 0,
            final(self).spec_heap().spec_object(r)->Fiber_0.stack@ == seq![Value::Closure(closure)],
            final(self).spec_heap().spec_object(r)->Fiber_0.open_upvalues@.len() == 0,
            final(self).spec_roots() == old(self).spec_roots(),
    {
        self.state.spawn(&mut self.heap, closure)
    }

    /// Spawns the program's entry point, function 0, as a fiber.
    pub fn start(&mut self) -> (r: usize)
        requires
            old(self).wf(),
        ensures
            final(self).wf(),
            final(self).spec_heap().spec_live(r),
            final(self).spec_heap().spec_object(r) is Fiber,
            final(self).spec_state().spec_ready() == old(self).spec_state().spec_ready().push(r),
    {
        let c = self.closure(0);
        match c {
            Value::Closure(h) => self.spawn(h),
            _ => self.spawn(0),
        }
    }

    /// One scheduler step; see `State::step`.
    pub fn step<F: Fn(FloatOp, u64, u64) -> u64>(&mut self, floats: &F) -> (r: Result<Step, Error>)
        requires
            old(self).wf(),
            float_unit_total(floats),
        ensures
            final(self).wf(),
            final(self).spec_roots() == old(self).spec_roots(),
            final(self).spec_program() == old(self).spec_program(),
            state_steps(
                &old(self).spec_state(),
                &final(self).spec_state(),
                &old(self).spec_heap(),
                &final(self).spec_heap(),
                &old(self).spec_program(),
                floats,
                r,
            ),
    {
        self.state.step(&mut self.heap, &self.program, floats)
    }

    /// Steps until a fiber yields, the root fiber returns, no fiber is
    /// ready, or `budget` steps have run (then `Continue`).
    pub fn run<F: Fn(FloatOp, u64, u64) -> u64>(&mut self, floats: &F, budget: usize) -> (r: Result<Step, Error>)
        requires
            old(self).wf(),
            float_unit_total(floats),
        ensures
            final(self).wf(),
            final(self).spec_roots() == old(self).spec_roots(),
            final(self).spec_program() == old(self).spec_program(),
            runs(
                old(self).spec_state(),
                old(self).spec_heap(),
                final(self).spec_state(),
                final(self).spec_heap(),
                &old(self).spec_program(),
                floats,
                budget,
                r,
            ),
    {
        let ghost mut chain: Seq<(State, Heap)> = seq![(self.state, self.heap)];
        let mut n: usize = 0;
        while n < budget
            invariant
                self.roots@ == old(self).roots@,
                self.program == old(self).program,
                float_unit_total(floats),
                self.wf(),
                n <= budget,
                chain.len() == n + 1,
                chain[0] == (old(self).state, old(self).heap),
                chain.last() == (self.state, self.heap),
                continue_chain(chain, &old(self).program, floats),
            decreases budget - n,
        {
            let r = self.step(floats);
            match r {
                Ok(Step::Continue) => {},
                _ => {
                    proof {
                        assert(runs(old(self).state, old(self).heap, self.state, self.heap, &old(self).program, floats, budget, r));
                    }
                    return r;
                },
            }
            proof {
                let prev = chain;
                chain = chain.push((self.state, self.heap));
                assert forall|i: int| 0 <= i < chain.len() - 1 implies #[trigger] state_steps(
                    &chain[i].0,
                    &chain[i + 1].0,
                    &chain[i].1,
                    &chain[i + 1].1,
                    &old(self).program,
                    floats,
                    Ok::<Step, Error>(Step::Continue),
                ) by {
                    if i < prev.len() - 1 {
                        assert(chain[i] == prev[i] && chain[i + 1] == prev[i + 1]);
                    }
                }
            }
            n = n + 1;
        }
        proof {
            assert(runs(old(self).state, old(self).heap, self.state, self.heap, &old(self).program, floats, budget, Ok::<Step, Error>(Step::Continue)));
        }
        Ok(Step::Continue)
    }

    /// Resumes the fiber parked under `id` with `result`; see `State::wake`.
    pub fn wake(&mut self, id: Id, result: Value) -> (r: Result<(), Error>)
        requires
            old(self).wf(),
        ensures
            final(self).wf(),
            final(self).spec_roots() == old(self).spec_roots(),
            final(self).spec_program() == old(self).spec_program(),
            state_wakes(
                &old(self).spec_state(),
                &final(self).spec_state(),
                &old(self).spec_heap(),
                &final(self).spec_heap(),
                id,
                result,
                r,
            ),
    {
        self.state.wake(&mut self.heap, id, result)
    }

    /// One turn of the host loop: wakes the fibers whose operations
    /// completed (`woken`, in order), then runs up to `budget` steps and says
    /// what the host does next.
    pub fn drive<F: Fn(FloatOp, u64, u64) -> u64>(&mut self, floats: &F, budget: usize, woken: Vec<(Id, Value)>) -> (r: Result<Action, Error>)
        requires
            old(self).wf(),
            float_unit_total(floats),
        ensures
            final(self).wf(),
            final(self).spec_roots() == old(self).spec_roots(),
            final(self).spec_program() == old(self).spec_program(),
            drives(
                old(self).spec_state(),
                old(self).spec_heap(),
                final(self).spec_state(),
                final(self).spec_heap(),
                &old(self).spec_program(),
                floats,
                budget,
                woken@,
                r,
            ),
    {
        let ghost mut chain: Seq<(State, Heap)> = seq![(self.state, self.heap)];
        let mut i: usize = 0;
        while i < woken.len()
            invariant
                self.roots@ == old(self).roots@,
                self.program == old(self).program,
                self.wf(),
                i <= woken@.len(),
                chain.len() == i + 1,
                chain[0] == (old(self).state, old(self).heap),
                chain.last() == (self.state, self.heap),
                forall|j: int| 0 <= j < i ==> #[trigger] state_wakes(
                    &chain[j].0,
                    &chain[j + 1].0,
                    &chain[j].1,
                    &chain[j + 1].1,
                    woken@[j].0,
                    woken@[j].1,
                    Ok::<(), Error>(()),
                ),
            decreases woken@.len() - i,
        {
            let (id, v) = woken[i];
            let w = self.wake(id, v);
            match w {
                Ok(()) => {},
                Err(e) => {
                    let r: Result<Action, Error> = Err(e);
                    proof {
                        assert(state_wakes(&chain[i as int].0, &self.state, &chain[i as int].1, &self.heap, woken@[i as int].0, woken@[i as int].1, Err::<(), Error>(r->Err_0)));
                        assert(drives(old(self).state, old(self).heap, self.state, self.heap, &old(self).program, floats, budget, woken@, r));
                    }
                    return r;
                },
            }
            proof {
                let prev = chain;
                chain = chain.push((self.state, self.heap));
                assert forall|j: int| 0 <= j < i + 1 implies #[trigger] state_wakes(
                    &chain[j].0,
                    &chain[j + 1].0,
                    &chain[j].1,
                    &chain[j + 1].1,
                    woken@[j].0,
                    woken@[j].1,
                    Ok::<(), Error>(()),
                ) by {
                    if j < i {
                        assert(chain[j] == prev[j] && chain[j + 1] == prev[j + 1]);
                    }
                }
            }
            i = i + 1;
        }
        let ghost mid = (self.state, self.heap);
        let rr = self.run(floats, budget);
        let r = match rr {
            Ok(Step::Return(v)) => Ok(Action::Finish(v)),
            Ok(Step::Yield(id, op)) => Ok(Action::Dispatch(id, op)),
            Ok(Step::Continue) => Ok(Action::Poll),
            Ok(Step::Park) => Ok(Action::Wait),
            Err(e) => Err(e),
        };
        proof {
            assert(r == action_of(rr));
            assert(runs(mid.0, mid.1, self.state, self.heap, &old(self).program, floats, budget, rr));
            assert(drives(old(self).state, old(self).heap, self.state, self.heap, &old(self).program, floats, budget, woken@, r));
        }
        r
    }

    /// Keeps `v` alive across collections until `unroot`.
    pub fn root(&mut self, v: Value) -> (r: RootValue)
        requires
            old(self).wf(),
        ensures
            final(self).wf(),
            final(self).spec_roots() == old(self).spec_roots().push(Some(v)),
            r.spec_index() == old(self).spec_roots().len(),
            final(self).spec_heap() == old(self).spec_heap(),
            final(self).spec_state() == old(self).spec_state(),
    {
        let index = self.roots.len();
        self.roots.push(Some(v));
        RootValue { index }
    }

    /// The value behind `token`, released from the root set; `None` if it was
    /// released already.
    pub fn unroot(&mut self, token: RootValue) -> (r: Option<Value>)
        requires
            old(self).wf(),
        ensures
            final(self).wf(),
            token.spec_index() < old(self).spec_roots().len() ==> r == old(self).spec_roots()[token.spec_index() as int]
                && final(self).spec_roots() == old(self).spec_roots().update(token.spec_index() as int, None),
            token.spec_index() >= old(self).spec_roots().len() ==> r is None && final(self).spec_roots() == old(self).spec_roots(),
            final(self).spec_heap() == old(self).spec_heap(),
            final(self).spec_state() == old(self).spec_state(),
    {
        if token.index < self.roots.len() {
            let v = self.roots[token.index];
            self.roots.set(token.index, None);
            v
        } else {
            None
        }
    }

    /// The handles of every rooted value.
    fn rooted(&self) -> (r: Vec<usize>)
        ensures
            r@ == rooted_handles(self.roots@),
    {
        let mut r: Vec<usize> = Vec::new();
        let mut i: usize = 0;
        while i < self.roots.len()
            invariant
                i <= self.roots@.len(),
                r@ == rooted_handles(self.roots@.subrange(0, i as int)),
            decreases self.roots@.len() - i,
        {
            match self.roots[i] {
                Some(v) => match v.handle() {
                    Some(h) => {
                        r.push(h);
                    },
                    None => {},
                },
                None => {},
            }
            assert(self.roots@.subrange(0, i + 1).drop_last() =~= self.roots@.subrange(0, i as int));
            assert(r@ =~= rooted_handles(self.roots@.subrange(0, i + 1)));
            i = i + 1;
        }
        assert(self.roots@.subrange(0, self.roots@.len() as int) =~= self.roots@);
        r
    }

    /// Collects every object that neither a fiber of the scheduler nor a
    /// rooted value reaches.
    pub fn collect(&mut self)
        requires
            old(self).wf(),
        ensures
            final(self).wf(),
            final(self).spec_state() == old(self).spec_state(),
            final(self).spec_roots() == old(self).spec_roots(),
            final(self).spec_heap().view().len() == old(self).spec_heap().view().len(),
            exists|parked: Seq<usize>| #[trigger] holds_values(parked, old(self).spec_state().spec_pending()) && forall|h: usize|
                h < old(self).spec_heap().view().len() ==> #[trigger] final(self).spec_heap().view()[h as int] == if reachable(
                    old(self).spec_heap().view(),
                    parked + old(self).spec_state().spec_ready() + option_seq(old(self).spec_state().spec_root())
                        + rooted_handles(old(self).spec_roots()),
                    h,
                ) {
                    old(self).spec_heap().view()[h as int]
                } else {
                    None
                },
    {
        let mut roots = self.state.fibers();
        let ghost fibers = roots@;
        let mut extra = self.rooted();
        roots.append(&mut extra);
        self.heap.collect(&roots);
        proof {
            let parked = choose|parked: Seq<usize>| #[trigger] holds_values(parked, old(self).spec_state().spec_pending())
                && fibers == parked + old(self).spec_state().spec_ready() + option_seq(old(self).spec_state().spec_root());
            let all = parked + old(self).spec_state().spec_ready() + option_seq(old(self).spec_state().spec_root())
                + rooted_handles(old(self).spec_roots());
            assert(roots@ == all);
            let h0 = old(self).spec_heap().view();
            assert forall|x: usize, m: usize| x < h0.len() implies (#[trigger] open_slot(&self.heap, x, m)) is None
                || open_slot(&self.heap, x, m) == open_slot(&old(self).heap, x, m) by {
                assert(self.heap.view()[x as int] == h0[x as int] || self.heap.view()[x as int] is None);
            }
            assert forall|x: usize| Some(x) != None::<usize> && x < h0.len() implies #[trigger] fiber_upvalues(&self.heap, x) is None
                || fiber_upvalues(&self.heap, x) == fiber_upvalues(&old(self).heap, x) by {
                assert(self.heap.view()[x as int] == h0[x as int] || self.heap.view()[x as int] is None);
            }
            lemma_unique_except_kept(&old(self).heap, &self.heap, None);
            assert forall|x: usize| #[trigger] is_fiber(&old(self).heap, x) && roots@.contains(x) implies is_fiber(&self.heap, x) by {
                assert(is_path(h0, roots@, seq![x]));
                assert(reachable(h0, roots@, x));
                assert(self.heap.view()[x as int] == h0[x as int]);
            }
            let st = self.spec_state();
            assert forall|i: int| 0 <= i < st.spec_ready().len() implies is_fiber(&self.heap, #[trigger] st.spec_ready()[i]) by {
                let x = st.spec_ready()[i];
                assert(is_fiber(&old(self).heap, x));
                assert(all[parked.len() as int + i] == x);
                assert(roots@.contains(x));
            }
            assert forall|k: (usize, u64)| #[trigger] st.spec_pending().contains_key(k) implies is_fiber(&self.heap, st.spec_pending()[k]) by {
                let x = st.spec_pending()[k];
                assert(is_fiber(&old(self).heap, x));
                assert(parked.contains(x));
                let j = choose|j: int| 0 <= j < parked.len() && parked[j] == x;
                assert(all[j] == x);
                assert(roots@.contains(x));
            }
            if st.spec_root() is Some {
                let x = st.spec_root()->Some_0;
                assert(is_fiber(&old(self).heap, x));
                assert(all[(parked.len() + st.spec_ready().len()) as int] == x);
                assert(roots@.contains(x));
            }
        }
    }
}

} // verus!
