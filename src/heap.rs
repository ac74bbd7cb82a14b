//! The heap: objects addressed by handle, and a mark-and-sweep collector.
use vstd::prelude::*;

use crate::fiber::{Fiber, Frame};
use crate::value::Value;

verus! {

/// A cell captured by closures: open while it still refers to a slot of a
/// live fiber's stack, closed once the value has moved into the cell.
#[derive(Clone, Copy, Debug, PartialEq, Eq, Structural)]
pub enum Upvalue {
    Open { fiber: usize, slot: usize },
    Closed(Value),
}

/// A function of the program paired with the handles of its upvalues.
#[derive(Clone, Debug)]
pub struct Closure {
    pub function: usize,
    pub upvalues: Vec<usize>,
}

/// An error value: a message string and attached data.
#[derive(Clone, Copy, Debug, PartialEq, Eq, Structural)]
pub struct ErrorObject {
    pub message: usize,
    pub data: Value,
}

/// A heap object.
#[derive(Clone, Debug)]
pub enum Object {
    String(String),
    List(Vec<Value>),
    Dict(Vec<(Value, Value)>),
    Closure(Closure),
    Upvalue(Upvalue),
    Fiber(Fiber),
    Error(ErrorObject),
}

/// The handle a value holds, as a sequence of zero or one handles.
pub open spec fn value_handles(v: Value) -> Seq<usize> {
    match v.spec_handle() {
        Some(h) => seq![h],
        None => Seq::empty(),
    }
}

/// The handles held by a sequence of values, in order.
pub open spec fn values_handles(vs: Seq<Value>) -> Seq<usize>
    decreases vs.len(),
{
    if vs.len() == 0 {
        Seq::empty()
    } else {
        values_handles(vs.drop_last()) + value_handles(vs.last())
    }
}

/// The handles held by a sequence of key/value pairs, in order.
pub open spec fn pairs_handles(ps: Seq<(Value, Value)>) -> Seq<usize>
    decreases ps.len(),
{
    if ps.len() == 0 {
        Seq::empty()
    } else {
        pairs_handles(ps.drop_last()) + value_handles(ps.last().0) + value_handles(ps.last().1)
    }
}

/// The closures of a sequence of frames, in order.
pub open spec fn frames_handles(fs: Seq<Frame>) -> Seq<usize>
    decreases fs.len(),
{
    if fs.len() == 0 {
        Seq::empty()
    } else {
        frames_handles(fs.drop_last()).push(fs.last().closure)
    }
}

/// The handles an object holds: the edges the collector traces.
pub open spec fn object_handles(o: Object) -> Seq<usize> {
    match o {
        Object::String(_) => Seq::empty(),
        Object::List(items) => values_handles(items@),
        Object::Dict(pairs) => pairs_handles(pairs@),
        Object::Closure(c) => c.upvalues@,
        Object::Upvalue(Upvalue::Open { fiber, slot: _ }) => seq![fiber],
        Object::Upvalue(Upvalue::Closed(v)) => value_handles(v),
        Object::Fiber(f) => f.open_upvalues@.push(f.frame.closure) + frames_handles(f.call_stack@)
            + values_handles(f.stack@),
        Object::Error(e) => seq![e.message] + value_handles(e.data),
    }
}

fn push_value_handle(out: &mut Vec<usize>, v: Value)
    ensures
        final(out)@ == old(out)@ + value_handles(v),
{
    match v.handle() {
        Some(h) => {
            out.push(h);
        },
        None => {},
    }
    assert(out@ =~= old(out)@ + value_handles(v));
}

fn push_values_handles(out: &mut Vec<usize>, vs: &Vec<Value>)
    ensures
        final(out)@ == old(out)@ + values_handles(vs@),
{
    let mut i: usize = 0;
    while i < vs.len()
        invariant
            i <= vs@.len(),
            out@ == old(out)@ + values_handles(vs@.subrange(0, i as int)),
        decreases vs@.len() - i,
    {
        push_value_handle(out, vs[i]);
        assert(vs@.subrange(0, i + 1).drop_last() =~= vs@.subrange(0, i as int));
        assert(out@ =~= old(out)@ + values_handles(vs@.subrange(0, i + 1)));
        i = i + 1;
    }
    assert(vs@.subrange(0, vs@.len() as int) =~= vs@);
}

/// The handles held by an object.
pub fn children(o: &Object) -> (r: Vec<usize>)
    ensures
        r@ == object_handles(*o),
{
    let mut out: Vec<usize> = Vec::new();
    match o {
        Object::String(_) => {},
        Object::List(items) => {
            push_values_handles(&mut out, items);
        },
        Object::Dict(pairs) => {
            let mut i: usize = 0;
            while i < pairs.len()
                invariant
                    i <= pairs@.len(),
                    out@ == pairs_handles(pairs@.subrange(0, i as int)),
                decreases pairs@.len() - i,
            {
                push_value_handle(&mut out, pairs[i].0);
                push_value_handle(&mut out, pairs[i].1);
                assert(pairs@.subrange(0, i + 1).drop_last() =~= pairs@.subrange(0, i as int));
                assert(out@ =~= pairs_handles(pairs@.subrange(0, i + 1)));
                i = i + 1;
            }
            assert(pairs@.subrange(0, pairs@.len() as int) =~= pairs@);
        },
        Object::Closure(c) => {
            out = c.upvalues.clone();
        },
        Object::Upvalue(Upvalue::Open { fiber, slot: _ }) => {
            out.push(*fiber);
            assert(out@ =~= seq![*fiber]);
        },
        Object::Upvalue(Upvalue::Closed(v)) => {
            push_value_handle(&mut out, *v);
            assert(out@ =~= value_handles(*v));
        },
        Object::Fiber(f) => {
            out = f.open_upvalues.clone();
            out.push(f.frame.closure);
            let ghost base = out@;
            let mut i: usize = 0;
            while i < f.call_stack.len()
                invariant
                    i <= f.call_stack@.len(),
                    out@ == base + frames_handles(f.call_stack@.subrange(0, i as int)),
                decreases f.call_stack@.len() - i,
            {
                out.push(f.call_stack[i].closure);
                assert(f.call_stack@.subrange(0, i + 1).drop_last() =~= f.call_stack@.subrange(0, i as int));
                assert(out@ =~= base + frames_handles(f.call_stack@.subrange(0, i + 1)));
                i = i + 1;
            }
            assert(f.call_stack@.subrange(0, f.call_stack@.len() as int) =~= f.call_stack@);
            push_values_handles(&mut out, &f.stack);
            assert(out@ =~= object_handles(*o));
        },
        Object::Error(e) => {
            out.push(e.message);
            push_value_handle(&mut out, e.data);
            assert(out@ =~= object_handles(*o));
        },
    }
    out
}

pub open spec fn live(slots: Seq<Option<Object>>, h: usize) -> bool {
    h < slots.len() && slots[h as int] is Some
}

/// `path` starts at a root and follows edges between live objects.
pub open spec fn is_path(slots: Seq<Option<Object>>, roots: Seq<usize>, path: Seq<usize>) -> bool {
    &&& path.len() > 0
    &&& roots.contains(path[0])
    &&& forall|i: int| 0 <= i < path.len() ==> live(slots, #[trigger] path[i])
    &&& forall|i: int|
        0 <= i < path.len() - 1 ==> object_handles(slots[path[i] as int]->Some_0).contains(
            #[trigger] path[i + 1],
        )
}

/// `h` is live and can be reached from a live root.
pub open spec fn reachable(slots: Seq<Option<Object>>, roots: Seq<usize>, h: usize) -> bool {
    exists|path: Seq<usize>| #[trigger] is_path(slots, roots, path) && path.last() == h
}

/// The number of unset marks.
pub open spec fn count_false(s: Seq<bool>) -> nat
    decreases s.len(),
{
    if s.len() == 0 {
        0
    } else {
        count_false(s.drop_last()) + if s.last() {
            0nat
        } else {
            1nat
        }
    }
}

proof fn lemma_count_false_update(s: Seq<bool>, i: int)
    requires
        0 <= i < s.len(),
        !s[i],
    ensures
        count_false(s) >= 1,
        count_false(s.update(i, true)) == count_false(s) - 1,
    decreases s.len(),
{
    let t = s.update(i, true);
    if i == s.len() - 1 {
        assert(t.drop_last() =~= s.drop_last());
    } else {
        assert(t.drop_last() =~= s.drop_last().update(i, true));
        lemma_count_false_update(s.drop_last(), i);
    }
}

/// A set of marks that holds every live root and is closed under the edges
/// between live objects holds every reachable object.
proof fn lemma_closed_marks_cover(slots: Seq<Option<Object>>, roots: Seq<usize>, marked: Seq<bool>, path: Seq<usize>, k: int)
    requires
        marked.len() == slots.len(),
        forall|r: usize| roots.contains(r) && live(slots, r) ==> marked[r as int],
        forall|p: usize, c: usize|
            #![trigger marked[p as int], object_handles(slots[p as int]->Some_0).contains(c)]
            p < slots.len() && marked[p as int] && live(slots, c) && object_handles(
                slots[p as int]->Some_0,
            ).contains(c) ==> marked[c as int],
        is_path(slots, roots, path),
        0 <= k < path.len(),
    ensures
        marked[path[k] as int],
    decreases k,
{
    assert(live(slots, path[k]));
    if k > 0 {
        lemma_closed_marks_cover(slots, roots, marked, path, k - 1);
        assert(live(slots, path[k - 1]));
        assert(object_handles(slots[path[k - 1] as int]->Some_0).contains(path[(k - 1) + 1]));
    }
}

/// The heap. Handles are indices that are never reused: a handle whose
/// object was collected stays dead.
pub struct Heap {
    slots: Vec<Option<Object>>,
}

impl Heap {
    pub closed spec fn view(&self) -> Seq<Option<Object>> {
        self.slots@
    }

    pub open spec fn spec_live(&self, h: usize) -> bool {
        live(self.view(), h)
    }

    pub open spec fn spec_object(&self, h: usize) -> Object {
        self.view()[h as int]->Some_0
    }

    pub fn new() -> (r: Heap)
        ensures
            r.view().len() == 0,
    {
        Heap { slots: Vec::new() }
    }

    /// The number of handles handed out so far.
    pub fn len(&self) -> (r: usize)
        ensures
            r == self.view().len(),
    {
        self.slots.len()
    }

    /// Stores `o` under a fresh handle.
    pub fn allocate(&mut self, o: Object) -> (h: usize)
        ensures
            h == old(self).view().len(),
            final(self).view() == old(self).view().push(Some(o)),
    {
        let h = self.slots.len();
        self.slots.push(Some(o));
        h
    }

    /// Whether the object under `h` is still alive (a weak check).
    pub fn is_live(&self, h: usize) -> (r: bool)
        ensures
            r == self.spec_live(h),
    {
        h < self.slots.len() && self.slots[h].is_some()
    }

    pub fn get(&self, h: usize) -> (r: Option<&Object>)
        ensures
            self.spec_live(h) ==> r == Some(&self.spec_object(h)),
            !self.spec_live(h) ==> r is None,
    {
        if h < self.slots.len() {
            self.slots[h].as_ref()
        } else {
            None
        }
    }

    /// Moves the object out of `h`, leaving the slot empty until `put`.
    pub fn take(&mut self, h: usize) -> (r: Option<Object>)
        ensures
            old(self).spec_live(h) ==> r == Some(old(self).spec_object(h)) && final(self).view()
                == old(self).view().update(h as int, None),
            !old(self).spec_live(h) ==> r is None && final(self).view() == old(self).view(),
    {
        if h < self.slots.len() {
            let mut slot: Option<Object> = None;
            std::mem::swap(&mut slot, &mut self.slots[h]);
            slot
        } else {
            None
        }
    }

    /// Stores `o` under the existing handle `h`.
    pub fn put(&mut self, h: usize, o: Object)
        requires
            h < old(self).view().len(),
        ensures
            final(self).view() == old(self).view().update(h as int, Some(o)),
    {
        self.slots.set(h, Some(o));
    }

    /// Marks every object reachable from `roots`, then frees every other one.
    pub fn collect(&mut self, roots: &Vec<usize>)
        ensures
            final(self).view().len() == old(self).view().len(),
            forall|h: usize|
                h < old(self).view().len() ==> #[trigger] final(self).view()[h as int] == if reachable(
                    old(self).view(),
                    roots@,
                    h,
                ) {
                    old(self).view()[h as int]
                } else {
                    None
                },
    {
        let ghost slots = self.slots@;
        let n = self.slots.len();
        let mut marked: Vec<bool> = Vec::new();
        while marked.len() < n
            invariant
                marked@.len() <= n,
                forall|i: int| 0 <= i < marked@.len() ==> !marked@[i],
            decreases n - marked@.len(),
        {
            marked.push(false);
        }
        let mut work: Vec<usize> = Vec::new();
        let mut j: usize = 0;
        while j < roots.len()
            invariant
                self.slots@ == slots,
                n == slots.len(),
                marked@.len() == n,
                j <= roots@.len(),
                forall|i: usize| i < n && #[trigger] marked@[i as int] ==> reachable(slots, roots@, i),
                forall|i: usize| i < n && #[trigger] marked@[i as int] ==> live(slots, i),
                forall|k: int| 0 <= k < work@.len() ==> work@[k] < n && marked@[work@[k] as int],
                forall|i: usize| i < n && #[trigger] marked@[i as int] ==> work@.contains(i),
                forall|k: int| 0 <= k < j ==> live(slots, #[trigger] roots@[k]) ==> marked@[roots@[k] as int],
            decreases roots@.len() - j,
        {
            let r = roots[j];
            if r < n && self.slots[r].is_some() && !marked[r] {
                proof {
                    assert(roots@[j as int] == r);
                    let path = seq![r];
                    assert(is_path(slots, roots@, path));
                }
                let ghost old_work = work@;
                let ghost old_marked = marked@;
                proof {
                    lemma_count_false_update(marked@, r as int);
                }
                marked.set(r, true);
                work.push(r);
                proof {
                    assert forall|i: usize| i < n && #[trigger] marked@[i as int] implies work@.contains(i) by {
                        if i == r {
                            assert(work@[work@.len() - 1] == r);
                        } else {
                            assert(old_marked[i as int]);
                            let k = choose|k: int| 0 <= k < old_work.len() && old_work[k] == i;
                            assert(work@[k] == i);
                        }
                    }
                }
            }
            j = j + 1;
        }
        while work.len() > 0
            invariant
                self.slots@ == slots,
                n == slots.len(),
                marked@.len() == n,
                forall|i: usize| i < n && #[trigger] marked@[i as int] ==> reachable(slots, roots@, i),
                forall|i: usize| i < n && #[trigger] marked@[i as int] ==> live(slots, i),
                forall|k: int| 0 <= k < work@.len() ==> work@[k] < n && marked@[work@[k] as int],
                forall|r: usize| roots@.contains(r) && live(slots, r) ==> marked@[r as int],
                forall|p: usize, c: usize|
                    #![trigger marked@[p as int], object_handles(slots[p as int]->Some_0).contains(c)]
                    p < n && marked@[p as int] && !work@.contains(p) && live(slots, c) && object_handles(
                        slots[p as int]->Some_0,
                    ).contains(c) ==> marked@[c as int],
            decreases count_false(marked@), work@.len(),
        {
            let ghost work_before = work@;
            let p = work.pop().unwrap();
            proof {
                assert(work_before == work@.push(p));
                assert forall|q: usize| q != p && work_before.contains(q) implies work@.contains(q) by {
                    let i = choose|i: int| 0 <= i < work_before.len() && work_before[i] == q;
                    assert(work@[i] == q);
                }
            }
            let ghost count_before = count_false(marked@);
            let cs = children(self.slots[p].as_ref().unwrap());
            let mut k: usize = 0;
            while k < cs.len()
                invariant
                    self.slots@ == slots,
                    n == slots.len(),
                    marked@.len() == n,
                    p < n,
                    marked@[p as int],
                    cs@ == object_handles(slots[p as int]->Some_0),
                    k <= cs@.len(),
                    count_false(marked@) <= count_before,
                    count_false(marked@) == count_before ==> work@.len() == work_before.len() - 1,
                    forall|i: usize| i < n && #[trigger] marked@[i as int] ==> reachable(slots, roots@, i),
                    forall|i: usize| i < n && #[trigger] marked@[i as int] ==> live(slots, i),
                    forall|q: int| 0 <= q < work@.len() ==> work@[q] < n && marked@[work@[q] as int],
                    forall|r: usize| roots@.contains(r) && live(slots, r) ==> marked@[r as int],
                    forall|q: int| 0 <= q < k ==> live(slots, #[trigger] cs@[q]) ==> marked@[cs@[q] as int],
                    forall|q: usize, c: usize|
                        #![trigger marked@[q as int], object_handles(slots[q as int]->Some_0).contains(c)]
                        q < n && q != p && marked@[q as int] && !work@.contains(q) && live(slots, c)
                            && object_handles(slots[q as int]->Some_0).contains(c) ==> marked@[c as int],
                decreases cs@.len() - k,
            {
                let c = cs[k];
                if c < n && self.slots[c].is_some() && !marked[c] {
                    proof {
                        let path = choose|path: Seq<usize>| #[trigger] is_path(slots, roots@, path) && path.last() == p;
                        assert(cs@[k as int] == c);
                        assert(object_handles(slots[p as int]->Some_0).contains(c));
                        let path2 = path.push(c);
                        assert(path2[path2.len() - 2] == p);
                        assert(is_path(slots, roots@, path2));
                        lemma_count_false_update(marked@, c as int);
                    }
                    let ghost old_work = work@;
                    marked.set(c, true);
                    work.push(c);
                    proof {
                        assert forall|q: usize, c2: usize|
                            q < n && q != p && marked@[q as int] && !work@.contains(q) && live(slots, c2)
                                && object_handles(slots[q as int]->Some_0).contains(c2) implies marked@[c2 as int] by {
                            if q != c {
                                if old_work.contains(q) {
                                    let i = choose|i: int| 0 <= i < old_work.len() && old_work[i] == q;
                                    assert(work@[i] == q);
                                }
                            } else {
                                assert(work@[work@.len() - 1] == c);
                            }
                        }
                    }
                }
                k = k + 1;
            }
            proof {
                assert forall|q: usize, c: usize|
                    q < n && marked@[q as int] && !work@.contains(q) && live(slots, c) && object_handles(
                        slots[q as int]->Some_0,
                    ).contains(c) implies marked@[c as int] by {
                    if q == p {
                        let i = choose|i: int| 0 <= i < cs@.len() && cs@[i] == c;
                        assert(live(slots, cs@[i]));
                    }
                }
            }
        }
        proof {
            assert forall|h: usize| h < n implies #[trigger] marked@[h as int] == reachable(slots, roots@, h) by {
                if reachable(slots, roots@, h) {
                    let path = choose|path: Seq<usize>| #[trigger] is_path(slots, roots@, path) && path.last() == h;
                    lemma_closed_marks_cover(slots, roots@, marked@, path, path.len() - 1);
                }
            }
        }
        let mut i: usize = 0;
        while i < n
            invariant
                n == slots.len(),
                marked@.len() == n,
                self.slots@.len() == n,
                i <= n,
                forall|h: usize| h < n ==> #[trigger] marked@[h as int] == reachable(slots, roots@, h),
                forall|h: usize| i <= h < n ==> #[trigger] self.slots@[h as int] == slots[h as int],
                forall|h: usize|
                    h < i ==> #[trigger] self.slots@[h as int] == if reachable(slots, roots@, h) {
                        slots[h as int]
                    } else {
                        None
                    },
            decreases n - i,
        {
            if !marked[i] {
                self.slots.set(i, None);
            }
            i = i + 1;
        }
        proof {
            assert forall|h: usize| h < n implies #[trigger] self.slots@[h as int] == if reachable(slots, roots@, h) {
                slots[h as int]
            } else {
                None
            } by {
                if !reachable(slots, roots@, h) && slots[h as int] is None {
                }
            }
        }
    }
}

} // verus!
