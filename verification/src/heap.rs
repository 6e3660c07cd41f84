use core::marker::PhantomData;
use vstd::prelude::*;

use crate::value::Value;

verus! {

/// A typed handle to a heap-allocated object: an index into the heap.
#[derive(Debug)]
pub struct Gc<T> {
    pub index: usize,
    pub _marker: PhantomData<T>,
}

impl<T> Gc<T> {
    pub(crate) fn new(index: usize) -> (g: Self)
        ensures
            g.index == index,
    {
        Gc { index, _marker: PhantomData }
    }
}

impl<T> Gc<T> {
    /// The handle to slot `index`.
    pub open spec fn new_spec(index: usize) -> Gc<T> {
        Gc { index, _marker: PhantomData }
    }
}

impl<T> Clone for Gc<T> {
    fn clone(&self) -> (g: Self)
        ensures
            g == *self,
    {
        Gc { index: self.index, _marker: PhantomData }
    }
}

impl<T> Copy for Gc<T> {
}

impl<T> PartialEq for Gc<T> {
    fn eq(&self, other: &Self) -> (r: bool) {
        self.index == other.index
    }
}

impl<T> vstd::std_specs::cmp::PartialEqSpecImpl for Gc<T> {
    open spec fn obeys_eq_spec() -> bool {
        true
    }

    open spec fn eq_spec(&self, other: &Self) -> bool {
        self.index == other.index
    }
}

/// A heap-allocated UTF-8 string.
#[derive(Debug, Clone)]
pub struct StringObj {
    pub data: String,
}

/// A heap-allocated dynamic list of values.
#[derive(Debug, Clone)]
pub struct ListObj {
    pub elements: Vec<Value>,
}

} // verus!

verus! {

/// Discriminated union of all heap-allocatable object types.
#[derive(Debug, Clone)]
pub enum HeapObject {
    String(StringObj),
    List(ListObj),
}

/// The heap slot a value refers to, if it is a heap reference.
pub open spec fn value_ref(v: Value) -> Option<usize> {
    match v {
        Value::String(gc) => Some(gc.index),
        Value::List(gc) => Some(gc.index),
        _ => None,
    }
}

/// The heap slots referenced by a sequence of values, in order.
pub open spec fn refs_of(vals: Seq<Value>) -> Seq<usize>
    decreases vals.len(),
{
    if vals.len() == 0 {
        Seq::empty()
    } else {
        let rest = refs_of(vals.drop_last());
        match value_ref(vals.last()) {
            Some(i) => rest.push(i),
            None => rest,
        }
    }
}

/// The heap slots an object refers to directly.
pub open spec fn children(obj: HeapObject) -> Seq<usize> {
    match obj {
        HeapObject::List(l) => refs_of(l.elements@),
        HeapObject::String(_) => Seq::empty(),
    }
}

/// `p` is a chain of slots in `objs`, each referring to the next.
pub open spec fn is_path(objs: Seq<HeapObject>, p: Seq<usize>) -> bool {
    &&& p.len() >= 1
    &&& forall|i: int| 0 <= i < p.len() ==> #[trigger] p[i] < objs.len()
    &&& forall|i: int|
        0 <= i < p.len() - 1 ==> children(objs[#[trigger] p[i] as int]).contains(p[i + 1])
}

/// Slot `to` can be reached from slot `from` by following references.
pub open spec fn reaches(objs: Seq<HeapObject>, from: usize, to: usize) -> bool {
    exists|p: Seq<usize>| #[trigger] is_path(objs, p) && p[0] == from && p.last() == to
}

/// Number of `false` entries.
pub open spec fn count_unmarked(s: Seq<bool>) -> nat
    decreases s.len(),
{
    if s.len() == 0 {
        0
    } else {
        count_unmarked(s.drop_last()) + if s.last() {
            0nat
        } else {
            1nat
        }
    }
}

/// Indices of the `false` entries, in increasing order.
pub open spec fn unmarked_indices(s: Seq<bool>) -> Seq<usize>
    decreases s.len(),
{
    if s.len() == 0 {
        Seq::empty()
    } else {
        let rest = unmarked_indices(s.drop_last());
        if s.last() {
            rest
        } else {
            rest.push((s.len() - 1) as usize)
        }
    }
}

/// Marks only grew from `a` to `b`.
pub open spec fn marks_grow(a: Seq<bool>, b: Seq<bool>) -> bool {
    &&& a.len() == b.len()
    &&& forall|i: int| 0 <= i < a.len() && #[trigger] a[i] ==> b[i]
}

proof fn lemma_count_monotone(a: Seq<bool>, b: Seq<bool>)
    requires
        marks_grow(a, b),
    ensures
        count_unmarked(b) <= count_unmarked(a),
    decreases a.len(),
{
    if a.len() > 0 {
        assert(marks_grow(a.drop_last(), b.drop_last())) by {
            assert forall|i: int| 0 <= i < a.len() - 1 && #[trigger] a.drop_last()[i] implies b.drop_last()[i] by {
                assert(a[i]);
            }
        }
        lemma_count_monotone(a.drop_last(), b.drop_last());
    }
}

proof fn lemma_count_set(a: Seq<bool>, i: int)
    requires
        0 <= i < a.len(),
        !a[i],
    ensures
        count_unmarked(a.update(i, true)) + 1 == count_unmarked(a),
    decreases a.len(),
{
    let b = a.update(i, true);
    if i == a.len() - 1 {
        assert(b.drop_last() =~= a.drop_last());
    } else {
        assert(b.drop_last() =~= a.drop_last().update(i, true));
        lemma_count_set(a.drop_last(), i);
    }
}

proof fn lemma_refs_of_bounds(vals: Seq<Value>, k: int)
    requires
        0 <= k < refs_of(vals).len(),
    ensures
        exists|j: int| 0 <= j < vals.len() && value_ref(#[trigger] vals[j]) == Some(refs_of(vals)[k]),
    decreases vals.len(),
{
    let rest = refs_of(vals.drop_last());
    if k < rest.len() {
        lemma_refs_of_bounds(vals.drop_last(), k);
        let j = choose|j: int| 0 <= j < vals.drop_last().len() && value_ref(#[trigger] vals.drop_last()[j]) == Some(rest[k]);
        assert(vals[j] == vals.drop_last()[j]);
    } else {
        assert(value_ref(vals[vals.len() - 1]) == Some(refs_of(vals)[k]));
    }
}

/// Default GC threshold: a collection is due above this many live objects.
pub const DEFAULT_GC_THRESHOLD: usize = 256;

/// Allocation and storage of all heap objects.
///
/// Objects are stored in a flat vector; a `Gc<T>` is an index into it. Dead
/// slots are tracked in `free_slots` for reuse; the collector never removes
/// an object, so indices stay stable.
#[derive(Debug, Clone)]
pub struct Heap {
    objects: Vec<HeapObject>,
    /// Per-object liveness marks for the mark-sweep collector.
    marked: Vec<bool>,
    /// Indices of slots that have been freed and may be reused.
    free_slots: Vec<usize>,
    /// A collection is due when the live object count exceeds this.
    gc_threshold: usize,
}

impl Heap {
    /// The stored objects, live or dead, by slot.
    pub closed spec fn objects(&self) -> Seq<HeapObject> {
        self.objects@
    }

    /// The collector's marks, by slot.
    pub closed spec fn marks(&self) -> Seq<bool> {
        self.marked@
    }

    /// The free slots, in the order they are kept (the last is reused first).
    pub closed spec fn free(&self) -> Seq<usize> {
        self.free_slots@
    }

    pub closed spec fn threshold(&self) -> usize {
        self.gc_threshold
    }

    /// Well-formedness: one mark per slot, free slots in range and distinct.
    pub closed spec fn wf(&self) -> bool {
        &&& self.marked@.len() == self.objects@.len()
        &&& forall|i: int| 0 <= i < self.free_slots@.len() ==> #[trigger] self.free_slots@[i] < self.objects@.len()
        &&& forall|i: int, j: int|
            0 <= i < j < self.free_slots@.len() ==> #[trigger] self.free_slots@[i] != #[trigger] self.free_slots@[j]
    }

    /// The live object count as the heap reports it.
    pub open spec fn spec_len(&self) -> nat {
        if self.free().len() <= self.objects().len() {
            (self.objects().len() - self.free().len()) as nat
        } else {
            0
        }
    }

    pub fn new() -> (h: Self)
        ensures
            h.wf(),
            h.objects() == Seq::<HeapObject>::empty(),
            h.marks() == Seq::<bool>::empty(),
            h.free() == Seq::<usize>::empty(),
            h.threshold() == DEFAULT_GC_THRESHOLD,
    {
        Heap {
            objects: Vec::new(),
            marked: Vec::new(),
            free_slots: Vec::new(),
            gc_threshold: DEFAULT_GC_THRESHOLD,
        }
    }

    /// Number of live objects (total slots minus free slots).
    pub fn len(&self) -> (n: usize)
        ensures
            n == self.spec_len(),
    {
        self.objects.len().saturating_sub(self.free_slots.len())
    }

    /// Total number of slots, free ones included.
    pub fn capacity(&self) -> (n: usize)
        ensures
            n == self.objects().len(),
    {
        self.objects.len()
    }

    pub fn is_empty(&self) -> (b: bool)
        ensures
            b == (self.spec_len() == 0),
    {
        self.len() == 0
    }

    /// Store an object, reusing the most recently freed slot if there is one.
    fn alloc_object(&mut self, obj: HeapObject) -> (idx: usize)
        requires
            old(self).wf(),
        ensures
            final(self).wf(),
            old(self).free().len() > 0 ==> {
                &&& idx == old(self).free().last()
                &&& final(self).objects() == old(self).objects().update(idx as int, obj)
                &&& final(self).free() == old(self).free().drop_last()
            },
            old(self).free().len() == 0 ==> {
                &&& idx == old(self).objects().len()
                &&& final(self).objects() == old(self).objects().push(obj)
                &&& final(self).free() == old(self).free()
            },
            final(self).marks() == if old(self).free().len() > 0 {
                old(self).marks().update(idx as int, false)
            } else {
                old(self).marks().push(false)
            },
            final(self).threshold() == old(self).threshold(),
    {
        if let Some(idx) = self.free_slots.pop() {
            assert(idx == old(self).free_slots@.last());
            self.objects.set(idx, obj);
            self.marked.set(idx, false);
            idx
        } else {
            let idx = self.objects.len();
            self.objects.push(obj);
            self.marked.push(false);
            assert forall|i: int| 0 <= i < self.free_slots@.len() implies #[trigger] self.free_slots@[i]
                < self.objects@.len() by {
                assert(old(self).free_slots@[i] < old(self).objects@.len());
            }
            idx
        }
    }

    /// Allocate a string, reusing a free slot when one is available.
    pub fn alloc_string(&mut self, data: String) -> (gc: Gc<StringObj>)
        requires
            old(self).wf(),
        ensures
            final(self).wf(),
            old(self).free().len() > 0 ==> {
                &&& gc.index == old(self).free().last()
                &&& final(self).free() == old(self).free().drop_last()
                &&& final(self).objects() == old(self).objects().update(
                    gc.index as int,
                    HeapObject::String(StringObj { data }),
                )
            },
            old(self).free().len() == 0 ==> {
                &&& gc.index == old(self).objects().len()
                &&& final(self).free() == old(self).free()
                &&& final(self).objects() == old(self).objects().push(HeapObject::String(StringObj { data }))
            },
            final(self).marks() == if old(self).free().len() > 0 {
                old(self).marks().update(gc.index as int, false)
            } else {
                old(self).marks().push(false)
            },
            final(self).threshold() == old(self).threshold(),
    {
        let idx = self.alloc_object(HeapObject::String(StringObj { data }));
        Gc::new(idx)
    }

    /// Allocate a list, reusing a free slot when one is available.
    pub fn alloc_list(&mut self, elements: Vec<Value>) -> (gc: Gc<ListObj>)
        requires
            old(self).wf(),
        ensures
            final(self).wf(),
            old(self).free().len() > 0 ==> {
                &&& gc.index == old(self).free().last()
                &&& final(self).free() == old(self).free().drop_last()
                &&& final(self).objects() == old(self).objects().update(
                    gc.index as int,
                    HeapObject::List(ListObj { elements }),
                )
            },
            old(self).free().len() == 0 ==> {
                &&& gc.index == old(self).objects().len()
                &&& final(self).free() == old(self).free()
                &&& final(self).objects() == old(self).objects().push(HeapObject::List(ListObj { elements }))
            },
            final(self).marks() == if old(self).free().len() > 0 {
                old(self).marks().update(gc.index as int, false)
            } else {
                old(self).marks().push(false)
            },
            final(self).threshold() == old(self).threshold(),
    {
        let idx = self.alloc_object(HeapObject::List(ListObj { elements }));
        Gc::new(idx)
    }
}

impl Heap {
    /// The object stored at slot `i` is of type `T`.
    pub open spec fn holds<T: HeapAccess>(&self, i: int, x: T) -> bool {
        0 <= i < self.objects().len() && T::project(self.objects()[i]) == Some(x)
    }

    /// Whether slot `idx` is on the free list.
    pub fn is_free(&self, idx: usize) -> (b: bool)
        ensures
            b == self.free().contains(idx),
    {
        let mut k: usize = 0;
        while k < self.free_slots.len()
            invariant
                k <= self.free_slots@.len(),
                forall|q: int| 0 <= q < k ==> self.free_slots@[q] != idx,
            decreases self.free_slots@.len() - k,
        {
            if self.free_slots[k] == idx {
                assert(self.free_slots@[k as int] == idx);
                return true;
            }
            k = k + 1;
        }
        false
    }

    /// Borrow a heap object by typed handle; a freed slot holds none.
    pub fn get<T: HeapAccess>(&self, gc: Gc<T>) -> (r: Option<&T>)
        ensures
            match r {
                Some(x) => self.holds(gc.index as int, *x) && !self.free().contains(gc.index),
                None => gc.index >= self.objects().len() || self.free().contains(gc.index) || T::project(
                    self.objects()[gc.index as int],
                ) is None,
            },
    {
        if gc.index < self.objects.len() && !self.is_free(gc.index) {
            T::from_heap(&self.objects[gc.index])
        } else {
            None
        }
    }

    /// Mutably borrow a heap object by typed handle; a freed slot holds none.
    pub fn get_mut<T: HeapAccess>(&mut self, gc: Gc<T>) -> (r: Option<&mut T>)
        requires
            old(self).wf(),
        ensures
            final(self).wf(),
            final(self).marks() == old(self).marks(),
            final(self).free() == old(self).free(),
            final(self).threshold() == old(self).threshold(),
            match r {
                Some(x) => old(self).holds(gc.index as int, *x) && !old(self).free().contains(gc.index)
                    && final(self).objects() == old(self).objects().update(gc.index as int, T::inject(*final(x))),
                None => (gc.index >= old(self).objects().len() || old(self).free().contains(gc.index) || T::project(
                    old(self).objects()[gc.index as int],
                ) is None) && final(self).objects() == old(self).objects(),
            },
    {
        if gc.index < self.objects.len() && !self.is_free(gc.index) {
            T::from_heap_mut(&mut self.objects[gc.index])
        } else {
            None
        }
    }

    /// True when the live object count exceeds the collection threshold.
    pub fn should_gc(&self) -> (b: bool)
        ensures
            b == (self.spec_len() > self.threshold()),
    {
        self.len() > self.gc_threshold
    }

    /// Whether slot `idx` is currently marked.
    pub(crate) fn is_marked(&self, idx: usize) -> (b: bool)
        ensures
            b == (idx < self.marks().len() && self.marks()[idx as int]),
    {
        if idx < self.marked.len() {
            self.marked[idx]
        } else {
            false
        }
    }

    /// The object at slot `idx`, live or dead.
    pub(crate) fn get_object(&self, idx: usize) -> (r: Option<&HeapObject>)
        ensures
            match r {
                Some(o) => idx < self.objects().len() && *o == self.objects()[idx as int],
                None => idx >= self.objects().len(),
            },
    {
        if idx < self.objects.len() {
            Some(&self.objects[idx])
        } else {
            None
        }
    }

    /// Every in-range child of slot `j` is marked.
    pub open spec fn children_marked(objs: Seq<HeapObject>, marks: Seq<bool>, j: int) -> bool {
        forall|k: int|
            0 <= k < children(objs[j]).len() && #[trigger] children(objs[j])[k] < marks.len()
                ==> marks[children(objs[j])[k] as int]
    }

    /// Mark slot `idx` as reachable, then everything it refers to.
    ///
    /// Slots already marked, and indices out of range, are left alone.
    pub(crate) fn mark(&mut self, idx: usize)
        requires
            old(self).wf(),
        ensures
            final(self).wf(),
            final(self).objects() == old(self).objects(),
            final(self).free() == old(self).free(),
            final(self).threshold() == old(self).threshold(),
            marks_grow(old(self).marks(), final(self).marks()),
            idx < old(self).objects().len() ==> final(self).marks()[idx as int],
            forall|j: int|
                0 <= j < old(self).marks().len() && !old(self).marks()[j] && #[trigger] final(self).marks()[j]
                    ==> Self::children_marked(final(self).objects(), final(self).marks(), j)
                    && reaches(old(self).objects(), idx, j as usize),
        decreases count_unmarked(old(self).marks()),
    {
        if idx >= self.marked.len() || self.marked[idx] {
            return;
        }
        let ghost m0 = self.marked@;
        proof {
            lemma_count_set(m0, idx as int);
        }
        self.marked.set(idx, true);
        let children_vec = self.child_slots(idx);
        let ghost objs = self.objects@;
        let ghost m1 = self.marked@;
        assert(is_path(objs, seq![idx])) by {
            assert(seq![idx][0] == idx);
        }
        let mut k: usize = 0;
        while k < children_vec.len()
            invariant
                self.wf(),
                self.objects@ == objs,
                self.free_slots@ == old(self).free_slots@,
                self.gc_threshold == old(self).gc_threshold,
                idx < objs.len(),
                m0 == old(self).marked@,
                children_vec@ == children(objs[idx as int]),
                k <= children_vec.len(),
                marks_grow(m0, self.marked@),
                self.marked@[idx as int],
                count_unmarked(self.marked@) < count_unmarked(m0),
                forall|q: int|
                    0 <= q < k && #[trigger] children_vec@[q] < self.marked@.len() ==> self.marked@[children_vec@[q] as int],
                forall|j: int|
                    0 <= j < m0.len() && j != idx && !m0[j] && #[trigger] self.marked@[j]
                        ==> Self::children_marked(objs, self.marked@, j) && reaches(objs, idx, j as usize),
            decreases children_vec.len() - k,
        {
            let c = children_vec[k];
            let ghost before = self.marked@;
            self.mark(c);
            proof {
                lemma_count_monotone(before, self.marked@);
                assert forall|j: int|
                    0 <= j < m0.len() && j != idx && !m0[j] && #[trigger] self.marked@[j]
                        implies Self::children_marked(objs, self.marked@, j) && reaches(objs, idx, j as usize) by {
                    if before[j] {
                        assert forall|kk: int|
                            0 <= kk < children(objs[j]).len() && #[trigger] children(objs[j])[kk] < self.marked@.len()
                                implies self.marked@[children(objs[j])[kk] as int] by {
                            assert(before[children(objs[j])[kk] as int]);
                        }
                    } else {
                        let p = choose|p: Seq<usize>| #[trigger] is_path(objs, p) && p[0] == c && p.last() == j as usize;
                        let p2 = seq![idx] + p;
                        assert(children(objs[idx as int]).contains(c)) by {
                            assert(children_vec@[k as int] == c);
                        }
                        assert(is_path(objs, p2)) by {
                            assert forall|i: int| 0 <= i < p2.len() implies #[trigger] p2[i] < objs.len() by {
                                if i > 0 {
                                    assert(p2[i] == p[i - 1]);
                                }
                            }
                            assert forall|i: int| 0 <= i < p2.len() - 1 implies children(
                                objs[#[trigger] p2[i] as int],
                            ).contains(p2[i + 1]) by {
                                if i > 0 {
                                    assert(p2[i] == p[i - 1]);
                                    assert(p2[i + 1] == p[i]);
                                }
                            }
                        }
                        assert(p2[0] == idx && p2.last() == j as usize);
                    }
                }
                assert forall|q: int|
                    0 <= q < k + 1 && #[trigger] children_vec@[q] < self.marked@.len() implies self.marked@[children_vec@[q] as int] by {
                    if q < k {
                        assert(before[children_vec@[q] as int]);
                    }
                }
            }
            k = k + 1;
        }
        proof {
            assert forall|kk: int|
                0 <= kk < children(objs[idx as int]).len() && #[trigger] children(objs[idx as int])[kk] < self.marked@.len()
                    implies self.marked@[children(objs[idx as int])[kk] as int] by {
                assert(children_vec@[kk] == children(objs[idx as int])[kk]);
            }
        }
    }

    /// The heap slots the object at `idx` refers to, in element order.
    fn child_slots(&self, idx: usize) -> (r: Vec<usize>)
        requires
            idx < self.objects().len(),
        ensures
            r@ == children(self.objects()[idx as int]),
    {
        match &self.objects[idx] {
            HeapObject::List(list) => {
                let mut out: Vec<usize> = Vec::new();
                let mut i: usize = 0;
                while i < list.elements.len()
                    invariant
                        i <= list.elements.len(),
                        out@ == refs_of(list.elements@.take(i as int)),
                    decreases list.elements.len() - i,
                {
                    assert(list.elements@.take(i + 1).drop_last() =~= list.elements@.take(i as int));
                    match &list.elements[i] {
                        Value::String(gc) => out.push(gc.index),
                        Value::List(gc) => out.push(gc.index),
                        _ => {},
                    }
                    i = i + 1;
                }
                assert(list.elements@.take(i as int) =~= list.elements@);
                out
            },
            HeapObject::String(_) => Vec::new(),
        }
    }

    /// Mark the object a root value refers to, if it is a heap reference.
    pub(crate) fn mark_value(&mut self, val: &Value)
        requires
            old(self).wf(),
        ensures
            final(self).wf(),
            final(self).objects() == old(self).objects(),
            final(self).free() == old(self).free(),
            final(self).threshold() == old(self).threshold(),
            marks_grow(old(self).marks(), final(self).marks()),
            forall|i: usize| value_ref(*val) == Some(i) && i < old(self).objects().len() ==> final(self).marks()[i as int],
            forall|j: int|
                0 <= j < old(self).marks().len() && !old(self).marks()[j] && #[trigger] final(self).marks()[j]
                    ==> Self::children_marked(final(self).objects(), final(self).marks(), j)
                    && exists|i: usize| value_ref(*val) == Some(i) && reaches(old(self).objects(), i, j as usize),
    {
        match val {
            Value::String(gc) => self.mark(gc.index),
            Value::List(gc) => self.mark(gc.index),
            _ => {},
        }
    }

    /// Sweep: every unmarked slot becomes free (in increasing order) and all
    /// marks are cleared for the next cycle.
    fn sweep(&mut self)
        requires
            old(self).wf(),
        ensures
            final(self).wf(),
            final(self).objects() == old(self).objects(),
            final(self).threshold() == old(self).threshold(),
            final(self).free() == unmarked_indices(old(self).marks()),
            final(self).marks() == Seq::new(old(self).marks().len(), |i: int| false),
    {
        self.free_slots.clear();
        let n = self.marked.len();
        let ghost m0 = self.marked@;
        let mut i: usize = 0;
        while i < n
            invariant
                n == self.marked@.len(),
                n == self.objects@.len(),
                self.objects@ == old(self).objects@,
                self.gc_threshold == old(self).gc_threshold,
                m0 == old(self).marked@,
                m0.len() == n,
                i <= n,
                forall|k: int| i <= k < n ==> self.marked@[k] == m0[k],
                forall|k: int| 0 <= k < i ==> !self.marked@[k],
                self.free_slots@ == unmarked_indices(m0.take(i as int)),
                forall|k: int| 0 <= k < self.free_slots@.len() ==> #[trigger] self.free_slots@[k] < i,
                forall|a: int, b: int|
                    0 <= a < b < self.free_slots@.len() ==> #[trigger] self.free_slots@[a] < #[trigger] self.free_slots@[b],
            decreases n - i,
        {
            assert(m0.take(i + 1).drop_last() =~= m0.take(i as int));
            if self.marked[i] {
                self.marked.set(i, false);
            } else {
                self.free_slots.push(i);
            }
            i = i + 1;
        }
        assert(m0.take(n as int) =~= m0);
        assert(self.marked@ =~= Seq::new(m0.len(), |i: int| false));
    }

    /// Finish a collection whose mark phase is done: free every unmarked slot.
    pub fn collect_garbage_after_mark(&mut self)
        requires
            old(self).wf(),
        ensures
            final(self).wf(),
            final(self).objects() == old(self).objects(),
            final(self).threshold() == old(self).threshold(),
            final(self).free() == unmarked_indices(old(self).marks()),
            final(self).marks() == Seq::new(old(self).marks().len(), |i: int| false),
    {
        self.sweep();
    }

    /// Clear all marks before a new mark phase.
    pub(crate) fn reset_marks(&mut self)
        requires
            old(self).wf(),
        ensures
            final(self).wf(),
            final(self).objects() == old(self).objects(),
            final(self).free() == old(self).free(),
            final(self).threshold() == old(self).threshold(),
            final(self).marks() == Seq::new(old(self).marks().len(), |i: int| false),
    {
        let n = self.marked.len();
        let mut i: usize = 0;
        while i < n
            invariant
                n == self.marked@.len(),
                n == self.objects@.len(),
                self.objects@ == old(self).objects@,
                self.free_slots@ == old(self).free_slots@,
                self.gc_threshold == old(self).gc_threshold,
                i <= n,
                forall|k: int| 0 <= k < i ==> !self.marked@[k],
            decreases n - i,
        {
            self.marked.set(i, false);
            i = i + 1;
        }
        assert(self.marked@ =~= Seq::new(n as nat, |i: int| false));
    }
}

/// Implemented by the types that can be projected out of a `HeapObject`.
pub trait HeapAccess: Sized {
    /// The object viewed as `Self`, if it is one.
    spec fn project(obj: HeapObject) -> Option<Self>;

    /// The object that holds `x`.
    spec fn inject(x: Self) -> HeapObject;

    fn from_heap(obj: &HeapObject) -> (r: Option<&Self>)
        ensures
            match r {
                Some(x) => Self::project(*obj) == Some(*x),
                None => Self::project(*obj) is None,
            },
    ;

    fn from_heap_mut(obj: &mut HeapObject) -> (r: Option<&mut Self>)
        ensures
            match r {
                Some(x) => Self::project(*old(obj)) == Some(*x) && *final(obj) == Self::inject(*final(x)),
                None => Self::project(*old(obj)) is None && *final(obj) == *old(obj),
            },
    ;
}

impl HeapAccess for StringObj {
    open spec fn project(obj: HeapObject) -> Option<Self> {
        match obj {
            HeapObject::String(s) => Some(s),
            HeapObject::List(_) => None,
        }
    }

    open spec fn inject(x: Self) -> HeapObject {
        HeapObject::String(x)
    }

    fn from_heap(obj: &HeapObject) -> (r: Option<&Self>) {
        match obj {
            HeapObject::String(s) => Some(s),
            HeapObject::List(_) => None,
        }
    }

    fn from_heap_mut(obj: &mut HeapObject) -> (r: Option<&mut Self>) {
        match obj {
            HeapObject::String(s) => Some(s),
            HeapObject::List(_) => None,
        }
    }
}

impl HeapAccess for ListObj {
    open spec fn project(obj: HeapObject) -> Option<Self> {
        match obj {
            HeapObject::List(l) => Some(l),
            HeapObject::String(_) => None,
        }
    }

    open spec fn inject(x: Self) -> HeapObject {
        HeapObject::List(x)
    }

    fn from_heap(obj: &HeapObject) -> (r: Option<&Self>) {
        match obj {
            HeapObject::List(l) => Some(l),
            HeapObject::String(_) => None,
        }
    }

    fn from_heap_mut(obj: &mut HeapObject) -> (r: Option<&mut Self>) {
        match obj {
            HeapObject::List(l) => Some(l),
            HeapObject::String(_) => None,
        }
    }
}

impl Heap {
    /// The free list holds distinct slots, all in range.
    /// The live object count is the number of slots less the number of free
    /// slots: no slot is free twice, and every free slot is a slot.
    pub proof fn law_live_count(&self)
        requires
            self.wf(),
        ensures
            self.free().len() <= self.objects().len(),
            self.spec_len() + self.free().len() == self.objects().len(),
    {
        self.lemma_free_distinct();
        let n = self.objects().len() as int;
        let t = self.free().map_values(|x: usize| x as int);
        assert(t.no_duplicates()) by {
            assert forall|i: int, j: int| 0 <= i < t.len() && 0 <= j < t.len() && i != j implies t[i] != t[j] by {
                if i < j {
                    assert(self.free()[i] != self.free()[j]);
                } else {
                    assert(self.free()[j] != self.free()[i]);
                }
            }
        }
        t.unique_seq_to_set();
        vstd::set_lib::lemma_int_range(0, n);
        assert(t.to_set().subset_of(vstd::set_lib::set_int_range(0, n))) by {
            assert forall|x: int| t.to_set().contains(x) implies vstd::set_lib::set_int_range(0, n).contains(x) by {
                let i = choose|i: int| 0 <= i < t.len() && t[i] == x;
                assert(self.free()[i] < n);
            }
        }
        vstd::set_lib::lemma_len_subset(t.to_set(), vstd::set_lib::set_int_range(0, n));
    }

    pub proof fn lemma_free_distinct(&self)
        requires
            self.wf(),
        ensures
            self.marks().len() == self.objects().len(),
            self.objects().len() <= usize::MAX,
            forall|i: int| 0 <= i < self.free().len() ==> #[trigger] self.free()[i] < self.objects().len(),
            forall|i: int, j: int| 0 <= i < j < self.free().len() ==> #[trigger] self.free()[i] != #[trigger] self.free()[j],
    {
        assert(self.objects@.len() == self.objects.len());
    }
}

} // verus!

verus! {

/// A slot is listed by `unmarked_indices` exactly when it is unmarked.
pub proof fn lemma_unmarked_indices_contains(s: Seq<bool>, i: int)
    requires
        s.len() <= usize::MAX + 1,
    ensures
        unmarked_indices(s).contains(i as usize) && 0 <= i <= usize::MAX <==> 0 <= i < s.len() && !s[i],
    decreases s.len(),
{
    if s.len() > 0 {
        lemma_unmarked_indices_contains(s.drop_last(), i);
        let rest = unmarked_indices(s.drop_last());
        if !s.last() {
            let full = rest.push((s.len() - 1) as usize);
            if full.contains(i as usize) && 0 <= i <= usize::MAX {
                let k = choose|k: int| 0 <= k < full.len() && #[trigger] full[k] == i as usize;
                if k < rest.len() {
                    assert(rest[k] == full[k]);
                    assert(rest.contains(i as usize));
                }
            }
            if 0 <= i < s.len() && !s[i] {
                if i == s.len() - 1 {
                    assert(rest.push((s.len() - 1) as usize)[rest.len() as int] == i as usize);
                } else {
                    assert(s.drop_last()[i] == s[i]);
                    let k = choose|k: int| 0 <= k < rest.len() && #[trigger] rest[k] == i as usize;
                    assert(rest.push((s.len() - 1) as usize)[k] == i as usize);
                }
            }
        } else {
            if 0 <= i < s.len() - 1 {
                assert(s.drop_last()[i] == s[i]);
            }
        }
    }
}

/// Marks that grow keep every child of a slot marked.
pub proof fn lemma_children_marked_grow(objs: Seq<HeapObject>, a: Seq<bool>, b: Seq<bool>, j: int)
    requires
        Heap::children_marked(objs, a, j),
        marks_grow(a, b),
    ensures
        Heap::children_marked(objs, b, j),
{
    assert forall|k: int|
        0 <= k < children(objs[j]).len() && #[trigger] children(objs[j])[k] < b.len() implies b[children(
            objs[j],
        )[k] as int] by {
        assert(a[children(objs[j])[k] as int]);
    }
}

/// In marks closed under children, the end of a path from a marked slot is marked.
pub proof fn lemma_path_marked(objs: Seq<HeapObject>, marks: Seq<bool>, p: Seq<usize>)
    requires
        is_path(objs, p),
        marks.len() == objs.len(),
        marks[p[0] as int],
        forall|j: int| 0 <= j < marks.len() && #[trigger] marks[j] ==> Heap::children_marked(objs, marks, j),
    ensures
        marks[p.last() as int],
    decreases p.len(),
{
    if p.len() > 1 {
        let q = p.drop_last();
        assert(is_path(objs, q)) by {
            assert forall|i: int| 0 <= i < q.len() implies #[trigger] q[i] < objs.len() by {
                assert(q[i] == p[i]);
            }
            assert forall|i: int| 0 <= i < q.len() - 1 implies children(objs[#[trigger] q[i] as int]).contains(
                q[i + 1],
            ) by {
                assert(q[i] == p[i]);
                assert(q[i + 1] == p[i + 1]);
            }
        }
        assert(q[0] == p[0]);
        lemma_path_marked(objs, marks, q);
        let j = q.last() as int;
        assert(j == p[p.len() - 2]);
        assert(children(objs[p[p.len() - 2] as int]).contains(p[p.len() - 1]));
        let k = choose|k: int| 0 <= k < children(objs[j]).len() && #[trigger] children(objs[j])[k] == p.last();
        assert(p.last() < objs.len());
        assert(Heap::children_marked(objs, marks, j));
    }
}

} // verus!

verus! {

/// The slot an element refers to is among the slots of the sequence.
pub proof fn lemma_ref_in_refs_of(vals: Seq<Value>, k: int, c: usize)
    requires
        0 <= k < vals.len(),
        value_ref(vals[k]) == Some(c),
    ensures
        refs_of(vals).contains(c),
    decreases vals.len(),
{
    if k < vals.len() - 1 {
        lemma_ref_in_refs_of(vals.drop_last(), k, c);
        let rest = refs_of(vals.drop_last());
        let i = choose|i: int| 0 <= i < rest.len() && rest[i] == c;
        match value_ref(vals.last()) {
            Some(x) => assert(rest.push(x)[i] == c),
            None => {},
        }
    } else {
        let rest = refs_of(vals.drop_last());
        assert(rest.push(c)[rest.len() as int] == c);
    }
}

/// A slot reachable from `from` reaches every in-range child of its own.
pub proof fn lemma_reach_child(objs: Seq<HeapObject>, from: usize, j: usize, c: usize)
    requires
        reaches(objs, from, j),
        children(objs[j as int]).contains(c),
        c < objs.len(),
    ensures
        reaches(objs, from, c),
{
    let p = choose|p: Seq<usize>| #[trigger] is_path(objs, p) && p[0] == from && p.last() == j;
    let q = p.push(c);
    assert(is_path(objs, q)) by {
        assert forall|i: int| 0 <= i < q.len() implies #[trigger] q[i] < objs.len() by {
            if i < p.len() {
                assert(q[i] == p[i]);
            }
        }
        assert forall|i: int| 0 <= i < q.len() - 1 implies children(objs[#[trigger] q[i] as int]).contains(q[i + 1]) by {
            assert(q[i] == p[i]);
            if i < p.len() - 1 {
                assert(q[i + 1] == p[i + 1]);
            } else {
                assert(q[i + 1] == c);
            }
        }
    }
    assert(q[0] == from && q.last() == c);
}

/// A slot in range reaches itself.
pub proof fn lemma_reach_self(objs: Seq<HeapObject>, r: usize)
    requires
        r < objs.len(),
    ensures
        reaches(objs, r, r),
{
    let p = seq![r];
    assert(is_path(objs, p));
    assert(p[0] == r && p.last() == r);
}

} // verus!
