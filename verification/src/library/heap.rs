//! The managed heap: every compound value lives here, found again
//! through an index, and a mark-and-sweep collector reclaims what the
//! roots no longer reach.
//!
//! The collector's contract is exact: after a cycle every mark bit is
//! clear, every surviving object is the object that was there before,
//! every root keeps its object, and everything freed was unreachable
//! from the roots ([`reachable`]).

use crate::library::number::Rational;
use crate::types::constants::{
    GC_HISTORY_BUFFER_SIZE, HEAP_SCORE_ARRAY_BASE, HEAP_SCORE_ARRAY_PER_ELEMENT,
    HEAP_SCORE_MAP_BASE, HEAP_SCORE_MAP_PER_ELEMENT, HEAP_SCORE_OTHER_OBJECT,
    HEAP_SCORE_STRING_BASE,
};
use vstd::prelude::*;

verus! {

/// A runtime value: numbers and booleans by value, compound values as
/// heap references, functions and modules by table index.
#[derive(Debug, Clone, Copy, PartialEq, Eq, Structural)]
pub enum Value {
    Nil,
    Bool(bool),
    Number(Rational),
    Str(usize),
    Array(usize),
    MapRef(usize),
    EnumInstance(usize),
    Function(usize),
    Module(usize),
    Builtin { module: usize, member: usize },
}

/// A heap object: an array, a string, an ordered map, or an enum
/// instance with its tag and payload.
#[derive(Debug, Clone, PartialEq)]
pub enum HeapObject {
    Arr(Vec<Value>),
    Text(String),
    MapObj(Vec<(String, Value)>),
    EnumInst { tag: String, payload: Vec<(String, Value)> },
}

/// The heap reference a value carries, if any.
pub open spec fn val_ref(v: Value) -> Option<int> {
    match v {
        Value::Str(r) => Some(r as int),
        Value::Array(r) => Some(r as int),
        Value::MapRef(r) => Some(r as int),
        Value::EnumInstance(r) => Some(r as int),
        _ => None,
    }
}

/// The value's reference, if any, is allocated on the heap.
pub open spec fn val_ok(v: Value, h: Seq<Option<HeapObject>>) -> bool {
    match val_ref(v) {
        Some(r) => 0 <= r < h.len() && h[r] is Some,
        None => true,
    }
}

/// The object holds a reference to heap slot `r`.
pub open spec fn obj_has_ref(o: HeapObject, r: int) -> bool {
    match o {
        HeapObject::Arr(vs) => exists|i: int|
            0 <= i < vs@.len() && val_ref(#[trigger] vs@[i]) == Some(r),
        HeapObject::Text(s) => false,
        HeapObject::MapObj(ps) => exists|i: int|
            0 <= i < ps@.len() && val_ref((#[trigger] ps@[i]).1) == Some(r),
        HeapObject::EnumInst { tag, payload } => exists|i: int|
            0 <= i < payload@.len() && val_ref((#[trigger] payload@[i]).1) == Some(r),
    }
}

/// Every reference the object holds is allocated.
pub open spec fn obj_ok(o: HeapObject, h: Seq<Option<HeapObject>>) -> bool {
    forall|r: int| #[trigger] obj_has_ref(o, r) ==> 0 <= r < h.len() && h[r] is Some
}

/// The heap is closed: no allocated object dangles.
pub open spec fn heap_closed(h: Seq<Option<HeapObject>>) -> bool {
    forall|id: int|
        0 <= id < h.len() && (#[trigger] h[id]) is Some ==> obj_ok(h[id]->0, h)
}

/// The element list of the array object in a slot, when it holds one.
pub open spec fn arr_at(h: Seq<Option<HeapObject>>, id: int) -> Option<Seq<Value>> {
    if 0 <= id < h.len() {
        match h[id] {
            Some(HeapObject::Arr(vs)) => Some(vs@),
            _ => None,
        }
    } else {
        None
    }
}

/// The entry list of the map object in a slot, when it holds one.
pub open spec fn map_at(h: Seq<Option<HeapObject>>, id: int) -> Option<Seq<(String, Value)>> {
    if 0 <= id < h.len() {
        match h[id] {
            Some(HeapObject::MapObj(ps)) => Some(ps@),
            _ => None,
        }
    } else {
        None
    }
}

/// The text of the string object in a slot, when it holds one.
pub open spec fn text_at(h: Seq<Option<HeapObject>>, id: int) -> Option<Seq<char>> {
    if 0 <= id < h.len() {
        match h[id] {
            Some(HeapObject::Text(s)) => Some(s@),
            _ => None,
        }
    } else {
        None
    }
}

/// Some entry of the map carries the key with this value, and no
/// earlier entry carries the key.
pub open spec fn map_found(ps: Seq<(String, Value)>, key: Seq<char>, v: Value) -> bool {
    exists|e: int|
        0 <= e < ps.len() && (#[trigger] ps[e]).0@ == key && ps[e].1 == v && (forall|w: int|
            0 <= w < e ==> (#[trigger] ps[w]).0@ != key)
}

/// The heap slots the given roots refer to.
pub open spec fn root_set(roots: Seq<Value>) -> Set<int> {
    Set::new(|r: int| exists|i: int| 0 <= i < roots.len() && val_ref(#[trigger] roots[i]) == Some(r))
}

/// The slots within `n` steps of the roots.
pub open spec fn reach_n(h: Seq<Option<HeapObject>>, roots: Set<int>, n: nat) -> Set<int>
    decreases n,
{
    if n == 0 {
        roots
    } else {
        let prev = reach_n(h, roots, (n - 1) as nat);
        prev.union(
            Set::new(
                |r: int|
                    exists|id: int|
                        #[trigger] prev.contains(id) && 0 <= id < h.len() && h[id] is Some
                            && obj_has_ref(h[id]->0, r),
            ),
        )
    }
}

/// The slot can be reached from the roots in some number of steps.
pub open spec fn reachable(h: Seq<Option<HeapObject>>, roots: Set<int>, id: int) -> bool {
    exists|n: nat| reach_n(h, roots, n).contains(id)
}

/// How many slots of the prefix are marked.
pub open spec fn count_marked(s: Seq<bool>) -> int
    decreases s.len(),
{
    if s.len() == 0 {
        0
    } else {
        count_marked(s.drop_last()) + if s.last() {
            1int
        } else {
            0int
        }
    }
}

proof fn lemma_count_marked_bounds(s: Seq<bool>)
    ensures
        0 <= count_marked(s) <= s.len(),
    decreases s.len(),
{
    if s.len() > 0 {
        lemma_count_marked_bounds(s.drop_last());
    }
}

proof fn lemma_count_marked_set(s: Seq<bool>, i: int)
    requires
        0 <= i < s.len(),
        !s[i],
    ensures
        count_marked(s.update(i, true)) == count_marked(s) + 1,
    decreases s.len(),
{
    if i == s.len() - 1 {
        assert(s.update(i, true).drop_last() =~= s.drop_last());
    } else {
        assert(s.update(i, true).drop_last() =~= s.drop_last().update(i, true));
        lemma_count_marked_set(s.drop_last(), i);
    }
}

/// A closed marked set that covers the roots covers everything
/// reachable from them.
proof fn lemma_closed_covers_reach(
    h: Seq<Option<HeapObject>>,
    roots: Set<int>,
    m: Set<int>,
    n: nat,
)
    requires
        roots.subset_of(m),
        forall|id: int, r: int|
            #[trigger] m.contains(id) && 0 <= id < h.len() && h[id] is Some && #[trigger]
            obj_has_ref(h[id]->0, r) ==> m.contains(r),
    ensures
        reach_n(h, roots, n).subset_of(m),
    decreases n,
{
    if n > 0 {
        lemma_closed_covers_reach(h, roots, m, (n - 1) as nat);
    }
}

/// The size score one slot contributes: the collector's configured
/// weights, an empty slot scoring nothing.
pub open spec fn slot_score(o: Option<HeapObject>) -> int {
    match o {
        Some(HeapObject::Arr(vs)) => HEAP_SCORE_ARRAY_BASE + HEAP_SCORE_ARRAY_PER_ELEMENT
            * vs@.len(),
        Some(HeapObject::Text(s)) => HEAP_SCORE_STRING_BASE as int,
        Some(HeapObject::MapObj(ps)) => HEAP_SCORE_MAP_BASE + HEAP_SCORE_MAP_PER_ELEMENT
            * ps@.len(),
        Some(HeapObject::EnumInst { tag, payload }) => HEAP_SCORE_OTHER_OBJECT as int,
        None => 0,
    }
}

/// Clamp a score at the machine's limit.
pub open spec fn clamp_score(x: int) -> int {
    if x > usize::MAX as int {
        usize::MAX as int
    } else {
        x
    }
}

/// The saturating sum of the first `i` slots' scores.
pub open spec fn heap_score(h: Seq<Option<HeapObject>>, i: int) -> int
    decreases i,
{
    if i <= 0 {
        0
    } else {
        clamp_score(heap_score(h, i - 1) + clamp_score(slot_score(h[i - 1])))
    }
}

/// A root slot is reachable in zero steps.
proof fn lemma_root_reachable(h: Seq<Option<HeapObject>>, roots: Set<int>, r: int)
    requires
        roots.contains(r),
    ensures
        reachable(h, roots, r),
{
    assert(reach_n(h, roots, 0).contains(r));
}

/// A reference held by a reachable object is itself reachable.
proof fn lemma_reachable_step(h: Seq<Option<HeapObject>>, roots: Set<int>, id: int, r: int)
    requires
        reachable(h, roots, id),
        0 <= id < h.len(),
        h[id] is Some,
        obj_has_ref(h[id]->0, r),
    ensures
        reachable(h, roots, r),
{
    let n = choose|n: nat| reach_n(h, roots, n).contains(id);
    assert(reach_n(h, roots, n + 1).contains(r)) by {
        assert(reach_n(h, roots, n).contains(id));
    }
}

/// The heap.  Allocation keeps a count toward the next collection
/// check and a sliding history of post-collection live scores.
pub struct Heap {
    objects: Vec<Option<HeapObject>>,
    marks: Vec<bool>,
    alloc_count: usize,
    threshold: usize,
    history: Vec<usize>,
}

impl Heap {
    /// Marks run beside the slots and are clear outside a collection,
    /// and no allocated object dangles.
    pub closed spec fn wf(self) -> bool {
        &&& self.marks@.len() == self.objects@.len()
        &&& forall|i: int| 0 <= i < self.marks@.len() ==> !(#[trigger] self.marks@[i])
        &&& heap_closed(self.objects@)
    }

    /// The slots of the heap.
    pub closed spec fn view_objects(self) -> Seq<Option<HeapObject>> {
        self.objects@
    }

    /// An empty heap.
    pub fn new() -> (h: Heap)
        ensures
            h.wf(),
            h.view_objects().len() == 0,
    {
        Heap {
            objects: Vec::new(),
            marks: Vec::new(),
            alloc_count: 0,
            threshold: crate::types::constants::GC_THRESHOLD,
            history: Vec::new(),
        }
    }


    /// How many allocations happened since the last collection check.
    pub fn pressure(&self) -> (r: usize)
    {
        self.alloc_count
    }

    /// The current collection threshold.
    pub fn threshold_value(&self) -> (r: usize)
    {
        self.threshold
    }

    /// Restart the allocation count after a collection check.
    pub fn reset_pressure(&mut self)
        requires
            old(self).wf(),
        ensures
            final(self).wf(),
            final(self).view_objects() == old(self).view_objects(),
    {
        self.alloc_count = 0;
    }

    /// How many slots are allocated.
    pub fn live_count(&self) -> (n: usize)
        requires
            self.wf(),
        ensures
            n <= self.view_objects().len(),
    {
        let mut n: usize = 0;
        let mut i: usize = 0;
        while i < self.objects.len()
            invariant
                0 <= i <= self.objects@.len(),
                n <= i,
            decreases self.objects@.len() - i,
        {
            if self.objects[i].is_some() {
                n = n + 1;
            }
            i = i + 1;
        }
        n
    }

    /// The weighted size score of the live set: arrays and maps count
    /// by their length, strings and other objects by a constant, each
    /// addition saturating at the machine's limit.
    #[verifier::loop_isolation(false)]
    pub fn live_score(&self) -> (n: usize)
        requires
            self.wf(),
        ensures
            n == heap_score(self.view_objects(), self.view_objects().len() as int),
    {
        let mut n: usize = 0;
        let mut i: usize = 0;
        while i < self.objects.len()
            invariant
                0 <= i <= self.objects@.len(),
                n == heap_score(self.view_objects(), i as int),
            decreases self.objects@.len() - i,
        {
            let s = match &self.objects[i] {
                Some(HeapObject::Arr(vs)) => {
                    let per = vs.len().checked_mul(HEAP_SCORE_ARRAY_PER_ELEMENT);
                    match per {
                        Some(p) => {
                            match HEAP_SCORE_ARRAY_BASE.checked_add(p) {
                                Some(t) => t,
                                None => usize::MAX,
                            }
                        },
                        None => usize::MAX,
                    }
                },
                Some(HeapObject::Text(_)) => HEAP_SCORE_STRING_BASE,
                Some(HeapObject::MapObj(ps)) => {
                    let per = ps.len().checked_mul(HEAP_SCORE_MAP_PER_ELEMENT);
                    match per {
                        Some(p) => {
                            match HEAP_SCORE_MAP_BASE.checked_add(p) {
                                Some(t) => t,
                                None => usize::MAX,
                            }
                        },
                        None => usize::MAX,
                    }
                },
                Some(HeapObject::EnumInst { .. }) => HEAP_SCORE_OTHER_OBJECT,
                None => 0,
            };
            n = match n.checked_add(s) {
                Some(t) => t,
                None => usize::MAX,
            };
            i = i + 1;
        }
        n
    }

    /// Read one slot.
    pub fn get(&self, id: usize) -> (r: Option<&HeapObject>)
        requires
            self.wf(),
        ensures
            match r {
                Some(o) => id < self.view_objects().len() && self.view_objects()[id as int]
                    == Some(*o),
                None => id >= self.view_objects().len() || self.view_objects()[id as int] is None,
            },
    {
        if id < self.objects.len() {
            match &self.objects[id] {
                Some(o) => Some(o),
                None => None,
            }
        } else {
            None
        }
    }

    /// Allocate one object whose references are all valid; its slot is
    /// handed back.
    pub fn allocate(&mut self, o: HeapObject) -> (id: usize)
        requires
            old(self).wf(),
            obj_ok(o, old(self).view_objects()),
        ensures
            final(self).wf(),
            final(self).view_objects().len() == old(self).view_objects().len() + 1,
            id == old(self).view_objects().len(),
            final(self).view_objects()[id as int] == Some(o),
            forall|i: int|
                0 <= i < old(self).view_objects().len() ==> final(self).view_objects()[i] == old(self).view_objects()[i],
    {
        let id = self.objects.len();
        self.objects.push(Some(o));
        self.marks.push(false);
        if self.alloc_count < usize::MAX {
            self.alloc_count = self.alloc_count + 1;
        }
        proof {
            let h0 = old(self).objects@;
            let h1 = self.objects@;
            assert forall|j: int| 0 <= j < h1.len() && (#[trigger] h1[j]) is Some implies obj_ok(
                h1[j]->0,
                h1,
            ) by {
                assert forall|r: int| #[trigger] obj_has_ref(h1[j]->0, r) implies 0 <= r < h1.len()
                    && h1[r] is Some by {
                    if j < h0.len() {
                        assert(obj_ok(h0[j]->0, h0));
                    }
                }
            }
        }
        id
    }

    /// Replace the object in an allocated slot; its references must be
    /// valid.
    pub fn set(&mut self, id: usize, o: HeapObject)
        requires
            old(self).wf(),
            id < old(self).view_objects().len(),
            old(self).view_objects()[id as int] is Some,
            obj_ok(o, old(self).view_objects()),
        ensures
            final(self).wf(),
            final(self).view_objects().len() == old(self).view_objects().len(),
            final(self).view_objects()[id as int] == Some(o),
            forall|i: int|
                0 <= i < old(self).view_objects().len() && i != id ==> final(self).view_objects()[i] == old(self).view_objects()[i],
    {
        self.objects[id] = Some(o);
        proof {
            let h0 = old(self).objects@;
            let h1 = self.objects@;
            assert forall|j: int| 0 <= j < h1.len() && (#[trigger] h1[j]) is Some implies obj_ok(
                h1[j]->0,
                h1,
            ) by {
                assert forall|r: int| #[trigger] obj_has_ref(h1[j]->0, r) implies 0 <= r < h1.len()
                    && h1[r] is Some by {
                    if j != id {
                        assert(obj_ok(h0[j]->0, h0));
                    }
                }
            }
        }
    }

    /// Push every unmarked reference of the object onto the worklist,
    /// marking it.
    #[verifier::loop_isolation(false)]
    fn push_refs(
        marks: &mut Vec<bool>,
        worklist: &mut Vec<usize>,
        o: &HeapObject,
        Ghost(h): Ghost<Seq<Option<HeapObject>>>,
    )
        requires
            old(marks)@.len() == h.len(),
            obj_ok(*o, h),
            forall|k: int|
                0 <= k < old(worklist)@.len() ==> 0 <= (#[trigger] old(worklist)@[k]) < h.len()
                    && old(marks)@[old(worklist)@[k] as int],
        ensures
            final(marks)@.len() == h.len(),
            forall|i: int| 0 <= i < h.len() && old(marks)@[i] ==> (#[trigger] final(marks)@[i]),
            forall|k: int|
                0 <= k < final(worklist)@.len() ==> 0 <= (#[trigger] final(worklist)@[k]) < h.len()
                    && final(marks)@[final(worklist)@[k] as int],
            forall|i: int|
                0 <= i < old(worklist)@.len() ==> final(worklist)@[i] == old(worklist)@[i],
            old(worklist)@.len() <= final(worklist)@.len(),
            forall|r: int| #[trigger] obj_has_ref(*o, r) ==> final(marks)@[r],
            forall|i: int|
                0 <= i < h.len() && !old(marks)@[i] && (#[trigger] final(marks)@[i])
                    ==> obj_has_ref(*o, i) && final(worklist)@.contains(i as usize),
            forall|k: int|
                old(worklist)@.len() <= k < final(worklist)@.len() ==> !old(marks)@[(
                #[trigger] final(worklist)@[k]) as int],
            count_marked(final(marks)@) - count_marked(old(marks)@) == final(worklist)@.len()
                - old(worklist)@.len(),
    {
        match o {
            HeapObject::Arr(vs) => {
                let mut i: usize = 0;
                while i < vs.len()
                    invariant
                        marks@.len() == h.len(),
                        0 <= i <= vs@.len(),
                        forall|j: int| 0 <= j < h.len() && old(marks)@[j] ==> (#[trigger] marks@[j]),
                        forall|k: int|
                            0 <= k < worklist@.len() ==> 0 <= (#[trigger] worklist@[k]) < h.len()
                                && marks@[worklist@[k] as int],
                        forall|k: int|
                            0 <= k < old(worklist)@.len() ==> worklist@[k] == old(worklist)@[k],
                        old(worklist)@.len() <= worklist@.len(),
                        forall|j: int|
                            0 <= j < i && val_ref(#[trigger] vs@[j]) is Some ==> marks@[val_ref(
                                vs@[j],
                            )->0],
                        forall|j: int|
                            0 <= j < h.len() && !old(marks)@[j] && (#[trigger] marks@[j])
                                ==> obj_has_ref(*o, j) && worklist@.contains(j as usize),
                        forall|k: int|
                            old(worklist)@.len() <= k < worklist@.len() ==> !old(marks)@[(
                            #[trigger] worklist@[k]) as int],
                        count_marked(marks@) - count_marked(old(marks)@) == worklist@.len() - old(
                            worklist,
                        )@.len(),
                    decreases vs@.len() - i,
                {
                    let ghost m0 = marks@;
                    let ghost w0 = worklist@;
                    let v = vs[i];
                    proof {
                        if val_ref(vs@[i as int]) is Some {
                            assert(obj_has_ref(*o, val_ref(vs@[i as int])->0));
                        }
                    }
                    Self::mark_value(marks, worklist, v, Ghost(h));
                    proof {
                        assert forall|j: int|
                            0 <= j < i + 1 && val_ref(#[trigger] vs@[j]) is Some implies marks@[
                        val_ref(vs@[j])->0] by {
                            if j < i {
                                assert(obj_has_ref(*o, val_ref(vs@[j])->0));
                                assert(m0[val_ref(vs@[j])->0]);
                            }
                        }
                        assert forall|j: int|
                            0 <= j < h.len() && !old(marks)@[j] && (#[trigger] marks@[j]) implies
                            obj_has_ref(*o, j) && worklist@.contains(j as usize) by {
                            if m0[j] {
                                let w = choose|k: int| 0 <= k < w0.len() && w0[k] == j as usize;
                                assert(worklist@[w] == j as usize);
                            } else {
                                assert(val_ref(vs@[i as int]) == Some(j));
                                assert(worklist@[worklist@.len() - 1] == j as usize);
                            }
                        }
                    }
                    i = i + 1;
                }
            },
            HeapObject::Text(_) => {},
            HeapObject::MapObj(ps) => {
                let mut i: usize = 0;
                while i < ps.len()
                    invariant
                        marks@.len() == h.len(),
                        0 <= i <= ps@.len(),
                        forall|j: int| 0 <= j < h.len() && old(marks)@[j] ==> (#[trigger] marks@[j]),
                        forall|k: int|
                            0 <= k < worklist@.len() ==> 0 <= (#[trigger] worklist@[k]) < h.len()
                                && marks@[worklist@[k] as int],
                        forall|k: int|
                            0 <= k < old(worklist)@.len() ==> worklist@[k] == old(worklist)@[k],
                        old(worklist)@.len() <= worklist@.len(),
                        forall|j: int|
                            0 <= j < i && val_ref((#[trigger] ps@[j]).1) is Some ==> marks@[val_ref(
                                ps@[j].1,
                            )->0],
                        forall|j: int|
                            0 <= j < h.len() && !old(marks)@[j] && (#[trigger] marks@[j])
                                ==> obj_has_ref(*o, j) && worklist@.contains(j as usize),
                        forall|k: int|
                            old(worklist)@.len() <= k < worklist@.len() ==> !old(marks)@[(
                            #[trigger] worklist@[k]) as int],
                        count_marked(marks@) - count_marked(old(marks)@) == worklist@.len() - old(
                            worklist,
                        )@.len(),
                    decreases ps@.len() - i,
                {
                    let ghost m0 = marks@;
                    let ghost w0 = worklist@;
                    let v = ps[i].1;
                    proof {
                        if val_ref(ps@[i as int].1) is Some {
                            assert(obj_has_ref(*o, val_ref(ps@[i as int].1)->0));
                        }
                    }
                    Self::mark_value(marks, worklist, v, Ghost(h));
                    proof {
                        assert forall|j: int|
                            0 <= j < i + 1 && val_ref((#[trigger] ps@[j]).1) is Some implies marks@[
                        val_ref(ps@[j].1)->0] by {
                            if j < i {
                                assert(obj_has_ref(*o, val_ref(ps@[j].1)->0));
                                assert(m0[val_ref(ps@[j].1)->0]);
                            }
                        }
                        assert forall|j: int|
                            0 <= j < h.len() && !old(marks)@[j] && (#[trigger] marks@[j]) implies
                            obj_has_ref(*o, j) && worklist@.contains(j as usize) by {
                            if m0[j] {
                                let w = choose|k: int| 0 <= k < w0.len() && w0[k] == j as usize;
                                assert(worklist@[w] == j as usize);
                            } else {
                                assert(val_ref(ps@[i as int].1) == Some(j));
                                assert(worklist@[worklist@.len() - 1] == j as usize);
                            }
                        }
                    }
                    i = i + 1;
                }
            },
            HeapObject::EnumInst { tag, payload } => {
                let mut i: usize = 0;
                while i < payload.len()
                    invariant
                        marks@.len() == h.len(),
                        0 <= i <= payload@.len(),
                        forall|j: int| 0 <= j < h.len() && old(marks)@[j] ==> (#[trigger] marks@[j]),
                        forall|k: int|
                            0 <= k < worklist@.len() ==> 0 <= (#[trigger] worklist@[k]) < h.len()
                                && marks@[worklist@[k] as int],
                        forall|k: int|
                            0 <= k < old(worklist)@.len() ==> worklist@[k] == old(worklist)@[k],
                        old(worklist)@.len() <= worklist@.len(),
                        forall|j: int|
                            0 <= j < i && val_ref((#[trigger] payload@[j]).1) is Some
                                ==> marks@[val_ref(payload@[j].1)->0],
                        forall|j: int|
                            0 <= j < h.len() && !old(marks)@[j] && (#[trigger] marks@[j])
                                ==> obj_has_ref(*o, j) && worklist@.contains(j as usize),
                        forall|k: int|
                            old(worklist)@.len() <= k < worklist@.len() ==> !old(marks)@[(
                            #[trigger] worklist@[k]) as int],
                        count_marked(marks@) - count_marked(old(marks)@) == worklist@.len() - old(
                            worklist,
                        )@.len(),
                    decreases payload@.len() - i,
                {
                    let ghost m0 = marks@;
                    let ghost w0 = worklist@;
                    let v = payload[i].1;
                    proof {
                        if val_ref(payload@[i as int].1) is Some {
                            assert(obj_has_ref(*o, val_ref(payload@[i as int].1)->0));
                        }
                    }
                    Self::mark_value(marks, worklist, v, Ghost(h));
                    proof {
                        assert forall|j: int|
                            0 <= j < i + 1 && val_ref((#[trigger] payload@[j]).1) is Some implies
                            marks@[val_ref(payload@[j].1)->0] by {
                            if j < i {
                                assert(obj_has_ref(*o, val_ref(payload@[j].1)->0));
                                assert(m0[val_ref(payload@[j].1)->0]);
                            }
                        }
                        assert forall|j: int|
                            0 <= j < h.len() && !old(marks)@[j] && (#[trigger] marks@[j]) implies
                            obj_has_ref(*o, j) && worklist@.contains(j as usize) by {
                            if m0[j] {
                                let w = choose|k: int| 0 <= k < w0.len() && w0[k] == j as usize;
                                assert(worklist@[w] == j as usize);
                            } else {
                                assert(val_ref(payload@[i as int].1) == Some(j));
                                assert(worklist@[worklist@.len() - 1] == j as usize);
                            }
                        }
                    }
                    i = i + 1;
                }
            },
        }
    }

    /// Mark the slot a value refers to and queue it when fresh.
    fn mark_value(
        marks: &mut Vec<bool>,
        worklist: &mut Vec<usize>,
        v: Value,
        Ghost(h): Ghost<Seq<Option<HeapObject>>>,
    )
        requires
            old(marks)@.len() == h.len(),
            val_ref(v) is Some ==> 0 <= val_ref(v)->0 < h.len(),
        ensures
            final(marks)@.len() == h.len(),
            (val_ref(v) is Some && !old(marks)@[val_ref(v)->0]) ==> (final(marks)@ == old(
                marks,
            )@.update(val_ref(v)->0, true) && final(worklist)@ == old(worklist)@.push(
                (val_ref(v)->0) as usize,
            )),
            !(val_ref(v) is Some && !old(marks)@[val_ref(v)->0]) ==> (final(marks)@ == old(marks)@
                && final(worklist)@ == old(worklist)@),
            val_ref(v) is Some ==> final(marks)@[val_ref(v)->0],
            forall|i: int| 0 <= i < h.len() && old(marks)@[i] ==> (#[trigger] final(marks)@[i]),
            forall|i: int|
                0 <= i < old(worklist)@.len() ==> final(worklist)@[i] == old(worklist)@[i],
            old(worklist)@.len() <= final(worklist)@.len(),
            forall|i: int|
                0 <= i < h.len() && !old(marks)@[i] && (#[trigger] final(marks)@[i]) ==> val_ref(v)
                    == Some(i),
            forall|k: int|
                old(worklist)@.len() <= k < final(worklist)@.len() ==> !old(marks)@[(
                #[trigger] final(worklist)@[k]) as int],
            count_marked(final(marks)@) - count_marked(old(marks)@) == final(worklist)@.len() - old(
                worklist,
            )@.len(),
    {
        let r_opt: Option<usize> = match v {
            Value::Str(r) => Some(r),
            Value::Array(r) => Some(r),
            Value::MapRef(r) => Some(r),
            Value::EnumInstance(r) => Some(r),
            _ => None,
        };
        if let Some(r) = r_opt {
            if !marks[r] {
                proof {
                    lemma_count_marked_set(marks@, r as int);
                }
                marks[r] = true;
                worklist.push(r);
            }
        }
    }


    /// The element of the array object at the index.
    pub fn array_get(&self, id: usize, idx: usize) -> (r: Option<Value>)
        requires
            self.wf(),
        ensures
            match r {
                Some(v) => arr_at(self.view_objects(), id as int) matches Some(vs) && idx < vs.len()
                    && v == vs[idx as int] && val_ok(v, self.view_objects()),
                None => arr_at(self.view_objects(), id as int) matches Some(vs) ==> idx >= vs.len(),
            },
    {
        if id >= self.objects.len() {
            return None;
        }
        match &self.objects[id] {
            Some(HeapObject::Arr(vs)) => {
                if idx < vs.len() {
                    let v = vs[idx];
                    proof {
                        if val_ref(v) is Some {
                            assert(obj_has_ref(self.objects@[id as int]->0, val_ref(v)->0));
                            assert(obj_ok(self.objects@[id as int]->0, self.objects@));
                        }
                    }
                    Some(v)
                } else {
                    None
                }
            },
            _ => None,
        }
    }

    /// How long the array object is, when the slot holds one.
    pub fn array_len(&self, id: usize) -> (r: Option<usize>)
        requires
            self.wf(),
        ensures
            match r {
                Some(l) => arr_at(self.view_objects(), id as int) matches Some(vs) && l == vs.len(),
                None => arr_at(self.view_objects(), id as int) is None,
            },
    {
        if id >= self.objects.len() {
            return None;
        }
        match &self.objects[id] {
            Some(HeapObject::Arr(vs)) => Some(vs.len()),
            _ => None,
        }
    }

    /// Append one valid value to the array object in the slot: on
    /// success the slot holds exactly the old elements with the value
    /// at the end, and nothing else moves; the append fails exactly
    /// when the slot holds no array.
    #[verifier::loop_isolation(false)]
    pub fn array_push(&mut self, id: usize, v: Value) -> (r: bool)
        requires
            old(self).wf(),
            val_ok(v, old(self).view_objects()),
        ensures
            final(self).wf(),
            final(self).view_objects().len() == old(self).view_objects().len(),
            forall|i: int|
                0 <= i < old(self).view_objects().len() && (#[trigger] old(self).view_objects()[i])
                    is Some ==> final(self).view_objects()[i] is Some,
            r == (arr_at(old(self).view_objects(), id as int) is Some),
            r ==> (arr_at(final(self).view_objects(), id as int) matches Some(vs2) && (arr_at(old(self).view_objects(), id as int) matches Some(vs) && vs2 == vs.push(v))),
            forall|i: int|
                0 <= i < old(self).view_objects().len() && i != id ==> final(self).view_objects()[i] == old(self).view_objects()[i],
            !r ==> final(self).view_objects() == old(self).view_objects(),
    {
        if id >= self.objects.len() {
            return false;
        }
        let ghost h0 = self.objects@;
        let is_arr = matches!(&self.objects[id], Some(HeapObject::Arr(_)));
        if !is_arr {
            return false;
        }
        let mut new_vs: Vec<Value> = Vec::new();
        match &self.objects[id] {
            Some(HeapObject::Arr(vs)) => {
                let mut i: usize = 0;
                while i < vs.len()
                    invariant
                        0 <= i <= vs@.len(),
                        new_vs@ == vs@.take(i as int),
                    decreases vs@.len() - i,
                {
                    new_vs.push(vs[i]);
                    proof {
                        assert(vs@.take(i + 1) =~= vs@.take(i as int).push(vs@[i as int]));
                    }
                    i = i + 1;
                }
                proof {
                    assert(vs@.take(vs@.len() as int) =~= vs@);
                }
            },
            _ => {},
        }
        new_vs.push(v);
        proof {
            let o0 = h0[id as int]->0;
            assert forall|r: int| #[trigger] obj_has_ref(HeapObject::Arr(new_vs), r) implies 0 <= r
                < h0.len() && h0[r] is Some by {
                let w = choose|w: int|
                    0 <= w < new_vs@.len() && val_ref(#[trigger] new_vs@[w]) == Some(r);
                if w < new_vs@.len() - 1 {
                    assert(obj_has_ref(o0, r));
                    assert(obj_ok(o0, h0));
                } else {
                    assert(val_ok(v, h0));
                }
            }
        }
        self.set(id, HeapObject::Arr(new_vs));
        true
    }

    /// The value stored under the key of the map object in the slot:
    /// the first entry carrying the key, or `None` when no entry does
    /// or the slot holds no map.
    #[verifier::loop_isolation(false)]
    pub fn map_lookup(&self, id: usize, key: &String) -> (r: Option<Value>)
        requires
            self.wf(),
        ensures
            match r {
                Some(v) => val_ok(v, self.view_objects()) && (map_at(self.view_objects(), id as int)
                    matches Some(ps) && map_found(ps, key@, v)),
                None => map_at(self.view_objects(), id as int) matches Some(ps) ==> (forall|e: int|
                    0 <= e < ps.len() ==> (#[trigger] ps[e]).0@ != key@),
            },
    {
        if id >= self.objects.len() {
            return None;
        }
        match &self.objects[id] {
            Some(HeapObject::MapObj(ps)) => {
                let mut e: usize = 0;
                while e < ps.len()
                    invariant
                        0 <= e <= ps@.len(),
                        ps@ == self.objects@[id as int]->0->MapObj_0@,
                        map_at(self.view_objects(), id as int) == Some(ps@),
                        forall|w: int| 0 <= w < e ==> (#[trigger] ps@[w]).0@ != key@,
                    decreases ps@.len() - e,
                {
                    if ps[e].0 == *key {
                        let v = ps[e].1;
                        proof {
                            if val_ref(v) is Some {
                                assert(obj_has_ref(self.objects@[id as int]->0, val_ref(v)->0));
                                assert(obj_ok(self.objects@[id as int]->0, self.objects@));
                            }
                            assert(ps@[e as int].0@ == key@ && ps@[e as int].1 == v);
                            assert(map_found(ps@, key@, v));
                        }
                        return Some(v);
                    }
                    e = e + 1;
                }
                None
            },
            _ => None,
        }
    }

    /// The text of the string object in the slot.
    pub fn text_of(&self, id: usize) -> (r: Option<String>)
        requires
            self.wf(),
        ensures
            match r {
                Some(s) => text_at(self.view_objects(), id as int) matches Some(cs) && s@ == cs,
                None => text_at(self.view_objects(), id as int) is None,
            },
    {
        if id >= self.objects.len() {
            return None;
        }
        match &self.objects[id] {
            Some(HeapObject::Text(t)) => Some(t.clone()),
            _ => None,
        }
    }

    /// One full mark-and-sweep cycle over the given roots.  Afterwards
    /// every mark bit is clear, every surviving slot holds the object
    /// it held before, every root's object survives, and every freed
    /// slot was unreachable from the roots.
    #[verifier::loop_isolation(false)]
    pub fn collect(&mut self, roots: &Vec<Value>)
        requires
            old(self).wf(),
            forall|i: int|
                0 <= i < roots@.len() ==> val_ok(#[trigger] roots@[i], old(self).view_objects()),
        ensures
            final(self).wf(),
            final(self).view_objects().len() == old(self).view_objects().len(),
            forall|i: int|
                0 <= i < final(self).view_objects().len() && (#[trigger] final(self).view_objects()[i]) is Some ==> final(self).view_objects()[i] == old(self).view_objects()[i],
            forall|i: int|
                0 <= i < roots@.len() && val_ref(#[trigger] roots@[i]) is Some ==> final(self).view_objects()[val_ref(roots@[i])->0] is Some,
            forall|id: int|
                0 <= id < old(self).view_objects().len() && (#[trigger] old(self).view_objects()[id]) is Some && final(self).view_objects()[id] is None ==> !reachable(
                    old(self).view_objects(),
                    root_set(roots@),
                    id,
                ),
            forall|id: int|
                0 <= id < final(self).view_objects().len() && (#[trigger] final(self).view_objects()[id]) is Some ==> reachable(
                    old(self).view_objects(),
                    root_set(roots@),
                    id,
                ),
    {
        let ghost h0 = self.objects@;
        let hlen = self.objects.len();
        proof {
            assert(h0.len() == hlen as int);
        }
        let mut worklist: Vec<usize> = Vec::new();
        // seed the marks from the roots
        let mut i: usize = 0;
        while i < roots.len()
            invariant
                self.objects@ == h0,
                self.marks@.len() == h0.len(),
                0 <= i <= roots@.len(),
                forall|k: int|
                    0 <= k < worklist@.len() ==> 0 <= (#[trigger] worklist@[k]) < h0.len()
                        && self.marks@[worklist@[k] as int],
                forall|id: int|
                    0 <= id < h0.len() && (#[trigger] self.marks@[id]) ==> h0[id] is Some
                        && worklist@.contains(id as usize),
                forall|j: int|
                    0 <= j < i && val_ref(#[trigger] roots@[j]) is Some ==> self.marks@[val_ref(
                        roots@[j],
                    )->0],
                forall|id: int|
                    0 <= id < h0.len() && (#[trigger] self.marks@[id]) ==> reachable(
                        h0,
                        root_set(roots@),
                        id,
                    ),
            decreases roots@.len() - i,
        {
            let ghost m0 = self.marks@;
            let ghost w0 = worklist@;
            let v = roots[i];
            proof {
                assert(val_ok(roots@[i as int], h0));
            }
            Self::mark_value(&mut self.marks, &mut worklist, v, Ghost(h0));
            proof {
                assert forall|id: int|
                    0 <= id < h0.len() && (#[trigger] self.marks@[id]) implies h0[id] is Some
                    && worklist@.contains(id as usize) by {
                    if m0[id] {
                        let w = choose|k: int| 0 <= k < w0.len() && w0[k] == id as usize;
                        assert(worklist@[w] == id as usize);
                    } else {
                        assert(val_ref(roots@[i as int]) == Some(id));
                        assert(val_ok(roots@[i as int], h0));
                        assert(worklist@ == w0.push(id as usize));
                        assert(worklist@[worklist@.len() - 1] == id as usize);
                    }
                }
                assert forall|j: int|
                    0 <= j < i + 1 && val_ref(#[trigger] roots@[j]) is Some implies self.marks@[
                val_ref(roots@[j])->0] by {
                    if j < i {
                        assert(m0[val_ref(roots@[j])->0]);
                        assert(val_ok(roots@[j], h0));
                    }
                }
                assert forall|id: int|
                    0 <= id < h0.len() && (#[trigger] self.marks@[id]) implies reachable(
                    h0,
                    root_set(roots@),
                    id,
                ) by {
                    if !m0[id] {
                        assert(val_ref(roots@[i as int]) == Some(id));
                        assert(root_set(roots@).contains(id));
                        lemma_root_reachable(h0, root_set(roots@), id);
                    }
                }
            }
            i = i + 1;
        }
        // trace until the worklist is drained
        loop
            invariant
                self.objects@ == h0,
                self.marks@.len() == h0.len(),
                forall|k: int|
                    0 <= k < worklist@.len() ==> 0 <= (#[trigger] worklist@[k]) < h0.len()
                        && self.marks@[worklist@[k] as int],
                forall|id: int|
                    0 <= id < h0.len() && (#[trigger] self.marks@[id]) ==> h0[id] is Some,
                forall|r: int| #[trigger]
                    root_set(roots@).contains(r) ==> 0 <= r < h0.len() && self.marks@[r],
                forall|id: int, r: int|
                    0 <= id < h0.len() && (#[trigger] self.marks@[id]) && !worklist@.contains(
                        id as usize,
                    ) && h0[id] is Some && #[trigger] obj_has_ref(h0[id]->0, r) ==> 0 <= r
                        < h0.len() && self.marks@[r],
                forall|id: int|
                    0 <= id < h0.len() && (#[trigger] self.marks@[id]) ==> reachable(
                        h0,
                        root_set(roots@),
                        id,
                    ),
            decreases h0.len() - count_marked(self.marks@), worklist@.len(),
        {
            proof {
                lemma_count_marked_bounds(self.marks@);
            }
            let ghost wlpre = worklist@;
            let popped = worklist.pop();
            match popped {
                None => {
                    break ;
                },
                Some(id) => {
                    let ghost m0 = self.marks@;
                    let ghost w0 = worklist@;
                    proof {
                        assert(wlpre[wlpre.len() - 1] == id);
                        assert(self.marks@[id as int] && h0[id as int] is Some);
                    }
                    let obj_opt = &self.objects[id];
                    match obj_opt {
                        Some(o) => {
                            proof {
                                assert(obj_ok(h0[id as int]->0, h0));
                            }
                            Self::push_refs(&mut self.marks, &mut worklist, o, Ghost(h0));
                            proof {
                                assert forall|jd: int|
                                    0 <= jd < h0.len() && (#[trigger] self.marks@[jd]) implies h0[jd]
                                    is Some by {
                                    if !m0[jd] {
                                        assert(obj_has_ref(h0[id as int]->0, jd));
                                    }
                                }
                                assert forall|jd: int|
                                    0 <= jd < h0.len() && (#[trigger] self.marks@[jd]) implies
                                    reachable(h0, root_set(roots@), jd) by {
                                    if !m0[jd] {
                                        assert(obj_has_ref(h0[id as int]->0, jd));
                                        assert(reachable(h0, root_set(roots@), id as int));
                                        lemma_reachable_step(h0, root_set(roots@), id as int, jd);
                                    }
                                }
                                assert forall|jd: int, r: int|
                                    0 <= jd < h0.len() && (#[trigger] self.marks@[jd])
                                        && !worklist@.contains(jd as usize) && h0[jd] is Some
                                        && #[trigger] obj_has_ref(h0[jd]->0, r) implies 0 <= r
                                        < h0.len() && self.marks@[r] by {
                                    if jd == id {
                                        assert(self.marks@[r]);
                                    } else if !m0[jd] {
                                        assert(worklist@.contains(jd as usize));
                                    } else {
                                        // marked before the pop
                                        if wlpre.contains(jd as usize) {
                                            let w = choose|k: int|
                                                0 <= k < wlpre.len() && wlpre[k] == jd as usize;
                                            assert((jd as usize) as int == jd);
                                            assert(wlpre[w] != wlpre[wlpre.len() - 1]);
                                            assert(w < wlpre.len() - 1);
                                            assert(w0[w] == jd as usize);
                                            assert(worklist@[w] == jd as usize);
                                        } else {
                                            assert(m0[r]);
                                        }
                                    }
                                }
                            }
                        },
                        None => {
                            proof {
                                assert(h0[id as int] is Some);
                            }
                        },
                    }
                    proof {
                        lemma_count_marked_bounds(self.marks@);
                    }
                },
            }
        }
        proof {
            let m = Set::new(|id: int| 0 <= id < h0.len() && self.marks@[id]);
            assert forall|id: int, r: int|
                #[trigger] m.contains(id) && 0 <= id < h0.len() && h0[id] is Some && #[trigger]
                obj_has_ref(h0[id]->0, r) implies m.contains(r) by {
                assert(!worklist@.contains(id as usize));
            }
            assert forall|n: nat|
                #[trigger] reach_n(h0, root_set(roots@), n).subset_of(m) by {
                lemma_closed_covers_reach(h0, root_set(roots@), m, n);
            }
        }
        let ghost marksf = self.marks@;
        // sweep: free the unmarked, clear the marks
        let mut s: usize = 0;
        while s < self.objects.len()
            invariant
                self.objects@.len() == h0.len(),
                self.marks@.len() == h0.len(),
                0 <= s <= h0.len(),
                forall|j: int|
                    0 <= j < s ==> self.objects@[j] == (if marksf[j] {
                        h0[j]
                    } else {
                        None::<HeapObject>
                    }),
                forall|j: int| s <= j < h0.len() ==> self.objects@[j] == h0[j],
                forall|j: int| 0 <= j < s ==> !(#[trigger] self.marks@[j]),
                forall|j: int| s <= j < h0.len() ==> self.marks@[j] == marksf[j],
            decreases h0.len() - s,
        {
            if !self.marks[s] {
                self.objects[s] = None;
            }
            self.marks[s] = false;
            s = s + 1;
        }
        // the survivors still refer only to survivors, and whatever
        // was freed the roots could not reach
        proof {
            let m = Set::new(|id: int| 0 <= id < h0.len() && marksf[id]);
            assert forall|id: int|
                0 <= id < self.objects@.len() && (#[trigger] self.objects@[id]) is Some implies
                obj_ok(self.objects@[id]->0, self.objects@) by {
                assert(marksf[id]);
                assert(self.objects@[id] == h0[id]);
                assert(obj_ok(h0[id]->0, h0));
                assert forall|r: int| #[trigger]
                    obj_has_ref(self.objects@[id]->0, r) implies 0 <= r < self.objects@.len()
                    && self.objects@[r] is Some by {
                    assert(obj_has_ref(h0[id]->0, r));
                    assert(marksf[r]);
                }
            }
            assert forall|id: int|
                0 <= id < h0.len() && (#[trigger] h0[id]) is Some && self.objects@[id] is None
                    implies !reachable(h0, root_set(roots@), id) by {
                assert(!marksf[id]);
                if reachable(h0, root_set(roots@), id) {
                    let n = choose|n: nat| reach_n(h0, root_set(roots@), n).contains(id);
                    assert(reach_n(h0, root_set(roots@), n).subset_of(m));
                    assert(m.contains(id));
                }
            }
            assert forall|i: int|
                0 <= i < roots@.len() && val_ref(#[trigger] roots@[i]) is Some implies
                self.objects@[val_ref(roots@[i])->0] is Some by {
                let r = val_ref(roots@[i])->0;
                assert(root_set(roots@).contains(r));
                assert(marksf[r]);
            }
        }
        // bookkeeping: remember the post-collection live score and
        // adapt the trigger within a bounded factor
        self.alloc_count = 0;
        let score = self.live_score();
        if self.history.len() >= GC_HISTORY_BUFFER_SIZE {
            self.history.remove(0);
        }
        self.history.push(score);
        let mut sum: usize = 0;
        let mut k: usize = 0;
        while k < self.history.len()
            invariant
                0 <= k <= self.history@.len(),
            decreases self.history@.len() - k,
        {
            sum = match sum.checked_add(self.history[k]) {
                Some(t) => t,
                None => usize::MAX,
            };
            k = k + 1;
        }
        let avg = if self.history.len() > 0 {
            sum / self.history.len()
        } else {
            sum
        };
        let widened = match avg.checked_mul(2) {
            Some(t) => t,
            None => usize::MAX,
        };
        let lo = crate::types::constants::GC_THRESHOLD / 2;
        let hi = crate::types::constants::GC_THRESHOLD * 2;
        self.threshold = if widened < lo {
            lo
        } else if widened > hi {
            hi
        } else {
            widened
        };
    }
}

} // verus!
