//! The virtual machine: a value stack, a frame stack, and a dispatch
//! loop over the compiled instructions, with the heap collected when
//! allocation pressure crosses the adaptive threshold.
//!
//! Every value the machine holds points at an allocated heap slot
//! ([`VirtualMachine::wf`]); a runtime fault halts the machine with a
//! message.  Match arms are selected by [`VirtualMachine::select_arm`],
//! whose contract pins the choice to the first arm with a matching
//! pattern; [`lemma_match_prefix_stable`] states that dropping later
//! arms cannot change a selection an earlier arm won.

use crate::library::compiler::{
    bp_wf, instr_wf, pattern_desc_wf, ArmDesc, BytecodeProgram, Constant, ConstantValue,
    PatternDesc, OP_ADD, OP_CALL, OP_DIV, OP_EQUAL, OP_GREATER, OP_GREATER_EQUAL, OP_HALT,
    OP_INDEX_ACCESS, OP_JUMP, OP_JUMP_IF_FALSE, OP_LESS, OP_LESS_EQUAL, OP_LOAD_CONST,
    OP_LOAD_LOCAL, OP_LOAD_MODULE, OP_LOAD_NIL, OP_MAKE_ARRAY, OP_MAKE_MAP, OP_MATCH_JUMP,
    OP_MODULE_MEMBER, OP_MUL, OP_NEG, OP_NOT, OP_NOT_EQUAL, OP_POP, OP_POP_SCOPE, OP_PUSH_SCOPE,
    OP_RETURN, OP_STORE_LOCAL, OP_SUB, OP_UPDATE,
};
use crate::library::fmt::u64_to_string;
use crate::library::heap::{
    map_at, map_found, obj_has_ref, obj_ok, text_at, val_ok, val_ref, Heap, HeapObject, Value,
};
use crate::library::number::Rational;
use crate::types::constants::GC_CHECK_INTERVAL;
use vstd::prelude::*;
use vstd::string::StringExecFns;

verus! {

/// One activation record: where to return, where the caller's stack
/// ended, and the local scopes, innermost last.
pub struct Frame {
    pub return_addr: usize,
    pub stack_base: usize,
    pub scopes: Vec<Vec<(String, Value)>>,
}

/// Every binding of the frame refers only to allocated heap slots.
pub open spec fn frame_ok(f: Frame, h: Seq<Option<HeapObject>>) -> bool {
    forall|s: int, b: int|
        0 <= s < f.scopes@.len() && 0 <= b < (#[trigger] f.scopes@[s])@.len() ==> val_ok(
            (#[trigger] f.scopes@[s]@[b]).1,
            h,
        )
}

/// A literal constant matches a value: numbers by value, booleans
/// exactly, strings by their text.
pub open spec fn lit_matches(
    c: ConstantValue,
    v: Value,
    h: Seq<Option<HeapObject>>,
) -> bool {
    match c {
        ConstantValue::Number(q) => v matches Value::Number(p) && p.wf() && q.wf()
            && p.same_value(q),
        ConstantValue::Bool(b) => v == Value::Bool(b),
        ConstantValue::String(s) => v matches Value::Str(r) && 0 <= r < h.len() && (h[
            r as int
        ] matches Some(o) && (o matches HeapObject::Text(t) && t@ == s@)),
    }
}

/// A compiled pattern matches a value: a wildcard always, a literal by
/// [`lit_matches`], a field pattern when the value is a map that has
/// every named field.
pub open spec fn pattern_matches(
    p: PatternDesc,
    v: Value,
    consts: Seq<Constant>,
    h: Seq<Option<HeapObject>>,
) -> bool {
    match p {
        PatternDesc::Wildcard => true,
        PatternDesc::Lit(id) => id < consts.len() && lit_matches(consts[id as int].value, v, h),
        PatternDesc::Fields(ids) => v matches Value::MapRef(r) && 0 <= r < h.len() && (h[
            r as int
        ] matches Some(o) && (o matches HeapObject::MapObj(ps) && (forall|k: int|
            0 <= k < ids@.len() ==> (#[trigger] ids@[k]) < consts.len() && (consts[
                ids@[k] as int
            ].value matches ConstantValue::String(s) && (exists|e: int|
                0 <= e < ps@.len() && (#[trigger] ps@[e]).0@ == s@))))),
    }
}

/// An arm matches when one of its patterns does.
pub open spec fn arm_matches(
    a: ArmDesc,
    v: Value,
    consts: Seq<Constant>,
    h: Seq<Option<HeapObject>>,
) -> bool {
    exists|p: int|
        0 <= p < a.patterns@.len() && pattern_matches(#[trigger] a.patterns@[p], v, consts, h)
}

/// Pattern-match ordering: when the selected arm of a match is `k`,
/// keeping only the first `m > k` arms selects the same arm; removing
/// later arms cannot change the outcome an earlier arm won.
pub proof fn lemma_match_prefix_stable(
    arms: Seq<ArmDesc>,
    k: int,
    m: int,
    v: Value,
    consts: Seq<Constant>,
    h: Seq<Option<HeapObject>>,
)
    requires
        0 <= k < arms.len(),
        arm_matches(arms[k], v, consts, h),
        forall|j: int| 0 <= j < k ==> !arm_matches(#[trigger] arms[j], v, consts, h),
        k < m <= arms.len(),
    ensures
        arm_matches(arms.take(m)[k], v, consts, h),
        forall|j: int| 0 <= j < k ==> !arm_matches(#[trigger] arms.take(m)[j], v, consts, h),
{
    assert(arms.take(m)[k] == arms[k]);
    assert forall|j: int| 0 <= j < k implies !arm_matches(#[trigger] arms.take(m)[j], v, consts, h)
        by {
        assert(arms.take(m)[j] == arms[j]);
    }
}

/// The program an empty source compiles to: load nil, then halt.
pub open spec fn nil_halt_program(bp: BytecodeProgram) -> bool {
    &&& bp.instructions@.len() == 2
    &&& bp.instructions@[0].opcode_id == OP_LOAD_NIL
    &&& bp.instructions@[1].opcode_id == OP_HALT
}

/// The machine is fresh over such a program: not halted, at the first
/// instruction, with an empty stack.
pub open spec fn nil_halt_start(vm: VirtualMachine) -> bool {
    &&& !vm.spec_halted()
    &&& vm.spec_ip() == 0
    &&& vm.spec_stack().len() == 0
    &&& nil_halt_program(vm.spec_program())
}

/// The virtual machine.
pub struct VirtualMachine {
    bp: BytecodeProgram,
    stack: Vec<Value>,
    frames: Vec<Frame>,
    heap: Heap,
    ip: usize,
    halted: bool,
    result: Option<Value>,
    output: Vec<String>,
}

impl VirtualMachine {
    /// The program is well formed, the heap is closed, and every value
    /// on the stack, in a frame, or in the result refers only to
    /// allocated slots.
    pub closed spec fn wf(self) -> bool {
        &&& bp_wf(self.bp)
        &&& self.heap.wf()
        &&& forall|i: int|
            0 <= i < self.stack@.len() ==> val_ok(
                #[trigger] self.stack@[i],
                self.heap.view_objects(),
            )
        &&& forall|f: int|
            0 <= f < self.frames@.len() ==> frame_ok(
                #[trigger] self.frames@[f],
                self.heap.view_objects(),
            )
        &&& self.frames@.len() >= 1
        &&& match self.result {
            Some(v) => val_ok(v, self.heap.view_objects()),
            None => true,
        }
    }

    /// The machine has halted: it reached the end of its program or a
    /// fault stopped it.
    pub closed spec fn spec_halted(self) -> bool {
        self.halted
    }

    /// What the program's last statement evaluated to, once it halted.
    pub closed spec fn spec_result(self) -> Option<Value> {
        self.result
    }

    /// The heap the machine's values live on.
    pub closed spec fn heap_view(self) -> Seq<Option<HeapObject>> {
        self.heap.view_objects()
    }

    /// The compiled program the machine executes.
    pub closed spec fn spec_program(self) -> BytecodeProgram {
        self.bp
    }

    /// The instruction pointer.
    pub closed spec fn spec_ip(self) -> int {
        self.ip as int
    }

    /// The value stack.
    pub closed spec fn spec_stack(self) -> Seq<Value> {
        self.stack@
    }

    /// The global bindings: the outermost scope of the bottom frame.
    pub closed spec fn spec_globals(self) -> Seq<(String, Value)> {
        self.frames@[0].scopes@[0]@
    }

    /// What the program printed so far, in order.
    pub closed spec fn spec_output(self) -> Seq<String> {
        self.output@
    }

    /// A machine over a compiled program, with one global frame and
    /// every declared function bound in it.
    #[verifier::loop_isolation(false)]
    pub fn new(bp: BytecodeProgram) -> (vm: VirtualMachine)
        requires
            bp_wf(bp),
        ensures
            vm.wf(),
            !vm.spec_halted(),
            vm.spec_result() is None,
            vm.spec_program() == bp,
            vm.spec_ip() == 0,
            vm.spec_stack().len() == 0,
            vm.spec_globals().len() == bp.functions@.len(),
            forall|k: int|
                0 <= k < bp.functions@.len() ==> (#[trigger] vm.spec_globals()[k]).0
                    == bp.functions@[k].name && vm.spec_globals()[k].1 == Value::Function(
                    k as usize,
                ),
    {
        let mut globals: Vec<(String, Value)> = Vec::new();
        let mut k: usize = 0;
        while k < bp.functions.len()
            invariant
                0 <= k <= bp.functions@.len(),
                globals@.len() == k,
                forall|b: int|
                    0 <= b < globals@.len() ==> val_ref((#[trigger] globals@[b]).1) is None,
                forall|b: int|
                    0 <= b < k ==> (#[trigger] globals@[b]).0 == bp.functions@[b].name
                        && globals@[b].1 == Value::Function(b as usize),
            decreases bp.functions@.len() - k,
        {
            globals.push((bp.functions[k].name.clone(), Value::Function(k)));
            k = k + 1;
        }
        let mut scopes: Vec<Vec<(String, Value)>> = Vec::new();
        scopes.push(globals);
        let mut frames: Vec<Frame> = Vec::new();
        frames.push(Frame { return_addr: 0, stack_base: 0, scopes });
        VirtualMachine {
            bp,
            stack: Vec::new(),
            frames,
            heap: Heap::new(),
            ip: 0,
            halted: false,
            result: None,
            output: Vec::new(),
        }
    }

    /// What the program's last statement evaluated to, once it halted.
    pub fn result_value(&self) -> (r: Option<Value>)
        ensures
            r == self.spec_result(),
    {
        self.result
    }

    /// The result as a rational number, when it is one.
    pub fn result_number(&self) -> (r: Option<Rational>)
        ensures
            match r {
                Some(q) => self.spec_result() == Some(Value::Number(q)),
                None => forall|q: Rational| self.spec_result() != Some(Value::Number(q)),
            },
    {
        match self.result {
            Some(Value::Number(q)) => Some(q),
            _ => None,
        }
    }

    /// The result as a boolean, when it is one.
    pub fn result_bool(&self) -> (r: Option<bool>)
        ensures
            match r {
                Some(b) => self.spec_result() == Some(Value::Bool(b)),
                None => forall|b: bool| self.spec_result() != Some(Value::Bool(b)),
            },
    {
        match self.result {
            Some(Value::Bool(b)) => Some(b),
            _ => None,
        }
    }

    /// The result resolved to text, when it is a string.
    pub fn result_string(&self) -> (r: Option<String>)
        requires
            self.wf(),
        ensures
            r matches Some(s) ==> (self.spec_result() matches Some(v) && (v matches Value::Str(id)
                && text_at(self.heap_view(), id as int) == Some(s@))),
            r is None ==> !(self.spec_result() matches Some(v) && (v matches Value::Str(id)
                && text_at(self.heap_view(), id as int) is Some)),
    {
        match self.result {
            Some(Value::Str(id)) => {
                match self.heap.get(id) {
                    Some(HeapObject::Text(t)) => Some(t.clone()),
                    _ => None,
                }
            },
            _ => None,
        }
    }

    /// What the program printed through `IO.print`, in order.
    pub fn output_lines(&self) -> (r: &Vec<String>)
        ensures
            r@ == self.spec_output(),
    {
        &self.output
    }

    /// Every root the machine holds, flattened into one list.
    #[verifier::loop_isolation(false)]
    fn collect_roots(&self) -> (roots: Vec<Value>)
        requires
            self.wf(),
        ensures
            forall|i: int|
                0 <= i < roots@.len() ==> val_ok(#[trigger] roots@[i], self.heap.view_objects()),
            forall|i: int| 0 <= i < self.stack@.len() ==> roots@.contains(#[trigger] self.stack@[i]),
            forall|f: int, s: int, b: int|
                0 <= f < self.frames@.len() && 0 <= s < self.frames@[f].scopes@.len() && 0 <= b
                    < self.frames@[f].scopes@[s]@.len() ==> roots@.contains(
                    (#[trigger] self.frames@[f].scopes@[s]@[b]).1,
                ),
            self.result is Some ==> roots@.contains(self.result->0),
    {
        let mut roots: Vec<Value> = Vec::new();
        let mut i: usize = 0;
        while i < self.stack.len()
            invariant
                0 <= i <= self.stack@.len(),
                forall|j: int|
                    0 <= j < roots@.len() ==> val_ok(#[trigger] roots@[j], self.heap.view_objects()),
                forall|j: int| 0 <= j < i ==> roots@.contains(#[trigger] self.stack@[j]),
            decreases self.stack@.len() - i,
        {
            let ghost r0 = roots@;
            roots.push(self.stack[i]);
            proof {
                assert(roots@[r0.len() as int] == self.stack@[i as int]);
                assert forall|j: int| 0 <= j < i + 1 implies roots@.contains(
                    #[trigger] self.stack@[j],
                ) by {
                    if j < i {
                        let w = choose|w: int| 0 <= w < r0.len() && r0[w] == self.stack@[j];
                        assert(roots@[w] == self.stack@[j]);
                    }
                }
            }
            i = i + 1;
        }
        let mut f: usize = 0;
        while f < self.frames.len()
            invariant
                0 <= f <= self.frames@.len(),
                forall|j: int|
                    0 <= j < roots@.len() ==> val_ok(#[trigger] roots@[j], self.heap.view_objects()),
                forall|j: int|
                    0 <= j < self.stack@.len() ==> roots@.contains(#[trigger] self.stack@[j]),
                forall|ff: int, s: int, b: int|
                    0 <= ff < f && 0 <= s < self.frames@[ff].scopes@.len() && 0 <= b
                        < self.frames@[ff].scopes@[s]@.len() ==> roots@.contains(
                        (#[trigger] self.frames@[ff].scopes@[s]@[b]).1,
                    ),
            decreases self.frames@.len() - f,
        {
            let frame = &self.frames[f];
            let mut s: usize = 0;
            while s < frame.scopes.len()
                invariant
                    0 <= s <= frame.scopes@.len(),
                    frame == &self.frames[f as int],
                    0 <= f < self.frames@.len(),
                    forall|j: int|
                        0 <= j < roots@.len() ==> val_ok(
                            #[trigger] roots@[j],
                            self.heap.view_objects(),
                        ),
                    forall|j: int|
                        0 <= j < self.stack@.len() ==> roots@.contains(#[trigger] self.stack@[j]),
                    forall|ff: int, ss: int, b: int|
                        0 <= ff < f && 0 <= ss < self.frames@[ff].scopes@.len() && 0 <= b
                            < self.frames@[ff].scopes@[ss]@.len() ==> roots@.contains(
                            (#[trigger] self.frames@[ff].scopes@[ss]@[b]).1,
                        ),
                    forall|ss: int, b: int|
                        0 <= ss < s && 0 <= b < (#[trigger] frame.scopes@[ss])@.len()
                            ==> roots@.contains((#[trigger] frame.scopes@[ss]@[b]).1),
                decreases frame.scopes@.len() - s,
            {
                let scope = &frame.scopes[s];
                let mut b: usize = 0;
                while b < scope.len()
                    invariant
                        0 <= b <= scope@.len(),
                        scope == &frame.scopes[s as int],
                        frame == &self.frames[f as int],
                        0 <= f < self.frames@.len(),
                        0 <= s < frame.scopes@.len(),
                        forall|j: int|
                            0 <= j < roots@.len() ==> val_ok(
                                #[trigger] roots@[j],
                                self.heap.view_objects(),
                            ),
                        forall|j: int|
                            0 <= j < self.stack@.len() ==> roots@.contains(
                                #[trigger] self.stack@[j],
                            ),
                        forall|ff: int, ss: int, bb: int|
                            0 <= ff < f && 0 <= ss < self.frames@[ff].scopes@.len() && 0 <= bb
                                < self.frames@[ff].scopes@[ss]@.len() ==> roots@.contains(
                                (#[trigger] self.frames@[ff].scopes@[ss]@[bb]).1,
                            ),
                        forall|ss: int, bb: int|
                            0 <= ss < s && 0 <= bb < (#[trigger] frame.scopes@[ss])@.len()
                                ==> roots@.contains((#[trigger] frame.scopes@[ss]@[bb]).1),
                        forall|bb: int|
                            0 <= bb < b ==> roots@.contains((#[trigger] scope@[bb]).1),
                    decreases scope@.len() - b,
                {
                    let ghost r0 = roots@;
                    roots.push(scope[b].1);
                    proof {
                        assert(roots@[r0.len() as int] == scope@[b as int].1);
                        assert(frame_ok(self.frames@[f as int], self.heap.view_objects()));
                        assert forall|j: int| 0 <= j < r0.len() implies roots@[j] == r0[j] by {}
                        assert forall|j: int|
                            0 <= j < self.stack@.len() implies roots@.contains(
                            #[trigger] self.stack@[j]) by {
                            let w = choose|w: int| 0 <= w < r0.len() && r0[w] == self.stack@[j];
                            assert(roots@[w] == self.stack@[j]);
                        }
                        assert forall|ff: int, ss: int, bb: int|
                            0 <= ff < f && 0 <= ss < self.frames@[ff].scopes@.len() && 0 <= bb
                                < self.frames@[ff].scopes@[ss]@.len() implies roots@.contains(
                            (#[trigger] self.frames@[ff].scopes@[ss]@[bb]).1) by {
                            let x = self.frames@[ff].scopes@[ss]@[bb].1;
                            let w = choose|w: int| 0 <= w < r0.len() && r0[w] == x;
                            assert(roots@[w] == x);
                        }
                        assert forall|ss: int, bb: int|
                            0 <= ss < s && 0 <= bb < (#[trigger] frame.scopes@[ss])@.len() implies
                            roots@.contains((#[trigger] frame.scopes@[ss]@[bb]).1) by {
                            let x = frame.scopes@[ss]@[bb].1;
                            let w = choose|w: int| 0 <= w < r0.len() && r0[w] == x;
                            assert(roots@[w] == x);
                        }
                        assert forall|bb: int| 0 <= bb < b + 1 implies roots@.contains(
                            (#[trigger] scope@[bb]).1,
                        ) by {
                            if bb < b {
                                let x = scope@[bb].1;
                                let w = choose|w: int| 0 <= w < r0.len() && r0[w] == x;
                                assert(roots@[w] == x);
                            }
                        }
                    }
                    b = b + 1;
                }
                s = s + 1;
            }
            f = f + 1;
        }
        if let Some(v) = self.result {
            let ghost r0 = roots@;
            roots.push(v);
            proof {
                assert(roots@[r0.len() as int] == v);
                assert forall|j: int|
                    0 <= j < self.stack@.len() implies roots@.contains(#[trigger] self.stack@[j])
                    by {
                    let w = choose|w: int| 0 <= w < r0.len() && r0[w] == self.stack@[j];
                    assert(roots@[w] == self.stack@[j]);
                }
                assert forall|ff: int, ss: int, bb: int|
                    0 <= ff < self.frames@.len() && 0 <= ss < self.frames@[ff].scopes@.len() && 0
                        <= bb < self.frames@[ff].scopes@[ss]@.len() implies roots@.contains(
                        (#[trigger] self.frames@[ff].scopes@[ss]@[bb]).1,
                    ) by {
                    let x = self.frames@[ff].scopes@[ss]@[bb].1;
                    let w = choose|w: int| 0 <= w < r0.len() && r0[w] == x;
                    assert(roots@[w] == x);
                }
            }
        }
        roots
    }

    /// Run one garbage collection cycle when allocation pressure asks
    /// for one, and reestablish that every held value survived.
    fn maybe_collect(&mut self)
        requires
            old(self).wf(),
        ensures
            final(self).wf(),
            final(self).bp == old(self).bp,
            final(self).stack == old(self).stack,
            final(self).frames == old(self).frames,
            final(self).ip == old(self).ip,
            final(self).halted == old(self).halted,
            final(self).result == old(self).result,
            final(self).heap.view_objects().len() == old(self).heap.view_objects().len(),
            forall|i: int|
                0 <= i < final(self).heap.view_objects().len() && (#[trigger] final(self).heap.view_objects()[i]) is Some ==> final(self).heap.view_objects()[i] == old(self).heap.view_objects()[i],
    {
        if self.heap.pressure() < GC_CHECK_INTERVAL {
            return ;
        }
        let score = self.heap.live_score();
        if score < self.heap.threshold_value() {
            self.heap.reset_pressure();
            return ;
        }
        let roots = self.collect_roots();
        let ghost h0 = self.heap.view_objects();
        self.heap.collect(&roots);
        proof {
            let h1 = self.heap.view_objects();
            assert forall|i: int| 0 <= i < self.stack@.len() implies val_ok(
                #[trigger] self.stack@[i],
                h1,
            ) by {
                let x = self.stack@[i];
                assert(roots@.contains(x));
                let w = choose|w: int| 0 <= w < roots@.len() && roots@[w] == x;
                assert(val_ref(roots@[w]) is Some ==> h1[val_ref(roots@[w])->0] is Some);
            }
            assert forall|f: int| 0 <= f < self.frames@.len() implies frame_ok(
                #[trigger] self.frames@[f],
                h1,
            ) by {
                assert forall|s: int, b: int|
                    0 <= s < self.frames@[f].scopes@.len() && 0 <= b < (
                    #[trigger] self.frames@[f].scopes@[s])@.len() implies val_ok(
                    (#[trigger] self.frames@[f].scopes@[s]@[b]).1,
                    h1,
                ) by {
                    let x = self.frames@[f].scopes@[s]@[b].1;
                    assert(roots@.contains(x));
                    let w = choose|w: int| 0 <= w < roots@.len() && roots@[w] == x;
                    assert(val_ref(roots@[w]) is Some ==> h1[val_ref(roots@[w])->0] is Some);
                }
            }
            if let Some(v) = self.result {
                assert(roots@.contains(v));
                let w = choose|w: int| 0 <= w < roots@.len() && roots@[w] == v;
                assert(val_ref(roots@[w]) is Some ==> h1[val_ref(roots@[w])->0] is Some);
            }
        }
    }

    /// Push one value whose reference, if any, is allocated.
    fn push_val(&mut self, v: Value)
        requires
            old(self).wf(),
            val_ok(v, old(self).heap.view_objects()),
        ensures
            final(self).wf(),
            final(self).heap == old(self).heap,
            final(self).bp == old(self).bp,
            final(self).frames == old(self).frames,
            final(self).ip == old(self).ip,
            final(self).halted == old(self).halted,
            final(self).result == old(self).result,
            final(self).stack@ == old(self).stack@.push(v),
    {
        self.stack.push(v);
    }

    /// Pop one value; an empty stack is the underflow fault.
    fn pop_val(&mut self) -> (r: Result<Value, String>)
        requires
            old(self).wf(),
        ensures
            final(self).wf(),
            final(self).heap == old(self).heap,
            final(self).bp == old(self).bp,
            final(self).frames == old(self).frames,
            final(self).ip == old(self).ip,
            final(self).halted == old(self).halted,
            final(self).result == old(self).result,
            match r {
                Ok(v) => old(self).stack@.len() > 0 && v == old(self).stack@.last() && final(self).stack@ == old(self).stack@.drop_last() && val_ok(v, final(self).heap.view_objects()),
                Err(m) => old(self).stack@.len() == 0 && final(self).stack@ == old(self).stack@
                    && m@ == "Stack underflow"@,
            },
    {
        match self.stack.pop() {
            Some(v) => {
                proof {
                    assert(old(self).stack@[old(self).stack@.len() - 1] == v);
                }
                Ok(v)
            },
            None => Err(String::from_str("Stack underflow")),
        }
    }

    /// Open a child scope in the running frame.
    fn push_scope(&mut self)
        requires
            old(self).wf(),
        ensures
            final(self).wf(),
            final(self).heap == old(self).heap,
            final(self).bp == old(self).bp,
            final(self).stack == old(self).stack,
            final(self).ip == old(self).ip,
            final(self).halted == old(self).halted,
            final(self).result == old(self).result,
    {
        let fidx = self.frames.len() - 1;
        let ghost pre_frames = self.frames@;
        self.frames[fidx].scopes.push(Vec::new());
        proof {
            assert forall|f: int| 0 <= f < self.frames@.len() implies frame_ok(
                #[trigger] self.frames@[f],
                self.heap.view_objects(),
            ) by {
                assert(frame_ok(pre_frames[f], self.heap.view_objects()));
                if f == fidx {
                    let fr = self.frames@[f];
                    assert forall|s: int, b: int|
                        0 <= s < fr.scopes@.len() && 0 <= b < (#[trigger] fr.scopes@[s])@.len()
                            implies val_ok((#[trigger] fr.scopes@[s]@[b]).1, self.heap.view_objects())
                        by {
                        if s < fr.scopes@.len() - 1 {
                            assert(fr.scopes@[s] == pre_frames[f].scopes@[s]);
                        }
                    }
                }
            }
        }
    }

    /// Close the innermost child scope of the running frame; the
    /// frame's own scope stays.
    fn pop_scope(&mut self)
        requires
            old(self).wf(),
        ensures
            final(self).wf(),
            final(self).heap == old(self).heap,
            final(self).bp == old(self).bp,
            final(self).stack == old(self).stack,
            final(self).ip == old(self).ip,
            final(self).halted == old(self).halted,
            final(self).result == old(self).result,
    {
        let fidx = self.frames.len() - 1;
        let ghost pre_frames = self.frames@;
        if self.frames[fidx].scopes.len() > 1 {
            let _ = self.frames[fidx].scopes.pop();
        }
        proof {
            assert forall|f: int| 0 <= f < self.frames@.len() implies frame_ok(
                #[trigger] self.frames@[f],
                self.heap.view_objects(),
            ) by {
                assert(frame_ok(pre_frames[f], self.heap.view_objects()));
                if f == fidx {
                    let fr = self.frames@[f];
                    assert forall|s: int, b: int|
                        0 <= s < fr.scopes@.len() && 0 <= b < (#[trigger] fr.scopes@[s])@.len()
                            implies val_ok((#[trigger] fr.scopes@[s]@[b]).1, self.heap.view_objects())
                        by {
                        assert(fr.scopes@[s] == pre_frames[f].scopes@[s]);
                    }
                }
            }
        }
    }

    /// Bind a name in the innermost scope of the running frame,
    /// replacing an existing binding of the same name.
    #[verifier::loop_isolation(false)]
    fn bind_local(&mut self, name: String, v: Value)
        requires
            old(self).wf(),
            val_ok(v, old(self).heap.view_objects()),
        ensures
            final(self).wf(),
            final(self).heap == old(self).heap,
            final(self).bp == old(self).bp,
            final(self).stack == old(self).stack,
            final(self).ip == old(self).ip,
            final(self).halted == old(self).halted,
            final(self).result == old(self).result,
            final(self).frames@.len() == old(self).frames@.len(),
    {
        let fidx = self.frames.len() - 1;
        let ghost h = self.heap.view_objects();
        let frame = &mut self.frames[fidx];
        if frame.scopes.len() == 0 {
            frame.scopes.push(Vec::new());
        }
        let sidx = frame.scopes.len() - 1;
        let scope = &mut frame.scopes[sidx];
        let mut b: usize = 0;
        let mut replaced = false;
        while b < scope.len()
            invariant
                0 <= b <= scope@.len(),
                forall|j: int| 0 <= j < scope@.len() ==> val_ok((#[trigger] scope@[j]).1, h),
            decreases scope@.len() - b,
        {
            if !replaced && scope[b].0 == name {
                scope[b] = (name.clone(), v);
                replaced = true;
            }
            b = b + 1;
        }
        if !replaced {
            scope.push((name, v));
        }
        proof {
            assert forall|f: int| 0 <= f < self.frames@.len() implies frame_ok(
                #[trigger] self.frames@[f],
                self.heap.view_objects(),
            ) by {
                if f != fidx {
                    assert(frame_ok(old(self).frames@[f], h));
                }
            }
        }
    }

    /// Find a name, innermost scope first, then in the global frame.
    #[verifier::loop_isolation(false)]
    fn lookup_local(&self, name: &String) -> (r: Option<Value>)
        requires
            self.wf(),
        ensures
            r is Some ==> val_ok(r->0, self.heap.view_objects()),
    {
        let fidx = self.frames.len() - 1;
        let frame = &self.frames[fidx];
        let mut s: usize = frame.scopes.len();
        while s > 0
            invariant
                0 <= s <= frame.scopes@.len(),
                frame == &self.frames[fidx as int],
                0 <= fidx < self.frames@.len(),
            decreases s,
        {
            s = s - 1;
            let scope = &frame.scopes[s];
            let mut b: usize = scope.len();
            while b > 0
                invariant
                    0 <= b <= scope@.len(),
                    scope == &frame.scopes[s as int],
                    frame == &self.frames[fidx as int],
                    0 <= fidx < self.frames@.len(),
                    0 <= s < frame.scopes@.len(),
                decreases b,
            {
                b = b - 1;
                if scope[b].0 == *name {
                    proof {
                        assert(frame_ok(self.frames@[fidx as int], self.heap.view_objects()));
                    }
                    return Some(scope[b].1);
                }
            }
        }
        if fidx > 0 {
            let gframe = &self.frames[0];
            let mut s2: usize = gframe.scopes.len();
            while s2 > 0
                invariant
                    0 <= s2 <= gframe.scopes@.len(),
                    gframe == &self.frames[0],
                    self.frames@.len() >= 1,
                decreases s2,
            {
                s2 = s2 - 1;
                let scope = &gframe.scopes[s2];
                let mut b: usize = scope.len();
                while b > 0
                    invariant
                        0 <= b <= scope@.len(),
                        scope == &gframe.scopes[s2 as int],
                        gframe == &self.frames[0],
                        self.frames@.len() >= 1,
                        0 <= s2 < gframe.scopes@.len(),
                    decreases b,
                {
                    b = b - 1;
                    if scope[b].0 == *name {
                        proof {
                            assert(frame_ok(self.frames@[0], self.heap.view_objects()));
                        }
                        return Some(scope[b].1);
                    }
                }
            }
        }
        None
    }

    /// Allocate one object and keep every held value valid.
    fn alloc_obj(&mut self, o: HeapObject) -> (id: usize)
        requires
            old(self).wf(),
            obj_ok(o, old(self).heap.view_objects()),
        ensures
            final(self).wf(),
            final(self).bp == old(self).bp,
            final(self).stack == old(self).stack,
            final(self).frames == old(self).frames,
            final(self).ip == old(self).ip,
            final(self).halted == old(self).halted,
            final(self).result == old(self).result,
            id < final(self).heap.view_objects().len(),
            final(self).heap.view_objects()[id as int] is Some,
    {
        let ghost h0 = self.heap.view_objects();
        let id = self.heap.allocate(o);
        proof {
            let h1 = self.heap.view_objects();
            assert forall|i: int| 0 <= i < self.stack@.len() implies val_ok(
                #[trigger] self.stack@[i],
                h1,
            ) by {
                assert(val_ok(self.stack@[i], h0));
            }
            assert forall|f: int| 0 <= f < self.frames@.len() implies frame_ok(
                #[trigger] self.frames@[f],
                h1,
            ) by {
                assert(frame_ok(self.frames@[f], h0));
                assert forall|s: int, b: int|
                    0 <= s < self.frames@[f].scopes@.len() && 0 <= b < (
                    #[trigger] self.frames@[f].scopes@[s])@.len() implies val_ok(
                    (#[trigger] self.frames@[f].scopes@[s]@[b]).1,
                    h1,
                ) by {
                    assert(val_ok(self.frames@[f].scopes@[s]@[b].1, h0));
                }
            }
        }
        id
    }

    /// Text of the string constant with the given id.
    fn const_string(&self, id: usize) -> (r: Option<String>)
        requires
            self.wf(),
            id < self.bp.constants@.len(),
    {
        match &self.bp.constants[id].value {
            ConstantValue::String(s) => Some(s.clone()),
            _ => None,
        }
    }

    /// A value is true in a condition: `false` and nil are false,
    /// everything else is true.
    fn truthy(v: Value) -> (r: bool)
        ensures
            r == !(v == Value::Bool(false) || v == Value::Nil),
    {
        match v {
            Value::Bool(b) => b,
            Value::Nil => false,
            _ => true,
        }
    }

    /// Structural equality for numbers, booleans, nil and strings;
    /// reference identity for everything on the heap.
    fn value_eq(&self, a: Value, b: Value) -> (r: bool)
        requires
            self.wf(),
            val_ok(a, self.heap.view_objects()),
            val_ok(b, self.heap.view_objects()),
        ensures
            a matches Value::Number(x) ==> b matches Value::Number(y) ==> (x.wf() && y.wf()) ==> r
                == x.same_value(y),
    {
        match (a, b) {
            (Value::Nil, Value::Nil) => true,
            (Value::Bool(x), Value::Bool(y)) => x == y,
            (Value::Number(x), Value::Number(y)) => {
                if x.denominator() >= 1 && y.denominator() >= 1 {
                    x.eq_value(&y)
                } else {
                    false
                }
            },
            (Value::Str(x), Value::Str(y)) => {
                let sx = self.heap.get(x);
                let sy = self.heap.get(y);
                match (sx, sy) {
                    (Some(HeapObject::Text(tx)), Some(HeapObject::Text(ty))) => *tx == *ty,
                    _ => false,
                }
            },
            (Value::Array(x), Value::Array(y)) => x == y,
            (Value::MapRef(x), Value::MapRef(y)) => x == y,
            (Value::EnumInstance(x), Value::EnumInstance(y)) => x == y,
            (Value::Function(x), Value::Function(y)) => x == y,
            (Value::Module(x), Value::Module(y)) => x == y,
            _ => false,
        }
    }

    /// One compiled pattern against the scrutinee.
    #[verifier::loop_isolation(false)]
    fn pattern_match_exec(&self, p: &PatternDesc, v: Value) -> (r: bool)
        requires
            self.wf(),
            val_ok(v, self.heap.view_objects()),
            pattern_desc_wf(*p, self.bp.constants@.len() as int),
        ensures
            r == pattern_matches(*p, v, self.bp.constants@, self.heap.view_objects()),
    {
        match p {
            PatternDesc::Wildcard => true,
            PatternDesc::Lit(id) => {
                match &self.bp.constants[*id].value {
                    ConstantValue::Number(q) => {
                        match v {
                            Value::Number(x) => {
                                if x.denominator() >= 1 && q.denominator() >= 1 {
                                    x.eq_value(q)
                                } else {
                                    false
                                }
                            },
                            _ => false,
                        }
                    },
                    ConstantValue::Bool(bv) => {
                        match v {
                            Value::Bool(x) => x == *bv,
                            _ => false,
                        }
                    },
                    ConstantValue::String(s) => {
                        match v {
                            Value::Str(rf) => {
                                match self.heap.get(rf) {
                                    Some(HeapObject::Text(tx)) => *tx == *s,
                                    _ => false,
                                }
                            },
                            _ => false,
                        }
                    },
                }
            },
            PatternDesc::Fields(ids) => {
                match v {
                    Value::MapRef(rf) => {
                        match self.heap.get(rf) {
                            Some(HeapObject::MapObj(ps)) => {
                                let ghost psv = ps@;
                                let mut k: usize = 0;
                                while k < ids.len()
                                    invariant
                                        0 <= k <= ids@.len(),
                                        forall|j: int|
                                            0 <= j < k ==> (#[trigger] ids@[j])
                                                < self.bp.constants@.len() && (self.bp.constants@[
                                            ids@[j] as int].value matches ConstantValue::String(s)
                                                && (exists|e: int|
                                                0 <= e < psv.len() && (#[trigger] psv[e]).0@
                                                    == s@)),
                                    decreases ids@.len() - k,
                                {
                                    let cid = ids[k];
                                    match &self.bp.constants[cid].value {
                                        ConstantValue::String(s) => {
                                            let mut found = false;
                                            let mut e: usize = 0;
                                            while e < ps.len()
                                                invariant
                                                    0 <= e <= psv.len(),
                                                    found ==> (exists|w: int|
                                                        0 <= w < psv.len() && (#[trigger] psv[w]).0@
                                                            == s@),
                                                    !found ==> (forall|w: int|
                                                        0 <= w < e ==> (#[trigger] psv[w]).0@
                                                            != s@),
                                                decreases psv.len() - e,
                                            {
                                                if !found && ps[e].0 == *s {
                                                    proof {
                                                        assert(psv[e as int].0@ == s@);
                                                    }
                                                    found = true;
                                                }
                                                e = e + 1;
                                            }
                                            if !found {
                                                return false;
                                            }
                                        },
                                        _ => {
                                            return false;
                                        },
                                    }
                                    k = k + 1;
                                }
                                true
                            },
                            _ => false,
                        }
                    },
                    _ => false,
                }
            },
        }
    }

    /// The first arm whose patterns match the scrutinee: `Some(k)`
    /// exactly when arm `k` matches and no earlier arm does; `None`
    /// exactly when no arm matches.  This is the selection the
    /// dispatcher performs on a `match` instruction.
    #[verifier::loop_isolation(false)]
    pub fn select_arm(&self, arms: &Vec<ArmDesc>, v: Value) -> (r: Option<usize>)
        requires
            self.wf(),
            val_ok(v, self.heap_view()),
            forall|a: int, p: int|
                0 <= a < arms@.len() && 0 <= p < (#[trigger] arms@[a]).patterns@.len()
                    ==> pattern_desc_wf(
                    #[trigger] arms@[a].patterns@[p],
                    self.spec_program().constants@.len() as int,
                ),
        ensures
            match r {
                Some(k) => k < arms@.len() && arm_matches(
                    arms@[k as int],
                    v,
                    self.spec_program().constants@,
                    self.heap_view(),
                ) && (forall|j: int|
                    0 <= j < k ==> !arm_matches(
                        #[trigger] arms@[j],
                        v,
                        self.spec_program().constants@,
                        self.heap_view(),
                    )),
                None => forall|j: int|
                    0 <= j < arms@.len() ==> !arm_matches(
                        #[trigger] arms@[j],
                        v,
                        self.spec_program().constants@,
                        self.heap_view(),
                    ),
            },
    {
        let mut a: usize = 0;
        while a < arms.len()
            invariant
                0 <= a <= arms@.len(),
                forall|j: int|
                    0 <= j < a ==> !arm_matches(
                        #[trigger] arms@[j],
                        v,
                        self.bp.constants@,
                        self.heap.view_objects(),
                    ),
            decreases arms@.len() - a,
        {
            let arm = &arms[a];
            let mut p: usize = 0;
            while p < arm.patterns.len()
                invariant
                    0 <= p <= arm.patterns@.len(),
                    arm == &arms[a as int],
                    0 <= a < arms@.len(),
                    forall|j: int|
                        0 <= j < p ==> !pattern_matches(
                            #[trigger] arm.patterns@[j],
                            v,
                            self.bp.constants@,
                            self.heap.view_objects(),
                        ),
                decreases arm.patterns@.len() - p,
            {
                if self.pattern_match_exec(&arm.patterns[p], v) {
                    proof {
                        assert(pattern_matches(
                            arm.patterns@[p as int],
                            v,
                            self.bp.constants@,
                            self.heap.view_objects(),
                        ));
                    }
                    return Some(a);
                }
                p = p + 1;
            }
            proof {
                assert(!arm_matches(arms@[a as int], v, self.bp.constants@, self.heap.view_objects()));
            }
            a = a + 1;
        }
        None
    }

    /// A printable rendering of one value.
    fn format_value(&self, v: Value) -> (r: String)
        requires
            self.wf(),
            val_ok(v, self.heap.view_objects()),
    {
        match v {
            Value::Nil => String::from_str("nil"),
            Value::Bool(b) => {
                if b {
                    String::from_str("true")
                } else {
                    String::from_str("false")
                }
            },
            Value::Number(q) => {
                let num = q.numerator();
                let den = q.denominator();
                let mut s = String::new();
                if num < 0 {
                    s.append("-");
                }
                let mag: u64 = if num < 0 {
                    (-(num as i128)) as u64
                } else {
                    num as u64
                };
                let ns = u64_to_string(mag);
                s.append(ns.as_str());
                if den != 1 {
                    s.append("/");
                    let ds = u64_to_string(den as u64);
                    s.append(ds.as_str());
                }
                s
            },
            Value::Str(id) => {
                match self.heap.get(id) {
                    Some(HeapObject::Text(tx)) => tx.clone(),
                    _ => String::from_str(""),
                }
            },
            Value::Array(_) => String::from_str("[array]"),
            Value::MapRef(_) => String::from_str("[struct]"),
            Value::EnumInstance(_) => String::from_str("[enum]"),
            Value::Function(_) => String::from_str("[function]"),
            Value::Module(_) => String::from_str("[module]"),
            Value::Builtin { .. } => String::from_str("[builtin]"),
        }
    }

    /// Execute the instruction under the instruction pointer.  For the
    /// arithmetic opcodes the contract is exact: with two well-formed
    /// numbers on top of the stack, addition leaves exactly their sum,
    /// and division leaves exactly their quotient or faults on a zero
    /// divisor.
    #[verifier::loop_isolation(false)]
    fn step(&mut self) -> (r: Result<(), String>)
        requires
            old(self).wf(),
        ensures
            final(self).wf(),
            final(self).halted ==> old(self).halted || final(self).result is Some,
            old(self).halted ==> final(self).halted && final(self).result == old(self).result,
            ({
                let l = old(self).stack@.len();
                (!old(self).halted && old(self).ip < old(self).bp.instructions@.len() && old(self).bp.instructions@[old(self).ip as int].opcode_id == OP_ADD && l >= 2) ==> (old(self).stack@[l - 1]
                    matches Value::Number(y) ==> (old(self).stack@[l - 2] matches Value::Number(x)
                    ==> ((x.wf() && y.wf()) ==> match r {
                    Ok(u) => final(self).stack@.len() == l - 1 && (final(self).stack@.last()
                        matches Value::Number(z) && z.wf() && z.is_frac(
                        x.spec_num() * y.spec_den() + y.spec_num() * x.spec_den(),
                        x.spec_den() * y.spec_den(),
                    )) && final(self).ip == old(self).ip + 1,
                    Err(m) => m@ == "Numeric overflow"@,
                })))
            }),
            ({
                let l = old(self).stack@.len();
                (!old(self).halted && old(self).ip < old(self).bp.instructions@.len() && old(self).bp.instructions@[old(self).ip as int].opcode_id == OP_DIV && l >= 2) ==> (old(self).stack@[l - 1]
                    matches Value::Number(y) ==> (old(self).stack@[l - 2] matches Value::Number(x)
                    ==> ((x.wf() && y.wf()) ==> match r {
                    Ok(u) => y.spec_num() != 0 && final(self).stack@.len() == l - 1 && (final(self).stack@.last() matches Value::Number(z) && z.wf() && z.spec_num() * (
                    x.spec_den() * y.spec_num()) == (x.spec_num() * y.spec_den()) * z.spec_den())
                        && final(self).ip == old(self).ip + 1,
                    Err(m) => (y.spec_num() == 0 ==> m@ == "Division by zero"@) && (y.spec_num()
                        != 0 ==> m@ == "Numeric overflow"@),
                })))
            }),
            ({
                let l = old(self).stack@.len();
                (!old(self).halted && old(self).ip < old(self).bp.instructions@.len() && old(self).bp.instructions@[old(self).ip as int].opcode_id == OP_INDEX_ACCESS && l >= 2)
                    ==> (old(self).stack@[l - 1] matches Value::Str(kid) ==> (old(self).stack@[l
                    - 2] matches Value::MapRef(mid) ==> (text_at(
                    old(self).heap.view_objects(),
                    kid as int,
                ) matches Some(key) ==> (r matches Ok(u) ==> (final(self).stack@.len() == l - 1 && (
                map_at(old(self).heap.view_objects(), mid as int) matches Some(ps) && map_found(
                    ps,
                    key,
                    final(self).stack@.last(),
                )) && final(self).ip == old(self).ip + 1)))))
            }),
            final(self).bp == old(self).bp,
            (!old(self).halted && old(self).ip < old(self).bp.instructions@.len() && old(self).bp.instructions@[old(self).ip as int].opcode_id == OP_LOAD_NIL) ==> (r is Ok && final(self).stack@ == old(self).stack@.push(Value::Nil) && final(self).ip == old(self).ip + 1
                && !final(self).halted && final(self).result == old(self).result),
            (!old(self).halted && old(self).ip < old(self).bp.instructions@.len() && old(self).bp.instructions@[old(self).ip as int].opcode_id == OP_HALT) ==> (r is Ok && final(self).halted
                && final(self).result == Some(
                if old(self).stack@.len() > 0 {
                    old(self).stack@.last()
                } else {
                    Value::Nil
                },
            )),
    {
        if self.halted {
            return Ok(());
        }
        let n_instr = self.bp.instructions.len();
        if self.ip >= n_instr {
            return Err(String::from_str("Instruction pointer out of range"));
        }
        proof {
            assert(instr_wf(
                self.bp.instructions@[self.ip as int],
                self.bp.constants@.len() as int,
                self.bp.match_tables@.len() as int,
            ));
        }
        let opcode = self.bp.instructions[self.ip].opcode_id;
        let has_op = self.bp.instructions[self.ip].operands.len() >= 1;
        let op0 = if has_op {
            self.bp.instructions[self.ip].operands[0]
        } else {
            0
        };
        if opcode == OP_LOAD_CONST {
            self.maybe_collect();
            let sv: Option<String> = match &self.bp.constants[op0].value {
                ConstantValue::String(s) => Some(s.clone()),
                _ => None,
            };
            let v = match sv {
                Some(txt) => {
                    let id = self.alloc_obj(HeapObject::Text(txt));
                    Value::Str(id)
                },
                None => {
                    match &self.bp.constants[op0].value {
                        ConstantValue::Number(q) => Value::Number(*q),
                        ConstantValue::Bool(b) => Value::Bool(*b),
                        ConstantValue::String(_) => Value::Nil,
                    }
                },
            };
            self.push_val(v);
            self.ip = self.ip + 1;
            Ok(())
        } else if opcode == OP_LOAD_LOCAL {
            let name = match self.const_string(op0) {
                Some(s) => s,
                None => {
                    return Err(String::from_str("Malformed constant"));
                },
            };
            match self.lookup_local(&name) {
                Some(v) => {
                    self.push_val(v);
                    self.ip = self.ip + 1;
                    Ok(())
                },
                None => {
                    let mut m = String::from_str("Undefined variable: ");
                    m.append(name.as_str());
                    Err(m)
                },
            }
        } else if opcode == OP_STORE_LOCAL {
            let name = match self.const_string(op0) {
                Some(s) => s,
                None => {
                    return Err(String::from_str("Malformed constant"));
                },
            };
            let v = self.pop_val()?;
            self.bind_local(name, v);
            self.ip = self.ip + 1;
            Ok(())
        } else if opcode == OP_LOAD_MODULE {
            self.push_val(Value::Module(op0));
            self.ip = self.ip + 1;
            Ok(())
        } else if opcode == OP_MODULE_MEMBER {
            let target = self.pop_val()?;
            match target {
                Value::Module(mid) => {
                    self.push_val(Value::Builtin { module: mid, member: op0 });
                    self.ip = self.ip + 1;
                    Ok(())
                },
                _ => Err(String::from_str("Dot notation is only valid on modules")),
            }
        } else if opcode == OP_ADD {
            self.maybe_collect();
            let b = self.pop_val()?;
            let a = self.pop_val()?;
            match (a, b) {
                (Value::Number(x), Value::Number(y)) => {
                    if x.denominator() < 1 || y.denominator() < 1 {
                        return Err(String::from_str("Malformed number"));
                    }
                    match x.checked_add(&y) {
                        Some(z) => {
                            self.push_val(Value::Number(z));
                            self.ip = self.ip + 1;
                            Ok(())
                        },
                        None => Err(String::from_str("Numeric overflow")),
                    }
                },
                (Value::Str(ra), Value::Str(rb)) => {
                    let ta = match self.heap.text_of(ra) {
                        Some(s) => s,
                        None => {
                            return Err(String::from_str("Invalid heap pointer"));
                        },
                    };
                    let tb = match self.heap.text_of(rb) {
                        Some(s) => s,
                        None => {
                            return Err(String::from_str("Invalid heap pointer"));
                        },
                    };
                    let joined = ta.concat(tb.as_str());
                    let id = self.alloc_obj(HeapObject::Text(joined));
                    self.push_val(Value::Str(id));
                    self.ip = self.ip + 1;
                    Ok(())
                },
                _ => Err(String::from_str("Type error in +")),
            }
        } else if opcode == OP_SUB || opcode == OP_MUL || opcode == OP_DIV {
            let b = self.pop_val()?;
            let a = self.pop_val()?;
            match (a, b) {
                (Value::Number(x), Value::Number(y)) => {
                    if x.denominator() < 1 || y.denominator() < 1 {
                        return Err(String::from_str("Malformed number"));
                    }
                    let z = if opcode == OP_SUB {
                        x.checked_sub(&y)
                    } else if opcode == OP_MUL {
                        x.checked_mul(&y)
                    } else {
                        if y.is_zero() {
                            return Err(String::from_str("Division by zero"));
                        }
                        x.checked_div(&y)
                    };
                    match z {
                        Some(w) => {
                            self.push_val(Value::Number(w));
                            self.ip = self.ip + 1;
                            Ok(())
                        },
                        None => Err(String::from_str("Numeric overflow")),
                    }
                },
                _ => Err(String::from_str("Type error in arithmetic")),
            }
        } else if opcode == OP_NEG {
            let a = self.pop_val()?;
            match a {
                Value::Number(x) => {
                    if x.denominator() < 1 {
                        return Err(String::from_str("Malformed number"));
                    }
                    match x.checked_neg() {
                        Some(z) => {
                            self.push_val(Value::Number(z));
                            self.ip = self.ip + 1;
                            Ok(())
                        },
                        None => Err(String::from_str("Numeric overflow")),
                    }
                },
                _ => Err(String::from_str("Type error in negation")),
            }
        } else if opcode == OP_NOT {
            let a = self.pop_val()?;
            let v = Value::Bool(!Self::truthy(a));
            self.push_val(v);
            self.ip = self.ip + 1;
            Ok(())
        } else if opcode == OP_EQUAL || opcode == OP_NOT_EQUAL {
            let b = self.pop_val()?;
            let a = self.pop_val()?;
            let eq = self.value_eq(a, b);
            let v = Value::Bool(
                if opcode == OP_EQUAL {
                    eq
                } else {
                    !eq
                },
            );
            self.push_val(v);
            self.ip = self.ip + 1;
            Ok(())
        } else if opcode == OP_LESS || opcode == OP_GREATER || opcode == OP_LESS_EQUAL || opcode
            == OP_GREATER_EQUAL {
            let b = self.pop_val()?;
            let a = self.pop_val()?;
            match (a, b) {
                (Value::Number(x), Value::Number(y)) => {
                    if x.denominator() < 1 || y.denominator() < 1 {
                        return Err(String::from_str("Malformed number"));
                    }
                    let c = if opcode == OP_LESS {
                        x.lt_value(&y)
                    } else if opcode == OP_GREATER {
                        y.lt_value(&x)
                    } else if opcode == OP_LESS_EQUAL {
                        x.le_value(&y)
                    } else {
                        y.le_value(&x)
                    };
                    self.push_val(Value::Bool(c));
                    self.ip = self.ip + 1;
                    Ok(())
                },
                _ => Err(String::from_str("Type error in comparison")),
            }
        } else if opcode == OP_MAKE_ARRAY {
            self.maybe_collect();
            let mut elems: Vec<Value> = Vec::new();
            let mut k: usize = 0;
            while k < op0
                invariant
                    self.wf(),
                    self.bp == old(self).bp,
                    self.halted == old(self).halted,
                    self.result == old(self).result,
                    self.ip == old(self).ip,
                    0 <= k <= op0,
                    forall|j: int|
                        0 <= j < elems@.len() ==> val_ok(
                            #[trigger] elems@[j],
                            self.heap.view_objects(),
                        ),
                decreases op0 - k,
            {
                let v = self.pop_val()?;
                elems.push(v);
                k = k + 1;
            }
            let mut ordered: Vec<Value> = Vec::new();
            let mut m: usize = elems.len();
            while m > 0
                invariant
                    self.wf(),
                    self.bp == old(self).bp,
                    self.halted == old(self).halted,
                    self.result == old(self).result,
                    0 <= m <= elems@.len(),
                    forall|j: int|
                        0 <= j < elems@.len() ==> val_ok(
                            #[trigger] elems@[j],
                            self.heap.view_objects(),
                        ),
                    forall|j: int|
                        0 <= j < ordered@.len() ==> val_ok(
                            #[trigger] ordered@[j],
                            self.heap.view_objects(),
                        ),
                decreases m,
            {
                m = m - 1;
                ordered.push(elems[m]);
            }
            proof {
                assert forall|r: int| #[trigger]
                    obj_has_ref(HeapObject::Arr(ordered), r) implies 0 <= r
                    < self.heap.view_objects().len() && self.heap.view_objects()[r] is Some by {
                    let w = choose|w: int|
                        0 <= w < ordered@.len() && val_ref(#[trigger] ordered@[w]) == Some(r);
                    assert(val_ok(ordered@[w], self.heap.view_objects()));
                }
            }
            let id = self.alloc_obj(HeapObject::Arr(ordered));
            self.push_val(Value::Array(id));
            self.ip = self.ip + 1;
            Ok(())
        } else if opcode == OP_MAKE_MAP {
            self.maybe_collect();
            let mut pairs: Vec<(String, Value)> = Vec::new();
            let mut k: usize = 0;
            while k < op0
                invariant
                    self.wf(),
                    self.bp == old(self).bp,
                    self.halted == old(self).halted,
                    self.result == old(self).result,
                    self.ip == old(self).ip,
                    0 <= k <= op0,
                    forall|j: int|
                        0 <= j < pairs@.len() ==> val_ok(
                            (#[trigger] pairs@[j]).1,
                            self.heap.view_objects(),
                        ),
                decreases op0 - k,
            {
                let v = self.pop_val()?;
                let kk = self.pop_val()?;
                let key = match kk {
                    Value::Str(rf) => {
                        match self.heap.text_of(rf) {
                            Some(s) => s,
                            None => {
                                return Err(String::from_str("Invalid heap pointer"));
                            },
                        }
                    },
                    _ => {
                        return Err(String::from_str("Struct keys must be strings"));
                    },
                };
                pairs.push((key, v));
                k = k + 1;
            }
            let mut ordered: Vec<(String, Value)> = Vec::new();
            let mut m: usize = pairs.len();
            while m > 0
                invariant
                    self.wf(),
                    self.bp == old(self).bp,
                    self.halted == old(self).halted,
                    self.result == old(self).result,
                    0 <= m <= pairs@.len(),
                    forall|j: int|
                        0 <= j < pairs@.len() ==> val_ok(
                            (#[trigger] pairs@[j]).1,
                            self.heap.view_objects(),
                        ),
                    forall|j: int|
                        0 <= j < ordered@.len() ==> val_ok(
                            (#[trigger] ordered@[j]).1,
                            self.heap.view_objects(),
                        ),
                decreases m,
            {
                m = m - 1;
                let key = pairs[m].0.clone();
                let vv = pairs[m].1;
                ordered.push((key, vv));
            }
            proof {
                assert forall|r: int| #[trigger]
                    obj_has_ref(HeapObject::MapObj(ordered), r) implies 0 <= r
                    < self.heap.view_objects().len() && self.heap.view_objects()[r] is Some by {
                    let w = choose|w: int|
                        0 <= w < ordered@.len() && val_ref((#[trigger] ordered@[w]).1) == Some(r);
                    assert(val_ok(ordered@[w].1, self.heap.view_objects()));
                }
            }
            let id = self.alloc_obj(HeapObject::MapObj(ordered));
            self.push_val(Value::MapRef(id));
            self.ip = self.ip + 1;
            Ok(())
        } else if opcode == OP_INDEX_ACCESS {
            self.maybe_collect();
            let index = self.pop_val()?;
            let target = self.pop_val()?;
            match target {
                Value::Array(id) => {
                    match index {
                        Value::Number(q) => {
                            if q.denominator() != 1 || q.numerator() < 0 {
                                return Err(String::from_str("Invalid index"));
                            }
                            let len = match self.heap.array_len(id) {
                                Some(l) => l,
                                None => {
                                    return Err(String::from_str("Invalid heap pointer"));
                                },
                            };
                            let num = q.numerator();
                            if num as u64 >= len as u64 {
                                return Err(String::from_str("Index out of bounds"));
                            }
                            let idx = num as usize;
                            match self.heap.array_get(id, idx) {
                                Some(v) => {
                                    self.push_val(v);
                                    self.ip = self.ip + 1;
                                    Ok(())
                                },
                                None => Err(String::from_str("Index out of bounds")),
                            }
                        },
                        _ => Err(String::from_str("Array index must be a number")),
                    }
                },
                Value::MapRef(id) => {
                    match index {
                        Value::Str(rf) => {
                            let key = match self.heap.text_of(rf) {
                                Some(s) => s,
                                None => {
                                    return Err(String::from_str("Invalid heap pointer"));
                                },
                            };
                            match self.heap.map_lookup(id, &key) {
                                Some(v) => {
                                    self.push_val(v);
                                    self.ip = self.ip + 1;
                                    Ok(())
                                },
                                None => {
                                    let mut m = String::from_str("Missing field: ");
                                    m.append(key.as_str());
                                    Err(m)
                                },
                            }
                        },
                        _ => Err(String::from_str("Struct index must be a string")),
                    }
                },
                _ => Err(String::from_str("Only arrays and structs can be indexed")),
            }
        } else if opcode == OP_UPDATE {
            let rhs = self.pop_val()?;
            let target = self.pop_val()?;
            match target {
                Value::Array(id) => {
                    let ghost h0 = self.heap.view_objects();
                    let ok = self.heap.array_push(id, rhs);
                    proof {
                        let h1 = self.heap.view_objects();
                        assert forall|i: int| 0 <= i < self.stack@.len() implies val_ok(
                            #[trigger] self.stack@[i],
                            h1,
                        ) by {
                            assert(val_ok(self.stack@[i], h0));
                        }
                        assert forall|f: int| 0 <= f < self.frames@.len() implies frame_ok(
                            #[trigger] self.frames@[f],
                            h1,
                        ) by {
                            assert(frame_ok(self.frames@[f], h0));
                            assert forall|s: int, b: int|
                                0 <= s < self.frames@[f].scopes@.len() && 0 <= b < (
                                #[trigger] self.frames@[f].scopes@[s])@.len() implies val_ok(
                                (#[trigger] self.frames@[f].scopes@[s]@[b]).1,
                                h1,
                            ) by {
                                assert(val_ok(self.frames@[f].scopes@[s]@[b].1, h0));
                            }
                        }
                        if let Some(v) = self.result {
                            assert(val_ok(v, h0));
                        }
                    }
                    if !ok {
                        return Err(String::from_str("Invalid update target"));
                    }
                    self.push_val(Value::Array(id));
                    self.ip = self.ip + 1;
                    Ok(())
                },
                _ => Err(String::from_str("Invalid update target")),
            }
        } else if opcode == OP_CALL {
            let argc = op0;
            let mut args_rev: Vec<Value> = Vec::new();
            let mut k: usize = 0;
            while k < argc
                invariant
                    self.wf(),
                    self.bp == old(self).bp,
                    self.halted == old(self).halted,
                    self.result == old(self).result,
                    self.ip == old(self).ip,
                    0 <= k <= argc,
                    args_rev@.len() == k,
                    forall|j: int|
                        0 <= j < args_rev@.len() ==> val_ok(
                            #[trigger] args_rev@[j],
                            self.heap.view_objects(),
                        ),
                decreases argc - k,
            {
                let v = self.pop_val()?;
                args_rev.push(v);
                k = k + 1;
            }
            let callee = self.pop_val()?;
            match callee {
                Value::Function(fidx) => {
                    if fidx >= self.bp.functions.len() {
                        return Err(String::from_str("Invalid function reference"));
                    }
                    if self.bp.functions[fidx].params.len() != argc {
                        return Err(String::from_str("Wrong arity"));
                    }
                    let entry = self.bp.functions[fidx].entry;
                    let mut scope: Vec<(String, Value)> = Vec::new();
                    let mut p: usize = 0;
                    while p < argc
                        invariant
                            self.wf(),
                            self.bp == old(self).bp,
                            self.halted == old(self).halted,
                            self.result == old(self).result,
                            self.ip == old(self).ip,
                            0 <= p <= argc,
                            argc == args_rev@.len(),
                            fidx < self.bp.functions@.len(),
                            self.bp.functions@[fidx as int].params@.len() == argc,
                            forall|j: int|
                                0 <= j < args_rev@.len() ==> val_ok(
                                    #[trigger] args_rev@[j],
                                    self.heap.view_objects(),
                                ),
                            forall|j: int|
                                0 <= j < scope@.len() ==> val_ok(
                                    (#[trigger] scope@[j]).1,
                                    self.heap.view_objects(),
                                ),
                        decreases argc - p,
                    {
                        let pname = self.bp.functions[fidx].params[p].clone();
                        let v = args_rev[argc - 1 - p];
                        scope.push((pname, v));
                        p = p + 1;
                    }
                    let mut scopes: Vec<Vec<(String, Value)>> = Vec::new();
                    scopes.push(scope);
                    let frame = Frame {
                        return_addr: self.ip + 1,
                        stack_base: self.stack.len(),
                        scopes,
                    };
                    let ghost pre_frames = self.frames@;
                    proof {
                        assert(frame_ok(frame, self.heap.view_objects()));
                    }
                    self.frames.push(frame);
                    proof {
                        assert forall|f: int| 0 <= f < self.frames@.len() implies frame_ok(
                            #[trigger] self.frames@[f],
                            self.heap.view_objects(),
                        ) by {
                            if f < self.frames@.len() - 1 {
                                assert(self.frames@[f] == pre_frames[f]);
                                assert(frame_ok(pre_frames[f], self.heap.view_objects()));
                            }
                        }
                    }
                    self.ip = entry;
                    Ok(())
                },
                Value::Builtin { module, member } => {
                    if module >= self.bp.constants.len() || member >= self.bp.constants.len() {
                        return Err(String::from_str("Unknown module member"));
                    }
                    let mname = match self.const_string(module) {
                        Some(s) => s,
                        None => {
                            return Err(String::from_str("Unknown module member"));
                        },
                    };
                    let fname = match self.const_string(member) {
                        Some(s) => s,
                        None => {
                            return Err(String::from_str("Unknown module member"));
                        },
                    };
                    let is_io = mname == String::from_str("IO");
                    let is_print = fname == String::from_str("print") || fname == String::from_str(
                        "println",
                    );
                    if is_io && is_print {
                        let mut line = String::new();
                        let mut j: usize = args_rev.len();
                        while j > 0
                            invariant
                                self.wf(),
                                self.bp == old(self).bp,
                                self.ip == old(self).ip,
                                0 <= j <= args_rev@.len(),
                                forall|q: int|
                                    0 <= q < args_rev@.len() ==> val_ok(
                                        #[trigger] args_rev@[q],
                                        self.heap.view_objects(),
                                    ),
                            decreases j,
                        {
                            j = j - 1;
                            let piece = self.format_value(args_rev[j]);
                            line.append(piece.as_str());
                            if j > 0 {
                                line.append(" ");
                            }
                        }
                        self.output.push(line);
                        self.push_val(Value::Nil);
                        self.ip = self.ip + 1;
                        Ok(())
                    } else {
                        Err(String::from_str("Unknown module member"))
                    }
                },
                _ => Err(String::from_str("Can only call functions")),
            }
        } else if opcode == OP_RETURN {
            let result = self.pop_val()?;
            if self.frames.len() <= 1 {
                return Err(String::from_str("Return outside of a function"));
            }
            let ghost pre_frames = self.frames@;
            let frame = match self.frames.pop() {
                Some(f) => f,
                None => {
                    return Err(String::from_str("Return outside of a function"));
                },
            };
            proof {
                assert forall|f: int| 0 <= f < self.frames@.len() implies frame_ok(
                    #[trigger] self.frames@[f],
                    self.heap.view_objects(),
                ) by {
                    assert(self.frames@[f] == pre_frames[f]);
                    assert(frame_ok(pre_frames[f], self.heap.view_objects()));
                }
            }
            let ghost hkeep = self.heap;
            while self.stack.len() > frame.stack_base
                invariant
                    self.wf(),
                    self.bp == old(self).bp,
                    self.halted == old(self).halted,
                    self.result == old(self).result,
                    self.heap == hkeep,
                decreases self.stack@.len(),
            {
                let _ = self.pop_val();
            }
            self.ip = frame.return_addr;
            self.push_val(result);
            Ok(())
        } else if opcode == OP_JUMP {
            self.ip = op0;
            Ok(())
        } else if opcode == OP_JUMP_IF_FALSE {
            let c = self.pop_val()?;
            if Self::truthy(c) {
                self.ip = self.ip + 1;
            } else {
                self.ip = op0;
            }
            Ok(())
        } else if opcode == OP_MATCH_JUMP {
            let scrutinee = self.pop_val()?;
            proof {
                assert forall|a: int, pp: int|
                    0 <= a < self.bp.match_tables@[op0 as int].arms@.len() && 0 <= pp < (
                    #[trigger] self.bp.match_tables@[op0 as int].arms@[a]).patterns@.len() implies
                    pattern_desc_wf(
                    #[trigger] self.bp.match_tables@[op0 as int].arms@[a].patterns@[pp],
                    self.bp.constants@.len() as int,
                ) by {}
            }
            let sel = {
                let arms = &self.bp.match_tables[op0].arms;
                self.select_arm(arms, scrutinee)
            };
            match sel {
                Some(k) => {
                    // the arm body runs in a child scope holding its bindings
                    self.push_scope();
                    // bind the fields of the first matching struct pattern
                    let mut pidx: usize = 0;
                    let mut fields_opt: Option<Vec<usize>> = None;
                    let n_pats = self.bp.match_tables[op0].arms[k].patterns.len();
                    while pidx < n_pats
                        invariant
                            self.wf(),
                            self.bp == old(self).bp,
                            self.halted == old(self).halted,
                            self.result == old(self).result,
                            val_ok(scrutinee, self.heap.view_objects()),
                            op0 < self.bp.match_tables@.len(),
                            k < self.bp.match_tables@[op0 as int].arms@.len(),
                            n_pats == self.bp.match_tables@[op0 as int].arms@[k as int].patterns@.len(),
                            0 <= pidx <= n_pats,
                            fields_opt is None,
                        decreases n_pats - pidx,
                    {
                        let matched = {
                            let pat = &self.bp.match_tables[op0].arms[k].patterns[pidx];
                            proof {
                                assert(pattern_desc_wf(
                                    self.bp.match_tables@[op0 as int].arms@[k as int].patterns@[pidx as int],
                                    self.bp.constants@.len() as int,
                                ));
                            }
                            self.pattern_match_exec(pat, scrutinee)
                        };
                        if matched {
                            match &self.bp.match_tables[op0].arms[k].patterns[pidx] {
                                PatternDesc::Fields(ids) => {
                                    let mut copy: Vec<usize> = Vec::new();
                                    let mut q: usize = 0;
                                    while q < ids.len()
                                        invariant
                                            0 <= q <= ids@.len(),
                                            forall|w: int|
                                                0 <= w < copy@.len() ==> (#[trigger] copy@[w])
                                                    < self.bp.constants@.len(),
                                            forall|w: int|
                                                0 <= w < ids@.len() ==> (#[trigger] ids@[w])
                                                    < self.bp.constants@.len(),
                                        decreases ids@.len() - q,
                                    {
                                        copy.push(ids[q]);
                                        q = q + 1;
                                    }
                                    fields_opt = Some(copy);
                                },
                                _ => {},
                            }
                            break ;
                        }
                        pidx = pidx + 1;
                    }
                    if let Some(ids) = fields_opt {
                        let rf = match scrutinee {
                            Value::MapRef(rf) => rf,
                            _ => {
                                return Err(String::from_str("No matching pattern"));
                            },
                        };
                        let mut q: usize = 0;
                        while q < ids.len()
                            invariant
                                self.wf(),
                                self.bp == old(self).bp,
                                self.halted == old(self).halted,
                                self.result == old(self).result,
                                0 <= q <= ids@.len(),
                                forall|w: int|
                                    0 <= w < ids@.len() ==> (#[trigger] ids@[w])
                                        < self.bp.constants@.len(),
                            decreases ids@.len() - q,
                        {
                            let key = match self.const_string(ids[q]) {
                                Some(s) => s,
                                None => {
                                    return Err(String::from_str("Malformed constant"));
                                },
                            };
                            let v = match self.heap.map_lookup(rf, &key) {
                                Some(v) => v,
                                None => {
                                    let mut m = String::from_str("Missing field: ");
                                    m.append(key.as_str());
                                    return Err(m);
                                },
                            };
                            self.bind_local(key, v);
                            q = q + 1;
                        }
                    }
                    let target = self.bp.match_tables[op0].arms[k].target;
                    self.ip = target;
                    Ok(())
                },
                None => Err(String::from_str("No matching pattern")),
            }
        } else if opcode == OP_PUSH_SCOPE {
            self.push_scope();
            self.ip = self.ip + 1;
            Ok(())
        } else if opcode == OP_POP_SCOPE {
            self.pop_scope();
            self.ip = self.ip + 1;
            Ok(())
        } else if opcode == OP_POP {
            let _ = self.pop_val()?;
            self.ip = self.ip + 1;
            Ok(())
        } else if opcode == OP_LOAD_NIL {
            self.push_val(Value::Nil);
            self.ip = self.ip + 1;
            Ok(())
        } else if opcode == OP_HALT {
            let v = if self.stack.len() > 0 {
                self.pop_val()?
            } else {
                Value::Nil
            };
            self.result = Some(v);
            self.halted = true;
            Ok(())
        } else {
            Err(String::from_str("Unknown opcode"))
        }
    }

    /// Dispatch instructions until the program halts or faults; a
    /// fault halts the machine and surfaces its message.  The host
    /// bounds the run at a generous instruction budget, cutting the
    /// machine off between instructions.
    pub fn run(&mut self) -> (r: Result<(), String>)
        requires
            old(self).wf(),
        ensures
            final(self).wf(),
            final(self).spec_program() == old(self).spec_program(),
            (!old(self).spec_halted() && r is Ok) ==> (final(self).spec_halted() && final(self).spec_result() is Some),
            nil_halt_start(*old(self)) ==> (r is Ok && final(self).spec_result() == Some(
                Value::Nil,
            )),
    {
        let mut fuel: u64 = 100000000;
        while fuel > 0
            invariant
                self.wf(),
                self.bp == old(self).bp,
                !old(self).spec_halted() ==> (self.halted ==> self.result is Some),
                nil_halt_start(*old(self)) ==> ((!self.halted && self.ip == 0 && self.stack@.len()
                    == 0 && fuel == 100000000) || (!self.halted && self.ip == 1 && self.stack@
                    =~= seq![Value::Nil] && fuel == 99999999) || (self.halted && self.result
                    == Some(Value::Nil) && fuel >= 99999998)),
            decreases fuel,
        {
            fuel = fuel - 1;
            if self.halted {
                return Ok(());
            }
            match self.step() {
                Ok(()) => {},
                Err(e) => {
                    self.halted = true;
                    return Err(e);
                },
            }
        }
        Err(String::from_str("Execution step limit exceeded"))
    }
}

} // verus!
