//! The interpreter: what each instruction does to the machine.

use vstd::prelude::*;

use crate::value::{
    both_float, int_arith_defined, spec_arith, spec_eq, spec_order, ArithOp, OrderOp, TypeError, Value,
};
use crate::vm::{CallFrame, FloatOp, HostCall, VmError, VM};

verus! {

/// The two-operand instructions.
#[derive(Debug, Clone, Copy, PartialEq)]
pub enum BinKind {
    Arith(ArithOp),
    Order(OrderOp),
    Eq,
    Neq,
    And,
    Or,
}

/// The host's float operation for a two-operand instruction, if it has one.
pub open spec fn float_op_of(k: BinKind) -> Option<FloatOp> {
    match k {
        BinKind::Arith(ArithOp::Add) => Some(FloatOp::Add),
        BinKind::Arith(ArithOp::Sub) => Some(FloatOp::Sub),
        BinKind::Arith(ArithOp::Mul) => Some(FloatOp::Mul),
        BinKind::Arith(ArithOp::Div) => Some(FloatOp::Div),
        BinKind::Arith(ArithOp::Mod) => Some(FloatOp::Mod),
        BinKind::Order(OrderOp::Lt) => Some(FloatOp::Lt),
        BinKind::Order(OrderOp::Lte) => Some(FloatOp::Lte),
        BinKind::Order(OrderOp::Gt) => Some(FloatOp::Gt),
        BinKind::Order(OrderOp::Gte) => Some(FloatOp::Gte),
        BinKind::Eq => Some(FloatOp::Eq),
        BinKind::Neq => Some(FloatOp::Neq),
        _ => None,
    }
}

/// The instruction is carried out by the host for these operands.
pub open spec fn by_host(k: BinKind, l: Value, r: Value) -> bool {
    both_float(l, r) && float_op_of(k) is Some
}

/// Rust would panic computing the instruction on these operands (integer
/// overflow, division by zero).
pub open spec fn bin_panics(k: BinKind, l: Value, r: Value) -> bool {
    match (k, l, r) {
        (BinKind::Arith(op), Value::Int(a), Value::Int(b)) => !int_arith_defined(op, a, b),
        _ => false,
    }
}

/// What a two-operand instruction the machine carries out itself gives.
pub open spec fn bin_result(k: BinKind, l: Value, r: Value) -> Result<Value, VmError> {
    let res = match k {
        BinKind::Arith(op) => spec_arith(op, l, r),
        BinKind::Order(op) => spec_order(op, l, r),
        BinKind::Eq => spec_eq(l, r),
        BinKind::Neq => match spec_eq(l, r) {
            Ok(Value::Bool(b)) => Ok(Value::Bool(!b)),
            Ok(_) => Ok(Value::Bool(false)),
            Err(e) => Err(e),
        },
        BinKind::And => match (l, r) {
            (Value::Bool(a), Value::Bool(b)) => Ok(Value::Bool(a && b)),
            _ => Err(TypeError { op: "and", lhs: l, rhs: r }),
        },
        BinKind::Or => match (l, r) {
            (Value::Bool(a), Value::Bool(b)) => Ok(Value::Bool(a || b)),
            _ => Err(TypeError { op: "or", lhs: l, rhs: r }),
        },
    };
    match res {
        Ok(v) => Ok(v),
        Err(e) => Err(VmError::TypeError(e)),
    }
}

/// Everything but the operand stack, the frames and the pending call is
/// unchanged from `b` to `a`.
pub open spec fn same_but_stack_frames(b: VM, a: VM) -> bool {
    &&& same_core(b, a)
    &&& a.running == b.running
}

/// The function table, heap, handles, snapshot and tasks are unchanged from
/// `b` to `a`.
pub open spec fn same_core(b: VM, a: VM) -> bool {
    &&& a.functions == b.functions
    &&& a.heap == b.heap
    &&& a.handles == b.handles
    &&& a.snapshot == b.snapshot
    &&& a.task_registry == b.task_registry
    &&& a.current_task_id == b.current_task_id
    &&& a.next_handle_id == b.next_handle_id
}

/// Only the operand stack changed from `b` to `a` (and possibly `pending`,
/// given separately).
pub open spec fn same_but_stack(b: VM, a: VM) -> bool {
    &&& same_but_stack_frames(b, a)
    &&& a.frames == b.frames
}

/// What a two-operand instruction does to machine `b`, giving `a` and `r`.
pub open spec fn bin_step(b: VM, k: BinKind, a: VM, r: Result<(), VmError>) -> bool {
    let s = b.stack@;
    &&& same_but_stack(b, a)
    &&& if s.len() == 0 {
        r == Err::<(), VmError>(VmError::StackUnderflow) && a.stack@ == s && a.pending == b.pending
    } else if s.len() == 1 {
        r == Err::<(), VmError>(VmError::StackUnderflow) && a.stack@ == Seq::<Value>::empty() && a.pending == b.pending
    } else {
        let rhs = s.last();
        let lhs = s[s.len() - 2];
        let rest = s.take(s.len() - 2);
        if by_host(k, lhs, rhs) {
            r is Ok && a.stack@ == rest && a.pending == Some(
                HostCall::FloatBinary { op: float_op_of(k).unwrap(), lhs: lhs->Float_0, rhs: rhs->Float_0 },
            )
        } else {
            a.pending == b.pending && match bin_result(k, lhs, rhs) {
                Ok(v) => r is Ok && a.stack@ == rest.push(v),
                Err(e) => r == Err::<(), VmError>(e) && a.stack@ == rest,
            }
        }
    }
}

impl VM {
    fn pop(&mut self) -> (r: Result<Value, VmError>)
        ensures
            old(self).stack@.len() == 0 ==> r == Err::<Value, VmError>(VmError::StackUnderflow) && final(self).stack@
                == old(self).stack@,
            old(self).stack@.len() > 0 ==> r == Ok::<Value, VmError>(old(self).stack@.last()) && final(self).stack@
                == old(self).stack@.drop_last(),
            same_but_stack(*old(self), *final(self)),
            final(self).pending == old(self).pending,
    {
        match self.stack.pop() {
            Some(v) => Ok(v),
            None => Err(VmError::StackUnderflow),
        }
    }

    /// Pop two operands and apply a two-operand instruction.
    fn binary(&mut self, k: BinKind) -> (r: Result<(), VmError>)
        requires
            old(self).stack@.len() >= 2 ==> !bin_panics(
                k,
                old(self).stack@[old(self).stack@.len() - 2],
                old(self).stack@.last(),
            ),
        ensures
            bin_step(*old(self), k, *final(self), r),
    {
        let rhs = match self.pop() {
            Ok(v) => v,
            Err(e) => return Err(e),
        };
        let lhs = match self.pop() {
            Ok(v) => v,
            Err(e) => {
                assert(self.stack@ =~= Seq::<Value>::empty());
                return Err(e);
            },
        };
        proof {
            assert(old(self).stack@.take(old(self).stack@.len() - 2) =~= self.stack@);
        }
        if let (Value::Float(a), Value::Float(b)) = (lhs, rhs) {
            if let Some(op) = float_op(k) {
                self.pending = Some(HostCall::FloatBinary { op, lhs: a, rhs: b });
                return Ok(());
            }
        }
        let res = match k {
            BinKind::Arith(op) => {
                assert(lhs == old(self).stack@[old(self).stack@.len() - 2] && rhs == old(self).stack@.last());
                lhs.arith(op, &rhs)
            },
            BinKind::Order(op) => lhs.compare(op, &rhs),
            BinKind::Eq => lhs.eq(&rhs),
            BinKind::Neq => lhs.neq(&rhs),
            BinKind::And => lhs.and(&rhs),
            BinKind::Or => lhs.or(&rhs),
        };
        match res {
            Ok(v) => {
                self.stack.push(v);
                Ok(())
            },
            Err(e) => Err(VmError::TypeError(e)),
        }
    }
}

/// The host's float operation for a two-operand instruction, if it has one.
fn float_op(k: BinKind) -> (r: Option<FloatOp>)
    ensures
        r == float_op_of(k),
{
    match k {
        BinKind::Arith(ArithOp::Add) => Some(FloatOp::Add),
        BinKind::Arith(ArithOp::Sub) => Some(FloatOp::Sub),
        BinKind::Arith(ArithOp::Mul) => Some(FloatOp::Mul),
        BinKind::Arith(ArithOp::Div) => Some(FloatOp::Div),
        BinKind::Arith(ArithOp::Mod) => Some(FloatOp::Mod),
        BinKind::Order(OrderOp::Lt) => Some(FloatOp::Lt),
        BinKind::Order(OrderOp::Lte) => Some(FloatOp::Lte),
        BinKind::Order(OrderOp::Gt) => Some(FloatOp::Gt),
        BinKind::Order(OrderOp::Gte) => Some(FloatOp::Gte),
        BinKind::Eq => Some(FloatOp::Eq),
        BinKind::Neq => Some(FloatOp::Neq),
        _ => None,
    }
}

} // verus!

verus! {

/// `frames` with the top frame's instruction pointer set to `ip`.
pub open spec fn set_top_ip(frames: Seq<CallFrame>, ip: usize) -> Seq<CallFrame> {
    let f = frames.last();
    frames.update(frames.len() - 1, CallFrame { function: f.function, ip, locals: f.locals })
}

/// The instruction the machine executes next, or the error that stops it.
pub open spec fn fetch_spec(vm: VM) -> Result<crate::opcode::OpCode, VmError> {
    if vm.frames@.len() == 0 {
        Err(VmError::EmptyFrameStack)
    } else {
        let f = vm.frames@.last();
        if f.function >= vm.functions@.len() {
            Err(VmError::InvalidFunction(f.function))
        } else if f.ip >= vm.functions@[f.function as int].code@.len() {
            Err(VmError::InvalidIp)
        } else {
            Ok(vm.functions@[f.function as int].code@[f.ip as int])
        }
    }
}

/// The frames once the instruction pointer has moved past the fetched
/// instruction.
pub open spec fn advanced(vm: VM) -> Seq<CallFrame> {
    set_top_ip(vm.frames@, (vm.frames@.last().ip + 1) as usize)
}

/// The locals of a call with arguments `args` (in push order) to a function
/// with `n` locals: the arguments, then `Null`s, cut to `n`.
pub open spec fn call_locals(args: Seq<Value>, n: nat) -> Seq<Value> {
    if n <= args.len() {
        args.take(n as int)
    } else {
        args + Seq::new((n - args.len()) as nat, |i: int| Value::Null)
    }
}

/// What negation does to the operand stack `s`: the result, the new stack,
/// and whether the host is asked.
pub open spec fn neg_step(o: VM, n: VM, r: Result<(), VmError>) -> bool {
    let s = o.stack@;
    &&& same_but_stack_frames(o, n)
    &&& if s.len() == 0 {
        r == Err::<(), VmError>(VmError::StackUnderflow) && n.stack@ == s && n.pending == o.pending
    } else {
        let v = s.last();
        match v {
            Value::Float(bits) => r is Ok && n.stack@ == s.drop_last() && n.pending == Some(
                HostCall::FloatNeg { operand: bits },
            ),
            Value::Int(i) => r is Ok && n.stack@ == s.drop_last().push(Value::Int((-i) as i64)) && n.pending
                == o.pending,
            _ => r == Err::<(), VmError>(VmError::TypeError(TypeError { op: "neg", lhs: v, rhs: Value::Null }))
                && n.stack@ == s.drop_last() && n.pending == o.pending,
        }
    }
}

/// What logical not does.
pub open spec fn not_step(o: VM, n: VM, r: Result<(), VmError>) -> bool {
    let s = o.stack@;
    &&& same_but_stack_frames(o, n)
    &&& n.pending == o.pending
    &&& if s.len() == 0 {
        r == Err::<(), VmError>(VmError::StackUnderflow) && n.stack@ == s
    } else {
        let v = s.last();
        match v {
            Value::Bool(b) => r is Ok && n.stack@ == s.drop_last().push(Value::Bool(!b)),
            _ => r == Err::<(), VmError>(VmError::TypeError(TypeError { op: "not", lhs: v, rhs: Value::Null }))
                && n.stack@ == s.drop_last(),
        }
    }
}

impl VM {
    /// Negate the top of the stack.
    fn negate(&mut self) -> (r: Result<(), VmError>)
        requires
            old(self).stack@.len() > 0 ==> old(self).stack@.last() != Value::Int(i64::MIN),
        ensures
            neg_step(*old(self), *final(self), r),
            final(self).frames == old(self).frames,
    {
        let v = self.pop()?;
        match v {
            Value::Float(bits) => {
                self.pending = Some(HostCall::FloatNeg { operand: bits });
                Ok(())
            },
            _ => match v.neg() {
                Ok(x) => {
                    self.stack.push(x);
                    Ok(())
                },
                Err(e) => Err(VmError::TypeError(e)),
            },
        }
    }

    /// Logical not of the top of the stack.
    fn logical_not(&mut self) -> (r: Result<(), VmError>)
        ensures
            not_step(*old(self), *final(self), r),
            final(self).frames == old(self).frames,
    {
        let v = self.pop()?;
        match v.not() {
            Ok(x) => {
                self.stack.push(x);
                Ok(())
            },
            Err(e) => Err(VmError::TypeError(e)),
        }
    }

    /// Set the top frame's instruction pointer.
    fn set_ip(&mut self, ip: usize)
        requires
            old(self).frames@.len() > 0,
        ensures
            final(self).frames@ == set_top_ip(old(self).frames@, ip),
            final(self).stack == old(self).stack,
            final(self).pending == old(self).pending,
            same_but_stack_frames(*old(self), *final(self)),
    {
        let top = self.frames.len() - 1;
        self.frames[top].ip = ip;
        assert(self.frames@ =~= set_top_ip(old(self).frames@, ip));
    }
}

} // verus!

verus! {

/// What `Load(idx)` does, the frames being `fr` once the instruction
/// pointer has advanced.
pub open spec fn load_step(o: VM, fr: Seq<CallFrame>, idx: usize, n: VM, r: Result<(), VmError>) -> bool {
    let locals = fr.last().locals@;
    &&& same_but_stack_frames(o, n)
    &&& n.pending == o.pending
    &&& n.frames@ == fr
    &&& if idx >= locals.len() {
        r == Err::<(), VmError>(VmError::LocalOutOfBounds(idx)) && n.stack@ == o.stack@
    } else {
        r is Ok && n.stack@ == o.stack@.push(locals[idx as int])
    }
}

/// What `Store(idx)` does.
pub open spec fn store_step(o: VM, fr: Seq<CallFrame>, idx: usize, n: VM, r: Result<(), VmError>) -> bool {
    let s = o.stack@;
    let top = fr.last();
    &&& same_but_stack_frames(o, n)
    &&& n.pending == o.pending
    &&& if s.len() == 0 {
        r == Err::<(), VmError>(VmError::StackUnderflow) && n.stack@ == s && n.frames@ == fr
    } else if idx >= top.locals@.len() {
        r == Err::<(), VmError>(VmError::LocalOutOfBounds(idx)) && n.stack@ == s.drop_last() && n.frames@ == fr
    } else {
        &&& r is Ok
        &&& n.stack@ == s.drop_last()
        &&& n.frames@.len() == fr.len()
        &&& n.frames@.drop_last() == fr.drop_last()
        &&& n.frames@.last().function == top.function
        &&& n.frames@.last().ip == top.ip
        &&& n.frames@.last().locals@ == top.locals@.update(idx as int, s.last())
    }
}

/// What `Call(idx)` does.
pub open spec fn call_step(o: VM, fr: Seq<CallFrame>, idx: usize, n: VM, r: Result<(), VmError>) -> bool {
    let s = o.stack@;
    &&& same_but_stack_frames(o, n)
    &&& n.pending == o.pending
    &&& if idx >= o.functions@.len() {
        r == Err::<(), VmError>(VmError::InvalidFunction(idx)) && n.stack@ == s && n.frames@ == fr
    } else {
        let f = o.functions@[idx as int];
        if s.len() < f.arity {
            r == Err::<(), VmError>(VmError::StackUnderflow) && n.stack@ == Seq::<Value>::empty() && n.frames@ == fr
        } else {
            &&& r is Ok
            &&& n.stack@ == s.take(s.len() - f.arity)
            &&& n.frames@.len() == fr.len() + 1
            &&& n.frames@.drop_last() == fr
            &&& n.frames@.last().function == idx
            &&& n.frames@.last().ip == 0
            &&& n.frames@.last().locals@ == call_locals(s.skip(s.len() - f.arity), f.num_locals as nat)
        }
    }
}

impl VM {
    fn load(&mut self, idx: usize) -> (r: Result<(), VmError>)
        requires
            old(self).frames@.len() > 0,
        ensures
            load_step(*old(self), old(self).frames@, idx, *final(self), r),
    {
        let top = self.frames.len() - 1;
        if idx >= self.frames[top].locals.len() {
            return Err(VmError::LocalOutOfBounds(idx));
        }
        let v = self.frames[top].locals[idx];
        self.stack.push(v);
        Ok(())
    }

    fn store(&mut self, idx: usize) -> (r: Result<(), VmError>)
        requires
            old(self).frames@.len() > 0,
        ensures
            store_step(*old(self), old(self).frames@, idx, *final(self), r),
    {
        let v = self.pop()?;
        let top = self.frames.len() - 1;
        if idx >= self.frames[top].locals.len() {
            return Err(VmError::LocalOutOfBounds(idx));
        }
        self.frames[top].locals.set(idx, v);
        assert(self.frames@.drop_last() =~= old(self).frames@.drop_last());
        Ok(())
    }

    fn call(&mut self, idx: usize) -> (r: Result<(), VmError>)
        ensures
            call_step(*old(self), old(self).frames@, idx, *final(self), r),
    {
        if idx >= self.functions.len() {
            return Err(VmError::InvalidFunction(idx));
        }
        let arity = self.functions[idx].arity;
        let num_locals = self.functions[idx].num_locals;
        let ghost s = self.stack@;
        if self.stack.len() < arity {
            self.stack.clear();
            return Err(VmError::StackUnderflow);
        }
        let start = self.stack.len() - arity;
        let mut locals: Vec<Value> = Vec::new();
        let mut i: usize = start;
        while i < self.stack.len()
            invariant
                self.stack@ == s,
                start <= i <= s.len(),
                locals@ == s.subrange(start as int, i as int),
            decreases s.len() - i,
        {
            locals.push(self.stack[i]);
            i = i + 1;
            assert(locals@ =~= s.subrange(start as int, i as int));
        }
        self.stack.truncate(start);
        let ghost args = locals@;
        assert(args =~= s.skip(start as int));
        if num_locals <= arity {
            locals.truncate(num_locals);
            assert(locals@ =~= call_locals(args, num_locals as nat));
        } else {
            while locals.len() < num_locals
                invariant
                    arity == args.len(),
                    args.len() <= locals@.len() <= num_locals,
                    locals@ == args + Seq::new((locals@.len() - args.len()) as nat, |k: int| Value::Null),
                decreases num_locals - locals@.len(),
            {
                locals.push(Value::Null);
                assert(locals@ =~= args + Seq::new((locals@.len() - args.len()) as nat, |k: int| Value::Null));
            }
            assert(locals@ =~= call_locals(args, num_locals as nat));
        }
        assert(self.stack@ =~= s.take(s.len() - arity));
        let ghost l = locals@;
        self.frames.push(CallFrame::new(idx, locals));
        assert(self.frames@.drop_last() =~= old(self).frames@);
        assert(self.frames@.last().locals@ == l);
        assert(l == call_locals(s.skip(s.len() - self.functions@[idx as int].arity), self.functions@[idx as int].num_locals as nat));
        Ok(())
    }
}

} // verus!

verus! {

use crate::hostio::{
    close_step, file_open_step, file_read_step, file_seek_step, file_write_step, http_get_step, http_post_step,
    stdin_read_step, stream_write_step, tcp_connect_step, tcp_read_step, tcp_write_step, Stream,
};
use crate::opcode::OpCode;
use crate::snapshot::{capturable, captured, marks_reach, Snapshot};
use crate::value::{spec_truthy as truthy, ArithOp as A, OrderOp as O};
use crate::vm::{code_has_content, frame_refs, spec_code_hash};

/// `m` is `o` with the top frame's instruction pointer moved past the fetched
/// instruction.
pub open spec fn fetched(o: VM, m: VM) -> bool {
    &&& m.frames@ == advanced(o)
    &&& m.stack == o.stack
    &&& m.running == o.running
    &&& m.pending == o.pending
    &&& same_core(o, m)
}

/// The two-operand instruction an opcode is, if it is one.
pub open spec fn bin_kind(op: OpCode) -> Option<BinKind> {
    match op {
        OpCode::Add => Some(BinKind::Arith(A::Add)),
        OpCode::Sub => Some(BinKind::Arith(A::Sub)),
        OpCode::Mul => Some(BinKind::Arith(A::Mul)),
        OpCode::Div => Some(BinKind::Arith(A::Div)),
        OpCode::Mod => Some(BinKind::Arith(A::Mod)),
        OpCode::Eq => Some(BinKind::Eq),
        OpCode::Neq => Some(BinKind::Neq),
        OpCode::Lt => Some(BinKind::Order(O::Lt)),
        OpCode::Gt => Some(BinKind::Order(O::Gt)),
        OpCode::Lte => Some(BinKind::Order(O::Lte)),
        OpCode::Gte => Some(BinKind::Order(O::Gte)),
        OpCode::And => Some(BinKind::And),
        OpCode::Or => Some(BinKind::Or),
        _ => None,
    }
}

/// What a conditional jump to `t` does: pop the condition and jump when its
/// truthiness is `when`.
pub open spec fn branch_step(m: VM, t: usize, when: bool, n: VM, r: Result<(), VmError>) -> bool {
    let s = m.stack@;
    &&& same_but_stack_frames(m, n)
    &&& n.pending == m.pending
    &&& if s.len() == 0 {
        r == Err::<(), VmError>(VmError::StackUnderflow) && n.stack@ == s && n.frames@ == m.frames@
    } else {
        &&& r is Ok
        &&& n.stack@ == s.drop_last()
        &&& n.frames@ == if truthy(s.last()) == when {
            set_top_ip(m.frames@, t)
        } else {
            m.frames@
        }
    }
}

/// What `Yield` does: capture a snapshot under the machine's code hash, keep
/// it, and stop.
pub open spec fn yield_step(m: VM, n: VM, r: Result<(), VmError>) -> bool {
    &&& r is Ok
    &&& !n.running
    &&& n.snapshot matches Some(s) && captured(m, n.heap.marks(), spec_code_hash(m), s)
    &&& marks_reach(m, n.heap.marks())
    &&& n.heap.objects() == m.heap.objects()
    &&& n.heap.free() == m.heap.free()
    &&& n.heap.threshold() == m.heap.threshold()
    &&& n.stack == m.stack
    &&& n.frames == m.frames
    &&& n.functions == m.functions
    &&& n.handles == m.handles
    &&& n.task_registry == m.task_registry
    &&& n.current_task_id == m.current_task_id
    &&& n.pending == m.pending
    &&& n.next_handle_id == m.next_handle_id
}

/// What instruction `op` does to machine `m` (whose instruction pointer has
/// already moved past it), giving `n` and `r`.
pub open spec fn op_step(op: OpCode, m: VM, n: VM, r: Result<(), VmError>) -> bool {
    let s = m.stack@;
    match op {
        OpCode::Push(v) => r is Ok && same_but_stack(m, n) && n.pending == m.pending && n.stack@ == s.push(v),
        OpCode::Pop => same_but_stack(m, n) && n.pending == m.pending && if s.len() == 0 {
            r == Err::<(), VmError>(VmError::StackUnderflow) && n.stack@ == s
        } else {
            r is Ok && n.stack@ == s.drop_last()
        },
        OpCode::Dup => same_but_stack(m, n) && n.pending == m.pending && if s.len() == 0 {
            r == Err::<(), VmError>(VmError::StackUnderflow) && n.stack@ == s
        } else {
            r is Ok && n.stack@ == s.push(s.last())
        },
        OpCode::Neg => neg_step(m, n, r) && n.frames == m.frames,
        OpCode::Not => not_step(m, n, r) && n.frames == m.frames,
        OpCode::Jump(t) => r is Ok && same_but_stack_frames(m, n) && n.pending == m.pending && n.stack == m.stack
            && n.frames@ == set_top_ip(m.frames@, t),
        OpCode::JumpIfTrue(t) => branch_step(m, t, true, n, r),
        OpCode::JumpIfFalse(t) => branch_step(m, t, false, n, r),
        OpCode::Load(i) => load_step(m, m.frames@, i, n, r),
        OpCode::Store(i) => store_step(m, m.frames@, i, n, r),
        OpCode::Call(i) => call_step(m, m.frames@, i, n, r),
        OpCode::Return => {
            &&& r is Ok
            &&& same_core(m, n)
            &&& n.stack == m.stack
            &&& n.pending == m.pending
            &&& n.frames@ == m.frames@.drop_last()
            &&& n.running == (m.running && m.frames@.len() > 1)
        },
        OpCode::Halt => r is Ok && same_core(m, n) && n.stack == m.stack && n.frames == m.frames && n.pending
            == m.pending && !n.running,
        OpCode::Yield => yield_step(m, n, r),
        OpCode::FileOpen { path, mode } => file_open_step(m, path, mode, n, r),
        OpCode::FileRead(h) => file_read_step(m, h, n, r),
        OpCode::FileWrite(h) => file_write_step(m, h, n, r),
        OpCode::FileSeek { handle, offset } => file_seek_step(m, handle, offset, n, r),
        OpCode::FileClose(h) => close_step(m, h, n, r),
        OpCode::TcpClose(h) => close_step(m, h, n, r),
        OpCode::TcpConnect { addr } => tcp_connect_step(m, addr, n, r),
        OpCode::TcpRead(h) => tcp_read_step(m, h, n, r),
        OpCode::TcpWrite(h) => tcp_write_step(m, h, n, r),
        OpCode::HttpGet { url } => http_get_step(m, url, n, r),
        OpCode::HttpPost { url, body } => http_post_step(m, url, body, n, r),
        OpCode::StdinRead => stdin_read_step(m, n, r),
        OpCode::StdoutWrite => stream_write_step(m, Stream::Out, n, r),
        OpCode::StderrWrite => stream_write_step(m, Stream::Error, n, r),
        OpCode::TimerSleep { .. } => r is Ok && same_but_stack(m, n) && n.stack == m.stack && n.pending == m.pending,
        _ => match bin_kind(op) {
            Some(k) => bin_step(m, k, n, r),
            None => false,
        },
    }
}

/// What one step does: fetch the instruction (or fail, changing nothing),
/// move past it, and carry it out.
pub open spec fn step_spec(o: VM, n: VM, r: Result<(), VmError>) -> bool {
    match fetch_spec(o) {
        Err(e) => r == Err::<(), VmError>(e) && n == o,
        Ok(op) => exists|m: VM| fetched(o, m) && op_step(op, m, n, r),
    }
}

/// The next step would not make Rust panic: no integer overflow or division
/// by zero, no negation of the least integer, and a `Yield` only where the
/// machine can be captured and its code hashed.
pub open spec fn step_safe(o: VM) -> bool {
    let s = o.stack@;
    match fetch_spec(o) {
        Ok(op) => match op {
            OpCode::Neg => s.len() > 0 ==> s.last() != Value::Int(i64::MIN),
            OpCode::Yield => capturable(o) && code_has_content(o),
            _ => match bin_kind(op) {
                Some(k) => s.len() >= 2 ==> !bin_panics(k, s[s.len() - 2], s.last()),
                None => true,
            },
        },
        Err(_) => true,
    }
}

proof fn lemma_frame_refs_ip(fs: Seq<CallFrame>, ip: usize)
    requires
        fs.len() > 0,
    ensures
        frame_refs(set_top_ip(fs, ip)) == frame_refs(fs),
{
    let g = set_top_ip(fs, ip);
    assert(g.drop_last() =~= fs.drop_last());
    assert(g.last().locals == fs.last().locals);
}

impl VM {
    /// Execute a single instruction.
    ///
    /// Instructions whose outside work the host does (float arithmetic,
    /// files, sockets, HTTP) leave a `HostCall` in `pending`; `complete`
    /// finishes them.
    pub fn step(&mut self) -> (r: Result<(), VmError>)
        requires
            old(self).wf(),
            step_safe(*old(self)),
        ensures
            final(self).wf(),
            step_spec(*old(self), *final(self), r),
    {
        if self.frames.len() == 0 {
            return Err(VmError::EmptyFrameStack);
        }
        let top = self.frames.len() - 1;
        let fi = self.frames[top].function;
        let ip = self.frames[top].ip;
        if fi >= self.functions.len() {
            return Err(VmError::InvalidFunction(fi));
        }
        if ip >= self.functions[fi].code.len() {
            return Err(VmError::InvalidIp);
        }
        let op = self.functions[fi].code[ip];
        self.set_ip(ip + 1);
        let ghost m = *self;
        proof {
            lemma_frame_refs_ip(old(self).frames@, (ip + 1) as usize);
            assert(fetched(*old(self), m));
        }
        let r = match op {
            OpCode::Push(v) => {
                self.stack.push(v);
                Ok(())
            },
            OpCode::Pop => match self.pop() {
                Ok(_) => Ok(()),
                Err(e) => Err(e),
            },
            OpCode::Dup => {
                if self.stack.len() == 0 {
                    Err(VmError::StackUnderflow)
                } else {
                    let v = self.stack[self.stack.len() - 1];
                    self.stack.push(v);
                    Ok(())
                }
            },
            OpCode::Add => self.binary(BinKind::Arith(A::Add)),
            OpCode::Sub => self.binary(BinKind::Arith(A::Sub)),
            OpCode::Mul => self.binary(BinKind::Arith(A::Mul)),
            OpCode::Div => self.binary(BinKind::Arith(A::Div)),
            OpCode::Mod => self.binary(BinKind::Arith(A::Mod)),
            OpCode::Neg => self.negate(),
            OpCode::Eq => self.binary(BinKind::Eq),
            OpCode::Neq => self.binary(BinKind::Neq),
            OpCode::Lt => self.binary(BinKind::Order(O::Lt)),
            OpCode::Gt => self.binary(BinKind::Order(O::Gt)),
            OpCode::Lte => self.binary(BinKind::Order(O::Lte)),
            OpCode::Gte => self.binary(BinKind::Order(O::Gte)),
            OpCode::And => self.binary(BinKind::And),
            OpCode::Or => self.binary(BinKind::Or),
            OpCode::Not => self.logical_not(),
            OpCode::Jump(t) => {
                self.set_ip(t);
                Ok(())
            },
            OpCode::JumpIfTrue(t) => match self.pop() {
                Ok(c) => {
                    if c.is_truthy() {
                        self.set_ip(t);
                    }
                    Ok(())
                },
                Err(e) => Err(e),
            },
            OpCode::JumpIfFalse(t) => match self.pop() {
                Ok(c) => {
                    if !c.is_truthy() {
                        self.set_ip(t);
                    }
                    Ok(())
                },
                Err(e) => Err(e),
            },
            OpCode::Load(i) => self.load(i),
            OpCode::Store(i) => self.store(i),
            OpCode::Call(i) => self.call(i),
            OpCode::Return => {
                self.frames.pop();
                if self.frames.len() == 0 {
                    self.running = false;
                }
                Ok(())
            },
            OpCode::Yield => {
                assert(crate::vm::all_roots(*self) == crate::vm::all_roots(*old(self)));
                let ch = self.code_hash();
                let s = Snapshot::capture(self, ch);
                self.snapshot = Some(s);
                self.running = false;
                Ok(())
            },
            OpCode::Halt => {
                self.running = false;
                Ok(())
            },
            OpCode::FileOpen { path, mode } => self.file_open(path, mode),
            OpCode::FileRead(h) => self.file_read(h),
            OpCode::FileWrite(h) => self.file_write(h),
            OpCode::FileSeek { handle, offset } => self.file_seek(handle, offset),
            OpCode::FileClose(h) => self.close(h),
            OpCode::TcpClose(h) => self.close(h),
            OpCode::TcpConnect { addr } => self.tcp_connect(addr),
            OpCode::TcpRead(h) => self.tcp_read(h),
            OpCode::TcpWrite(h) => self.tcp_write(h),
            OpCode::HttpGet { url } => self.http_get(url),
            OpCode::HttpPost { url, body } => self.http_post(url, body),
            OpCode::StdinRead => self.stdin_read(),
            OpCode::StdoutWrite => self.stream_write(Stream::Out),
            OpCode::StderrWrite => self.stream_write(Stream::Error),
            OpCode::TimerSleep { .. } => Ok(()),
        };
        assert(op_step(op, m, *self, r));
        r
    }
}

} // verus!

verus! {

/// Every step a run from `o` can take within `fuel` steps is safe (see
/// `step_safe`).
pub open spec fn runs_safely(o: VM, fuel: nat) -> bool
    decreases fuel,
{
    fuel == 0 || !o.running || o.pending is Some || (step_safe(o) && forall|n: VM, r: Result<(), VmError>|
        #[trigger] step_spec(o, n, r) && r is Ok ==> runs_safely(n, (fuel - 1) as nat))
}

/// What running machine `o` for at most `fuel` steps gives: it stops,
/// unchanged from there, once it is not running or waits for its host;
/// otherwise it steps, and stops at the first error.
pub open spec fn run_spec(o: VM, n: VM, r: Result<(), VmError>, fuel: nat) -> bool
    decreases fuel,
{
    if fuel == 0 || !o.running || o.pending is Some {
        r is Ok && n == o
    } else {
        exists|m: VM, r1: Result<(), VmError>|
            #[trigger] step_spec(o, m, r1) && match r1 {
                Err(e) => r == Err::<(), VmError>(e) && n == m,
                Ok(_) => run_spec(m, n, r, (fuel - 1) as nat),
            }
    }
}

impl VM {
    /// Execute until the machine stops running, an instruction fails, or an
    /// instruction waits for the host (`pending` is set; `complete` it and
    /// run again). The run is bounded by `u64::MAX` steps.
    pub fn run(&mut self) -> (r: Result<(), VmError>)
        requires
            old(self).wf(),
            runs_safely(*old(self), u64::MAX as nat),
        ensures
            final(self).wf(),
            run_spec(*old(self), *final(self), r, u64::MAX as nat),
    {
        let mut fuel: u64 = u64::MAX;
        while self.running && self.pending.is_none() && fuel > 0
            invariant
                self.wf(),
                runs_safely(*self, fuel as nat),
                forall|n: VM, r: Result<(), VmError>|
                    run_spec(*self, n, r, fuel as nat) ==> #[trigger] run_spec(*old(self), n, r, u64::MAX as nat),
            decreases fuel,
        {
            let ghost cur = *self;
            let res = self.step();
            match res {
                Err(e) => {
                    assert(run_spec(cur, *self, Err(e), fuel as nat));
                    return Err(e);
                },
                Ok(_) => {
                    assert forall|n: VM, r: Result<(), VmError>| run_spec(*self, n, r, (fuel - 1) as nat) implies run_spec(
                        cur,
                        n,
                        r,
                        fuel as nat,
                    ) by {
                        assert(step_spec(cur, *self, res));
                    }
                },
            }
            fuel = fuel - 1;
        }
        Ok(())
    }
}

} // verus!
