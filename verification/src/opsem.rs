//! What single instructions do, stated against their operands.

use vstd::prelude::*;

use crate::heap::{Gc, HeapObject, StringObj};
use crate::interp::{fetch_spec, step_spec};
use crate::hostio::{complete_step, first_at, first_stream, host_text, is_stream, Stream};
use crate::io::{FileMode, HandleId, HandleRecord, IoHandle, IoStrategy};
use crate::text::spec_decimal_i64;
use vstd::utf8::encode_utf8;
use crate::opcode::OpCode;
use crate::value::Value;
use crate::vm::{FloatOp, HostCall, HostReply, HostText, VmError, VM};

verus! {

/// A step on two integer operands `l` (below the top) and `r` (the top)
/// pops both and pushes what the instruction computes: the comparisons
/// push whether `l < r`, `l <= r`, `l > r`, `l >= r`, `l == r`, `l != r`;
/// addition, subtraction and multiplication push the sum, difference and
/// product where it fits in an `i64`; division and remainder of a
/// non-negative `l` by a positive `r` push the quotient and the remainder.
/// `And` and `Or` refuse integers with a type error.
pub proof fn law_int_binary(o: VM, n: VM, res: Result<(), VmError>, l: i64, r: i64)
    requires
        step_spec(o, n, res),
        fetch_spec(o) is Ok,
        o.stack@.len() >= 2,
        o.stack@[o.stack@.len() - 2] == Value::Int(l),
        o.stack@.last() == Value::Int(r),
    ensures
        ({
            let op = fetch_spec(o)->Ok_0;
            let rest = o.stack@.take(o.stack@.len() - 2);
            &&& op == OpCode::Lt ==> res is Ok && n.stack@ == rest.push(Value::Bool(l < r))
            &&& op == OpCode::Lte ==> res is Ok && n.stack@ == rest.push(Value::Bool(l <= r))
            &&& op == OpCode::Gt ==> res is Ok && n.stack@ == rest.push(Value::Bool(l > r))
            &&& op == OpCode::Gte ==> res is Ok && n.stack@ == rest.push(Value::Bool(l >= r))
            &&& op == OpCode::Eq ==> res is Ok && n.stack@ == rest.push(Value::Bool(l == r))
            &&& op == OpCode::Neq ==> res is Ok && n.stack@ == rest.push(Value::Bool(l != r))
            &&& op == OpCode::Add && i64::MIN <= l + r <= i64::MAX ==> res is Ok && n.stack@ == rest.push(
                Value::Int((l + r) as i64),
            )
            &&& op == OpCode::Sub && i64::MIN <= l - r <= i64::MAX ==> res is Ok && n.stack@ == rest.push(
                Value::Int((l - r) as i64),
            )
            &&& op == OpCode::Mul && i64::MIN <= l * r <= i64::MAX ==> res is Ok && n.stack@ == rest.push(
                Value::Int((l * r) as i64),
            )
            &&& op == OpCode::Div && l >= 0 && r > 0 ==> res is Ok && n.stack@ == rest.push(
                Value::Int((l / r) as i64),
            )
            &&& op == OpCode::Mod && l >= 0 && r > 0 ==> res is Ok && n.stack@ == rest.push(
                Value::Int((l % r) as i64),
            )
            &&& (op == OpCode::And || op == OpCode::Or) ==> res is Err && n.stack@ == rest
        }),
{
    let m = choose|m: VM| crate::interp::fetched(o, m) && crate::interp::op_step(fetch_spec(o)->Ok_0, m, n, res);
    assert(m.stack == o.stack);
    if r > 0 {
        assert(0int % (r as int) == 0) by (nonlinear_arith)
            requires
                r > 0,
        ;
    }
}

/// A step on two boolean operands `a` (below the top) and `b` (the top)
/// pops both and pushes `a && b` for `And`, `a || b` for `Or`, `a == b` for
/// `Eq` and `a != b` for `Neq`.
pub proof fn law_bool_binary(o: VM, n: VM, res: Result<(), VmError>, a: bool, b: bool)
    requires
        step_spec(o, n, res),
        fetch_spec(o) is Ok,
        o.stack@.len() >= 2,
        o.stack@[o.stack@.len() - 2] == Value::Bool(a),
        o.stack@.last() == Value::Bool(b),
    ensures
        ({
            let op = fetch_spec(o)->Ok_0;
            let rest = o.stack@.take(o.stack@.len() - 2);
            &&& op == OpCode::And ==> res is Ok && n.stack@ == rest.push(Value::Bool(a && b))
            &&& op == OpCode::Or ==> res is Ok && n.stack@ == rest.push(Value::Bool(a || b))
            &&& op == OpCode::Eq ==> res is Ok && n.stack@ == rest.push(Value::Bool(a == b))
            &&& op == OpCode::Neq ==> res is Ok && n.stack@ == rest.push(Value::Bool(a != b))
        }),
{
    let m = choose|m: VM| crate::interp::fetched(o, m) && crate::interp::op_step(fetch_spec(o)->Ok_0, m, n, res);
    assert(m.stack == o.stack);
}

/// A step of an arithmetic or comparison instruction on two float operands
/// pops both and hands the host the same operation on their bits.
pub proof fn law_float_binary(o: VM, n: VM, res: Result<(), VmError>, x: u64, y: u64)
    requires
        step_spec(o, n, res),
        fetch_spec(o) is Ok,
        o.stack@.len() >= 2,
        o.stack@[o.stack@.len() - 2] == Value::Float(x),
        o.stack@.last() == Value::Float(y),
    ensures
        ({
            let op = fetch_spec(o)->Ok_0;
            let rest = o.stack@.take(o.stack@.len() - 2);
            let asks = |f: FloatOp|
                res is Ok && n.stack@ == rest && n.pending == Some(HostCall::FloatBinary { op: f, lhs: x, rhs: y });
            &&& op == OpCode::Add ==> asks(FloatOp::Add)
            &&& op == OpCode::Sub ==> asks(FloatOp::Sub)
            &&& op == OpCode::Mul ==> asks(FloatOp::Mul)
            &&& op == OpCode::Div ==> asks(FloatOp::Div)
            &&& op == OpCode::Mod ==> asks(FloatOp::Mod)
            &&& op == OpCode::Eq ==> asks(FloatOp::Eq)
            &&& op == OpCode::Neq ==> asks(FloatOp::Neq)
            &&& op == OpCode::Lt ==> asks(FloatOp::Lt)
            &&& op == OpCode::Lte ==> asks(FloatOp::Lte)
            &&& op == OpCode::Gt ==> asks(FloatOp::Gt)
            &&& op == OpCode::Gte ==> asks(FloatOp::Gte)
        }),
{
    let m = choose|m: VM| crate::interp::fetched(o, m) && crate::interp::op_step(fetch_spec(o)->Ok_0, m, n, res);
    assert(m.stack == o.stack);
}

/// The file mode the text `t` asks for: "a" or "A" appends, "w" or "W"
/// writes, anything else reads.
pub open spec fn asks_mode(t: Seq<char>, m: FileMode) -> bool {
    &&& t == "a"@ || t == "A"@ ==> m == FileMode::Append
    &&& t == "w"@ || t == "W"@ ==> m == FileMode::Write
    &&& t != "a"@ && t != "A"@ && t != "w"@ && t != "W"@ ==> m == FileMode::Read
}

/// Opening a file whose mode operand is a heap string with text `t`
/// registers, under the next handle id, a file handle with the mode `t`
/// asks for, positioned at 0 under the seek strategy; where the path is a
/// float, whose text only the host can form, the host is asked to open it
/// with that mode.
pub proof fn law_file_open_mode(
    o: VM,
    n: VM,
    res: Result<(), VmError>,
    path: Value,
    mode: Value,
    gc: Gc<StringObj>,
    so: StringObj,
    t: Seq<char>,
)
    requires
        step_spec(o, n, res),
        fetch_spec(o) == Ok::<OpCode, VmError>(OpCode::FileOpen { path, mode }),
        mode == Value::String(gc),
        gc.index < o.heap.objects().len(),
        o.heap.objects()[gc.index as int] == HeapObject::String(so),
        so.data@ == t,
    ensures
        res is Ok,
        !(path is Float) ==> exists|i: int|
            0 <= i < n.handles.entries@.len() && (#[trigger] n.handles.entries@[i]).0 == HandleId(o.next_handle_id)
                && n.handles.entries@[i].1 is File && asks_mode(t, n.handles.entries@[i].1->File_mode)
                && n.handles.entries@[i].1->File_position == 0 && n.handles.entries@[i].1->File_strategy
                == IoStrategy::Seek,
        path is Float ==> n.pending is Some && n.pending->Some_0 is FilePath && asks_mode(
            t,
            n.pending->Some_0->FilePath_mode,
        ),
{
    reveal_strlit("a");
    reveal_strlit("A");
    reveal_strlit("w");
    reveal_strlit("W");
    let m = choose|m: VM| crate::interp::fetched(o, m) && crate::interp::op_step(fetch_spec(o)->Ok_0, m, n, res);
    let fm = crate::hostio::spec_file_mode(m.heap, mode);
    assert(m.heap == o.heap);
    assert(crate::hostio::heap_text(m.heap, gc.index) == t);
    assert("a"@[0] != "w"@[0] && "a"@[0] != "W"@[0] && "A"@[0] != "w"@[0] && "A"@[0] != "W"@[0]);
    assert(asks_mode(t, fm));
    if !(path is Float) {
        let id = HandleId(o.next_handle_id);
        let rec = HandleRecord::File {
            path: crate::hostio::path_string(m.heap, path),
            mode: fm,
            position: 0,
            strategy: IoStrategy::Seek,
            attached: false,
            cached: None,
        };
        assert(crate::hostio::registers(m.handles, n.handles, id, rec));
        let x = choose|x: IoHandle|
            #[trigger] x@ == rec && match m.handles.position_of(id) {
                Some(i) => n.handles.entries@ == m.handles.entries@.update(i, (id, x)),
                None => n.handles.entries@ == m.handles.entries@.push((id, x)),
            };
        let i = match m.handles.position_of(id) {
            Some(i) => i,
            None => m.handles.entries@.len() as int,
        };
        if let Some(j) = m.handles.position_of(id) {
            assert(0 <= j < m.handles.entries@.len());
        }
        assert(n.handles.entries@[i] == (id, x));
        assert(x is File);
        assert(x->File_mode == fm);
    }
}

/// Closing a file or socket unregisters its handle and keeps every other
/// one; it pushes whether the handle was registered.
pub proof fn law_close_unregisters(o: VM, n: VM, res: Result<(), VmError>, h: HandleId)
    requires
        step_spec(o, n, res),
        fetch_spec(o) == Ok::<OpCode, VmError>(OpCode::FileClose(h)) || fetch_spec(o) == Ok::<OpCode, VmError>(
            OpCode::TcpClose(h),
        ),
        o.handles.wf(),
    ensures
        res is Ok,
        forall|j: int| 0 <= j < n.handles.entries@.len() ==> (#[trigger] n.handles.entries@[j]).0 != h,
        forall|i: int|
            0 <= i < o.handles.entries@.len() && (#[trigger] o.handles.entries@[i]).0 != h ==> n.handles.entries@.contains(
                o.handles.entries@[i],
            ),
        n.stack@ == o.stack@.push(
            Value::Bool(exists|i: int| 0 <= i < o.handles.entries@.len() && (#[trigger] o.handles.entries@[i]).0 == h),
        ),
{
    let m = choose|m: VM| crate::interp::fetched(o, m) && crate::interp::op_step(fetch_spec(o)->Ok_0, m, n, res);
    let e = o.handles.entries@;
    assert(m.handles == o.handles && m.stack == o.stack);
    match o.handles.position_of(h) {
        Some(p) => {
            assert(0 <= p < e.len() && e[p].0 == h);
            let r = e.remove(p);
            assert(n.handles.entries@ == r);
            assert forall|j: int| 0 <= j < r.len() implies (#[trigger] r[j]).0 != h by {
                if j < p {
                    assert(r[j] == e[j]);
                } else {
                    assert(r[j] == e[j + 1]);
                }
            }
            assert forall|i: int| 0 <= i < e.len() && (#[trigger] e[i]).0 != h implies r.contains(e[i]) by {
                if i < p {
                    assert(r[i] == e[i]);
                } else {
                    assert(i != p);
                    assert(r[i - 1] == e[i]);
                }
            }
        },
        None => {
            assert forall|i: int| 0 <= i < e.len() && (#[trigger] e[i]).0 != h implies n.handles.entries@.contains(e[i]) by {
                assert(n.handles.entries@[i] == e[i]);
            }
        },
    }
}

/// Seeking a file handle to an integer offset moves its position there,
/// keeping its path, mode and strategy, and pushes the offset.
pub proof fn law_seek_sets_position(o: VM, n: VM, res: Result<(), VmError>, h: HandleId, k: i64, i: int)
    requires
        step_spec(o, n, res),
        fetch_spec(o) == Ok::<OpCode, VmError>(OpCode::FileSeek { handle: h, offset: Value::Int(k) }),
        o.handles.wf(),
        0 <= i < o.handles.entries@.len(),
        o.handles.entries@[i].0 == h,
        o.handles.entries@[i].1 is File,
    ensures
        res is Ok,
        n.stack@ == o.stack@.push(Value::Int(k)),
        n.handles.entries@.len() == o.handles.entries@.len(),
        n.handles.entries@[i].0 == h,
        n.handles.entries@[i].1 is File,
        n.handles.entries@[i].1->File_position == k as u64,
        n.handles.entries@[i].1->File_path@ == o.handles.entries@[i].1->File_path@,
        n.handles.entries@[i].1->File_mode == o.handles.entries@[i].1->File_mode,
        n.handles.entries@[i].1->File_strategy == o.handles.entries@[i].1->File_strategy,
{
    let m = choose|m: VM| crate::interp::fetched(o, m) && crate::interp::op_step(fetch_spec(o)->Ok_0, m, n, res);
    let e = o.handles.entries@;
    assert(m.handles == o.handles && m.stack == o.stack);
    let p = o.handles.position_of(h);
    assert(p is Some);
    let q = p.unwrap();
    assert(0 <= q < e.len() && e[q].0 == h);
    assert(q == i);
    assert((k as u64) as i64 == k) by (bit_vector);
}

/// The bytes writing `v` to a stream or file sends, where the machine
/// forms them itself (a float's text comes from the host).
pub open spec fn written_bytes(v: Value) -> Seq<u8> {
    match v {
        Value::Int(k) => encode_utf8(spec_decimal_i64(k)),
        Value::Bool(true) => encode_utf8("true"@),
        Value::Bool(false) => encode_utf8("false"@),
        Value::Null => encode_utf8("null"@),
        _ => Seq::empty(),
    }
}

/// Writing a value that is not a float to standard output (standard error)
/// pops it and appends its bytes to the buffer of the first standard-output
/// (standard-error) handle, `i`, leaving every other handle as it was.
pub proof fn law_stream_write(o: VM, n: VM, res: Result<(), VmError>, i: int)
    requires
        step_spec(o, n, res),
        fetch_spec(o) == Ok::<OpCode, VmError>(OpCode::StdoutWrite) || fetch_spec(o) == Ok::<OpCode, VmError>(
            OpCode::StderrWrite,
        ),
        o.stack@.len() > 0,
        !(o.stack@.last() is Float),
        0 <= i < o.handles.entries@.len(),
        fetch_spec(o) == Ok::<OpCode, VmError>(OpCode::StdoutWrite) ==> o.handles.entries@[i].1 is Stdout && forall|j: int|
            0 <= j < i ==> !((#[trigger] o.handles.entries@[j]).1 is Stdout),
        fetch_spec(o) == Ok::<OpCode, VmError>(OpCode::StderrWrite) ==> o.handles.entries@[i].1 is Stderr && forall|j: int|
            0 <= j < i ==> !((#[trigger] o.handles.entries@[j]).1 is Stderr),
    ensures
        res is Ok,
        n.stack@ == o.stack@.drop_last(),
        n.handles.entries@.len() == o.handles.entries@.len(),
        n.handles.entries@[i].0 == o.handles.entries@[i].0,
        n.handles.entries@[i].1@ == match o.handles.entries@[i].1@ {
            HandleRecord::Stdout { buffer } => HandleRecord::Stdout { buffer: buffer + written_bytes(o.stack@.last()) },
            HandleRecord::Stderr { buffer } => HandleRecord::Stderr { buffer: buffer + written_bytes(o.stack@.last()) },
            other => other,
        },
        forall|j: int| 0 <= j < n.handles.entries@.len() && j != i ==> #[trigger] n.handles.entries@[j] == o.handles.entries@[j],
{
    reveal_strlit("true");
    reveal_strlit("false");
    reveal_strlit("null");
    let m = choose|m: VM| crate::interp::fetched(o, m) && crate::interp::op_step(fetch_spec(o)->Ok_0, m, n, res);
    let e = o.handles.entries@;
    assert(m.handles == o.handles && m.stack == o.stack);
    let k = if fetch_spec(o) == Ok::<OpCode, VmError>(OpCode::StdoutWrite) {
        Stream::Out
    } else {
        Stream::Error
    };
    assert(first_at(e, k, i));
    let f = first_stream(e, k);
    let q = f.unwrap();
    assert(first_at(e, k, q));
    if q < i {
        assert(is_stream(e[q].1, k));
    } else if i < q {
        assert(is_stream(e[i].1, k));
    }
    assert(q == i);
}

/// When the host answers a pending connect with a connection, a socket
/// handle that is connected, to the address the host connected to, under
/// the replay strategy, is registered under the next id, the id is pushed,
/// and nothing is left pending.
pub proof fn law_connect_registers_live(o: VM, n: VM, res: Result<(), VmError>, addr: HostText, t: Vec<u8>)
    requires
        complete_step(o, HostReply::Connected(t), n, res),
        o.pending == Some(HostCall::TcpConnect { addr }),
    ensures
        res is Ok,
        n.pending is None,
        n.stack@ == o.stack@.push(Value::Int(o.next_handle_id as i64)),
        exists|i: int|
            0 <= i < n.handles.entries@.len() && (#[trigger] n.handles.entries@[i]).0 == HandleId(o.next_handle_id)
                && n.handles.entries@[i].1 is TcpStream && n.handles.entries@[i].1->TcpStream_connected
                && n.handles.entries@[i].1->TcpStream_addr@ == host_text(addr, t@)
                && n.handles.entries@[i].1->TcpStream_strategy == IoStrategy::Replay,
{
    let id = HandleId(o.next_handle_id);
    let rec = HandleRecord::TcpStream {
        addr: host_text(addr, t@),
        strategy: IoStrategy::Replay,
        connected: true,
        last_request: None,
        last_response: None,
    };
    assert(crate::hostio::registers(o.handles, n.handles, id, rec));
    let x = choose|x: IoHandle|
        #[trigger] x@ == rec && match o.handles.position_of(id) {
            Some(i) => n.handles.entries@ == o.handles.entries@.update(i, (id, x)),
            None => n.handles.entries@ == o.handles.entries@.push((id, x)),
        };
    let i = match o.handles.position_of(id) {
        Some(i) => i,
        None => o.handles.entries@.len() as int,
    };
    if let Some(j) = o.handles.position_of(id) {
        assert(0 <= j < o.handles.entries@.len());
    }
    assert(n.handles.entries@[i] == (id, x));
    assert(x is TcpStream);
}

/// Storing the top of the stack into a local and then loading that local
/// gives the stack back as it was: a load reads what the store wrote.
pub proof fn law_store_then_load(
    o1: VM,
    o2: VM,
    o3: VM,
    r1: Result<(), VmError>,
    r2: Result<(), VmError>,
    idx: usize,
)
    requires
        step_spec(o1, o2, r1),
        fetch_spec(o1) == Ok::<OpCode, VmError>(OpCode::Store(idx)),
        step_spec(o2, o3, r2),
        fetch_spec(o2) == Ok::<OpCode, VmError>(OpCode::Load(idx)),
        o1.stack@.len() > 0,
        idx < o1.frames@.last().locals@.len(),
    ensures
        r1 is Ok,
        r2 is Ok,
        o3.stack@ == o1.stack@,
        o3.frames@.last().locals@[idx as int] == o1.stack@.last(),
{
    let m1 = choose|m: VM| crate::interp::fetched(o1, m) && crate::interp::op_step(fetch_spec(o1)->Ok_0, m, o2, r1);
    let m2 = choose|m: VM| crate::interp::fetched(o2, m) && crate::interp::op_step(fetch_spec(o2)->Ok_0, m, o3, r2);
    assert(m1.frames@.last().locals == o1.frames@.last().locals);
    assert(m2.frames@.last().locals == o2.frames@.last().locals);
    assert(o1.stack@.drop_last().push(o1.stack@.last()) =~= o1.stack@);
}

/// A call of function `idx` with `arity` arguments moves the top `arity`
/// values of the stack, in push order, into the first locals of a new frame
/// of that function starting at instruction 0; its other locals are `Null`.
pub proof fn law_call_passes_arguments(o: VM, n: VM, res: Result<(), VmError>, idx: usize)
    requires
        step_spec(o, n, res),
        fetch_spec(o) == Ok::<OpCode, VmError>(OpCode::Call(idx)),
        idx < o.functions@.len(),
        o.stack@.len() >= o.functions@[idx as int].arity,
    ensures
        ({
            let f = o.functions@[idx as int];
            let s = o.stack@;
            let base = s.len() - f.arity;
            let locals = n.frames@.last().locals@;
            &&& res is Ok
            &&& n.stack@ == s.take(base)
            &&& n.frames@.len() == o.frames@.len() + 1
            &&& n.frames@.last().function == idx
            &&& n.frames@.last().ip == 0
            &&& locals.len() == f.num_locals
            &&& forall|j: int| 0 <= j < f.arity && j < f.num_locals ==> #[trigger] locals[j] == s[base + j]
            &&& forall|j: int| f.arity <= j < f.num_locals ==> #[trigger] locals[j] == Value::Null
        }),
{
    let m = choose|m: VM| crate::interp::fetched(o, m) && crate::interp::op_step(fetch_spec(o)->Ok_0, m, n, res);
    assert(m.stack == o.stack && m.functions == o.functions);
}

} // verus!
