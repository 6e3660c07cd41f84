//! The wire format of values and the `Serializable` contexts.

use std::collections::HashMap;
use vstd::prelude::*;
use vstd::utf8::{decode_utf8, encode_utf8, valid_utf8};

use crate::heap::{value_ref, Heap, HeapObject, ListObj, StringObj};
use crate::value::Value;
use crate::wire::{le32, le64, push_bytes, push_u32, push_u64};

verus! {

pub const TAG_INT: u8 = 0x00;
pub const TAG_FLOAT: u8 = 0x01;
pub const TAG_BOOL: u8 = 0x02;
pub const TAG_NULL: u8 = 0x03;
pub const TAG_STRING: u8 = 0x04;
pub const TAG_LIST: u8 = 0x05;

/// The content of a value, with heap references replaced by what they hold.
pub enum Content {
    Int(i64),
    Float(u64),
    Bool(bool),
    Null,
    Str(Seq<char>),
    List(Seq<Content>),
}

/// The number of strings and lists in a content: the heap objects decoding
/// it allocates.
pub open spec fn objects_in(c: Content) -> nat
    decreases c,
{
    match c {
        Content::Str(_) => 1,
        Content::List(cs) => 1 + objects_in_all(cs),
        _ => 0,
    }
}

/// The number of strings and lists in the contents `cs`.
pub open spec fn objects_in_all(cs: Seq<Content>) -> nat
    decreases cs,
{
    if cs.len() == 0 {
        0
    } else {
        objects_in_all(cs.drop_last()) + objects_in(cs.last())
    }
}

/// The number of live (allocated, not freed) slots of a heap.
pub open spec fn live_count(h: Heap) -> int {
    h.objects().len() - h.free().len()
}

/// The content of `v` in heap `objs`, following at most `fuel` nested lists;
/// `None` when a reference is out of range, of the wrong kind, or too deep.
pub open spec fn content(objs: Seq<HeapObject>, v: Value, fuel: nat) -> Option<Content>
    decreases fuel, 0nat,
{
    match v {
        Value::Int(i) => Some(Content::Int(i)),
        Value::Float(b) => Some(Content::Float(b)),
        Value::Bool(b) => Some(Content::Bool(b)),
        Value::Null => Some(Content::Null),
        Value::String(gc) => if gc.index < objs.len() {
            match objs[gc.index as int] {
                HeapObject::String(s) => Some(Content::Str(s.data@)),
                _ => None,
            }
        } else {
            None
        },
        Value::List(gc) => if fuel > 0 && gc.index < objs.len() {
            match objs[gc.index as int] {
                HeapObject::List(l) => match contents(objs, l.elements@, (fuel - 1) as nat) {
                    Some(cs) => Some(Content::List(cs)),
                    None => None,
                },
                _ => None,
            }
        } else {
            None
        },
    }
}

/// The contents of a sequence of values, or `None` if any has none.
pub open spec fn contents(objs: Seq<HeapObject>, vals: Seq<Value>, fuel: nat) -> Option<Seq<Content>>
    decreases fuel, vals.len() + 1,
{
    if vals.len() == 0 {
        Some(Seq::empty())
    } else {
        match contents(objs, vals.drop_last(), fuel) {
            Some(cs) => match content(objs, vals.last(), fuel) {
                Some(c) => Some(cs.push(c)),
                None => None,
            },
            None => None,
        }
    }
}

/// `v` has a content in `objs` (its references are valid and not cyclic).
pub open spec fn has_content(objs: Seq<HeapObject>, v: Value) -> bool {
    exists|f: nat| #[trigger] content(objs, v, f) is Some
}

/// The content of `v` in `objs`, when it has one.
pub open spec fn content_of(objs: Seq<HeapObject>, v: Value) -> Content {
    content(objs, v, choose|f: nat| #[trigger] content(objs, v, f) is Some).unwrap()
}

/// The encoding of a content.
pub open spec fn encode(c: Content) -> Seq<u8>
    decreases c,
{
    match c {
        Content::Int(i) => seq![TAG_INT] + le64(i as u64),
        Content::Float(b) => seq![TAG_FLOAT] + le64(b),
        Content::Bool(b) => seq![TAG_BOOL, if b { 1u8 } else { 0u8 }],
        Content::Null => seq![TAG_NULL],
        Content::Str(s) => seq![TAG_STRING] + le32(encode_utf8(s).len() as u32) + encode_utf8(s),
        Content::List(cs) => seq![TAG_LIST] + le32(cs.len() as u32) + encode_all(cs),
    }
}

/// The encodings of a sequence of contents, back to back.
pub open spec fn encode_all(cs: Seq<Content>) -> Seq<u8>
    decreases cs,
{
    if cs.len() == 0 {
        Seq::empty()
    } else {
        encode_all(cs.drop_last()) + encode(cs.last())
    }
}

proof fn lemma_content_mono(objs: Seq<HeapObject>, v: Value, f1: nat, f2: nat)
    requires
        content(objs, v, f1) is Some,
        f1 <= f2,
    ensures
        content(objs, v, f2) == content(objs, v, f1),
    decreases f1, 0nat,
{
    if let Value::List(gc) = v {
        if let HeapObject::List(l) = objs[gc.index as int] {
            lemma_contents_mono(objs, l.elements@, (f1 - 1) as nat, (f2 - 1) as nat);
        }
    }
}

proof fn lemma_contents_mono(objs: Seq<HeapObject>, vals: Seq<Value>, f1: nat, f2: nat)
    requires
        contents(objs, vals, f1) is Some,
        f1 <= f2,
    ensures
        contents(objs, vals, f2) == contents(objs, vals, f1),
    decreases f1, vals.len() + 1,
{
    if vals.len() > 0 {
        lemma_contents_mono(objs, vals.drop_last(), f1, f2);
        lemma_content_mono(objs, vals.last(), f1, f2);
    }
}

/// Any fuel that gives a content gives the one `content_of` names.
pub proof fn lemma_content_of(objs: Seq<HeapObject>, v: Value, f: nat)
    requires
        content(objs, v, f) is Some,
    ensures
        has_content(objs, v),
        content_of(objs, v) == content(objs, v, f).unwrap(),
{
    let g = choose|g: nat| #[trigger] content(objs, v, g) is Some;
    if g <= f {
        lemma_content_mono(objs, v, g, f);
    } else {
        lemma_content_mono(objs, v, f, g);
    }
}

/// Each element of a list with contents has a content, at the same fuel.
proof fn lemma_contents_index(objs: Seq<HeapObject>, vals: Seq<Value>, f: nat, i: int)
    requires
        contents(objs, vals, f) is Some,
        0 <= i < vals.len(),
    ensures
        content(objs, vals[i], f) is Some,
        contents(objs, vals, f).unwrap().len() == vals.len(),
        contents(objs, vals, f).unwrap()[i] == content(objs, vals[i], f).unwrap(),
    decreases vals.len(),
{
    if i < vals.len() - 1 {
        lemma_contents_index(objs, vals.drop_last(), f, i);
    } else {
        lemma_contents_len(objs, vals.drop_last(), f);
    }
}

proof fn lemma_contents_len(objs: Seq<HeapObject>, vals: Seq<Value>, f: nat)
    requires
        contents(objs, vals, f) is Some,
    ensures
        contents(objs, vals, f).unwrap().len() == vals.len(),
    decreases vals.len(),
{
    if vals.len() > 0 {
        lemma_contents_len(objs, vals.drop_last(), f);
    }
}

/// `b` keeps every entry of `a`.
pub open spec fn map_extends<K, V>(a: Map<K, V>, b: Map<K, V>) -> bool {
    forall|k: K| #[trigger] a.contains_key(k) ==> b.contains_key(k) && b[k] == a[k]
}

proof fn lemma_map_extends_trans<K, V>(a: Map<K, V>, b: Map<K, V>, c: Map<K, V>)
    requires
        map_extends(a, b),
        map_extends(b, c),
    ensures
        map_extends(a, c),
{
    assert forall|k: K| #[trigger] a.contains_key(k) implies c.contains_key(k) && c[k] == a[k] by {
        assert(b.contains_key(k));
    }
}

/// The numbering after slot `i` is met: a slot seen before keeps its
/// number, a new one gets `n` and the next number moves on.
pub open spec fn record(m: Map<usize, u32>, n: u32, i: usize) -> (Map<usize, u32>, u32) {
    if m.contains_key(i) {
        (m, n)
    } else {
        (m.insert(i, n), n.wrapping_add(1))
    }
}

/// The numbering after writing `v` (its lists followed within `fuel`
/// levels): every string and list met is recorded in first-encounter order,
/// a list before its elements.
pub open spec fn recorded(objs: Seq<HeapObject>, v: Value, fuel: nat, m: Map<usize, u32>, n: u32) -> (
    Map<usize, u32>,
    u32,
)
    decreases fuel, 0nat,
{
    match v {
        Value::String(gc) => record(m, n, gc.index),
        Value::List(gc) => if fuel > 0 && gc.index < objs.len() {
            match objs[gc.index as int] {
                HeapObject::List(l) => {
                    let (m1, n1) = record(m, n, gc.index);
                    recorded_all(objs, l.elements@, (fuel - 1) as nat, m1, n1)
                },
                _ => (m, n),
            }
        } else {
            (m, n)
        },
        _ => (m, n),
    }
}

/// The numbering after writing `vals` in order.
pub open spec fn recorded_all(objs: Seq<HeapObject>, vals: Seq<Value>, fuel: nat, m: Map<usize, u32>, n: u32) -> (
    Map<usize, u32>,
    u32,
)
    decreases fuel, vals.len() + 1,
{
    if vals.len() == 0 {
        (m, n)
    } else {
        let (m1, n1) = recorded_all(objs, vals.drop_last(), fuel, m, n);
        recorded(objs, vals.last(), fuel, m1, n1)
    }
}

/// `m` numbers its objects `0..n` one to one: every number below `n` belongs
/// to exactly one object, and no object has another number.
pub open spec fn numbered(m: Map<usize, u32>, n: u32) -> bool {
    &&& m.dom().finite()
    &&& m.len() == n as nat
    &&& forall|k: usize| #[trigger] m.contains_key(k) ==> m[k] < n
    &&& forall|j: u32| j < n ==> #[trigger] number_taken(m, j)
    &&& forall|a: usize, b: usize| #[trigger] m.contains_key(a) && #[trigger] m.contains_key(b) && a != b ==> m[a] != m[b]
}

/// Some object has number `j` in `m`.
pub open spec fn number_taken(m: Map<usize, u32>, j: u32) -> bool {
    exists|k: usize| #[trigger] m.contains_key(k) && m[k] == j
}

/// Every object numbered in `m` is a slot below `len`.
pub open spec fn keys_below(m: Map<usize, u32>, len: nat) -> bool {
    forall|k: usize| #[trigger] m.contains_key(k) ==> k < len
}

proof fn lemma_small_keys(s: Set<usize>, len: nat)
    requires
        s.finite(),
        len <= u32::MAX,
        forall|k: usize| #[trigger] s.contains(k) ==> k < len,
    ensures
        s.len() <= len,
    decreases len,
{
    if len == 0 {
        assert(s =~= Set::<usize>::empty());
    } else {
        let top = (len - 1) as usize;
        let s2 = s.remove(top);
        assert forall|k: usize| #[trigger] s2.contains(k) implies k < (len - 1) as nat by {}
        lemma_small_keys(s2, (len - 1) as nat);
        if !s.contains(top) {
            assert(s2 =~= s);
        }
    }
}

proof fn lemma_record_numbered(m: Map<usize, u32>, n: u32, i: usize, len: nat)
    requires
        numbered(m, n),
        keys_below(m, len),
        i < len,
        len <= u32::MAX,
    ensures
        numbered(record(m, n, i).0, record(m, n, i).1),
        keys_below(record(m, n, i).0, len),
        map_extends(m, record(m, n, i).0),
{
    if !m.contains_key(i) {
        let d = m.dom().insert(i);
        assert forall|k: usize| #[trigger] d.contains(k) implies k < len by {}
        lemma_small_keys(d, len);
        assert(n < u32::MAX);
        let m2 = m.insert(i, n);
        assert(m2.dom() =~= d);
        assert forall|j: u32| j < n + 1 implies #[trigger] number_taken(m2, j) by {
            if j < n {
                assert(number_taken(m, j));
                let k = choose|k: usize| #[trigger] m.contains_key(k) && m[k] == j;
                assert(m2.contains_key(k) && m2[k] == j);
            } else {
                assert(m2.contains_key(i) && m2[i] == j);
            }
        }
    }
}

proof fn lemma_recorded_numbered(objs: Seq<HeapObject>, v: Value, fuel: nat, m: Map<usize, u32>, n: u32)
    requires
        content(objs, v, fuel) is Some,
        numbered(m, n),
        keys_below(m, objs.len()),
        objs.len() <= u32::MAX,
    ensures
        numbered(recorded(objs, v, fuel, m, n).0, recorded(objs, v, fuel, m, n).1),
        keys_below(recorded(objs, v, fuel, m, n).0, objs.len()),
        map_extends(m, recorded(objs, v, fuel, m, n).0),
    decreases fuel, 0nat,
{
    match v {
        Value::String(gc) => {
            lemma_record_numbered(m, n, gc.index, objs.len());
        },
        Value::List(gc) => {
            if let HeapObject::List(l) = objs[gc.index as int] {
                let (m1, n1) = record(m, n, gc.index);
                lemma_record_numbered(m, n, gc.index, objs.len());
                lemma_recorded_all_numbered(objs, l.elements@, (fuel - 1) as nat, m1, n1);
                lemma_map_extends_trans(m, m1, recorded_all(objs, l.elements@, (fuel - 1) as nat, m1, n1).0);
            }
        },
        _ => {},
    }
}

proof fn lemma_recorded_all_numbered(objs: Seq<HeapObject>, vals: Seq<Value>, fuel: nat, m: Map<usize, u32>, n: u32)
    requires
        contents(objs, vals, fuel) is Some,
        numbered(m, n),
        keys_below(m, objs.len()),
        objs.len() <= u32::MAX,
    ensures
        numbered(recorded_all(objs, vals, fuel, m, n).0, recorded_all(objs, vals, fuel, m, n).1),
        keys_below(recorded_all(objs, vals, fuel, m, n).0, objs.len()),
        map_extends(m, recorded_all(objs, vals, fuel, m, n).0),
    decreases fuel, vals.len() + 1,
{
    if vals.len() > 0 {
        let (m1, n1) = recorded_all(objs, vals.drop_last(), fuel, m, n);
        lemma_recorded_all_numbered(objs, vals.drop_last(), fuel, m, n);
        lemma_recorded_numbered(objs, vals.last(), fuel, m1, n1);
        lemma_map_extends_trans(m, m1, recorded(objs, vals.last(), fuel, m1, n1).0);
    }
}

/// Writing a value keeps the object numbering one to one and dense: if the
/// objects met so far are numbered `0..n`, then after the value the objects
/// met are numbered `0..n'`, each keeps its number, and every numbered
/// object is a slot of the heap. A fresh context (empty numbering, next
/// number 0) starts so, so values written in turn number their strings and
/// lists from 0 up in the order they are first met.
pub proof fn law_numbering(heap: Heap, v: Value, m: Map<usize, u32>, n: u32)
    requires
        has_content(heap.objects(), v),
        numbered(m, n),
        keys_below(m, heap.objects().len()),
        heap.objects().len() <= u32::MAX,
    ensures
        numbered(Map::<usize, u32>::empty(), 0),
        numbered(recorded_of(heap, v, m, n).0, recorded_of(heap, v, m, n).1),
        keys_below(recorded_of(heap, v, m, n).0, heap.objects().len()),
        map_extends(m, recorded_of(heap, v, m, n).0),
{
    let f = choose|f: nat| #[trigger] content(heap.objects(), v, f) is Some;
    lemma_recorded_numbered(heap.objects(), v, f, m, n);
    assert(Map::<usize, u32>::empty().dom() =~= Set::<usize>::empty());
}

/// The numbering after writing `v` with the objects of `heap`.
pub open spec fn recorded_of(heap: Heap, v: Value, m: Map<usize, u32>, n: u32) -> (Map<usize, u32>, u32) {
    recorded(heap.objects(), v, choose|f: nat| #[trigger] content(heap.objects(), v, f) is Some, m, n)
}

/// Give heap slot `gc_index` a sequence number the first time it is seen;
/// returns its number.
fn record_object(map: &mut HashMap<usize, u32>, next: &mut u32, gc_index: usize) -> (seq: u32)
    ensures
        map_extends(old(map)@, final(map)@),
        final(map)@.contains_key(gc_index),
        final(map)@[gc_index] == seq,
        old(map)@.contains_key(gc_index) ==> seq == old(map)@[gc_index] && *final(next) == *old(next)
            && final(map)@ == old(map)@,
        !old(map)@.contains_key(gc_index) ==> seq == *old(next) && *final(next) == (*old(next)).wrapping_add(1)
            && final(map)@ == old(map)@.insert(gc_index, seq),
{
    broadcast use vstd::std_specs::hash::group_hash_axioms;

    match map.get(&gc_index) {
        Some(s) => *s,
        None => {
            let seq = *next;
            *next = next.wrapping_add(1);
            map.insert(gc_index, seq);
            seq
        },
    }
}

/// Append the encoding of `v`, whose content in `heap` is found within `fuel`
/// nested lists.
pub(crate) fn encode_value(
    buf: &mut Vec<u8>,
    heap: &Heap,
    v: &Value,
    map: &mut HashMap<usize, u32>,
    next: &mut u32,
    Ghost(fuel): Ghost<nat>,
)
    requires
        content(heap.objects(), *v, fuel) is Some,
    ensures
        final(buf)@ == old(buf)@ + encode(content(heap.objects(), *v, fuel).unwrap()),
        map_extends(old(map)@, final(map)@),
        forall|i: usize| value_ref(*v) == Some(i) ==> final(map)@.contains_key(i),
        (final(map)@, *final(next)) == recorded(heap.objects(), *v, fuel, old(map)@, *old(next)),
    decreases fuel,
{
    broadcast use vstd::std_specs::hash::group_hash_axioms;

    match v {
        Value::Int(i) => {
            buf.push(TAG_INT);
            push_u64(buf, *i as u64);
            assert(buf@ =~= old(buf)@ + (seq![TAG_INT] + le64(*i as u64)));
        },
        Value::Float(b) => {
            buf.push(TAG_FLOAT);
            push_u64(buf, *b);
            assert(buf@ =~= old(buf)@ + (seq![TAG_FLOAT] + le64(*b)));
        },
        Value::Bool(b) => {
            buf.push(TAG_BOOL);
            buf.push(if *b { 1u8 } else { 0u8 });
            assert(buf@ =~= old(buf)@ + seq![TAG_BOOL, if *b { 1u8 } else { 0u8 }]);
        },
        Value::Null => {
            buf.push(TAG_NULL);
            assert(buf@ =~= old(buf)@ + seq![TAG_NULL]);
        },
        Value::String(gc) => {
            let s: &StringObj = match heap.get_object(gc.index) {
                Some(HeapObject::String(s)) => s,
                _ => {
                    assert(false);
                    return;
                },
            };
            record_object(map, next, gc.index);
            let bytes = s.data.as_str().as_bytes();
            buf.push(TAG_STRING);
            push_u32(buf, bytes.len() as u32);
            push_bytes(buf, bytes);
            assert(buf@ =~= old(buf)@ + (seq![TAG_STRING] + le32(encode_utf8(s.data@).len() as u32)
                + encode_utf8(s.data@)));
        },
        Value::List(gc) => {
            let l: &ListObj = match heap.get_object(gc.index) {
                Some(HeapObject::List(l)) => l,
                _ => {
                    assert(false);
                    return;
                },
            };
            let ghost cs = contents(heap.objects(), l.elements@, (fuel - 1) as nat).unwrap();
            proof {
                lemma_contents_len(heap.objects(), l.elements@, (fuel - 1) as nat);
            }
            record_object(map, next, gc.index);
            let ghost map1 = map@;
            let ghost next1 = *next;
            buf.push(TAG_LIST);
            push_u32(buf, l.elements.len() as u32);
            let ghost head = buf@;
            let mut i: usize = 0;
            while i < l.elements.len()
                invariant
                    fuel > 0,
                    i <= l.elements@.len(),
                    contents(heap.objects(), l.elements@, (fuel - 1) as nat) == Some(cs),
                    cs.len() == l.elements@.len(),
                    buf@ == head + encode_all(cs.take(i as int)),
                    map_extends(map1, map@),
                    (map@, *next) == recorded_all(
                        heap.objects(),
                        l.elements@.take(i as int),
                        (fuel - 1) as nat,
                        map1,
                        next1,
                    ),
                decreases l.elements@.len() - i,
            {
                proof {
                    lemma_contents_index(heap.objects(), l.elements@, (fuel - 1) as nat, i as int);
                }
                let ghost mb = map@;
                encode_value(buf, heap, &l.elements[i], map, next, Ghost((fuel - 1) as nat));
                proof {
                    lemma_map_extends_trans(map1, mb, map@);
                }
                assert(cs.take(i + 1).drop_last() =~= cs.take(i as int));
                assert(l.elements@.take(i + 1).drop_last() =~= l.elements@.take(i as int));
                assert(l.elements@.take(i + 1).last() == l.elements@[i as int]);
                i = i + 1;
            }
            assert(cs.take(i as int) =~= cs);
            assert(l.elements@.take(i as int) =~= l.elements@);
            assert(buf@ =~= old(buf)@ + (seq![TAG_LIST] + le32(cs.len() as u32) + encode_all(cs)));
            proof {
                lemma_map_extends_trans(old(map)@, map1, map@);
            }
        },
    }
}

/// Errors that can occur during deserialization.
#[derive(Debug, Clone, Copy, PartialEq)]
pub enum SerError {
    /// Reached end of data while expecting more bytes.
    UnexpectedEof,
    /// Unknown type tag byte encountered.
    UnknownValueTag(u8),
}

impl SerError {
    /// The error's message.
    pub fn display_string(&self) -> (s: String)
        ensures
            s@ == (match *self {
                SerError::UnexpectedEof => "unexpected end of serialized data"@,
                SerError::UnknownValueTag(b) => "unknown value tag: "@ + crate::text::spec_hex_byte(b),
            }),
    {
        match self {
            SerError::UnexpectedEof => crate::text::text("unexpected end of serialized data"),
            SerError::UnknownValueTag(b) => {
                let mut s = crate::text::text("unknown value tag: ");
                crate::text::push_hex_byte(&mut s, *b);
                s
            },
        }
    }
}

/// What `String::from_utf8_lossy` makes of `bytes`: the decoded text, with
/// each invalid sequence replaced by U+FFFD.
pub uninterp spec fn utf8_lossy(bytes: Seq<u8>) -> Seq<char>;

/// The text a byte string decodes to: the UTF-8 decoding when valid.
pub open spec fn text_of(bytes: Seq<u8>) -> Seq<char> {
    if valid_utf8(bytes) {
        decode_utf8(bytes)
    } else {
        utf8_lossy(bytes)
    }
}

/// Calls `String::from_utf8_lossy` and takes ownership of the result.
///
/// Trusted: the result is `utf8_lossy(bytes)`, and for valid UTF-8 it is the
/// decoded text (std documents that valid input is returned unchanged).
#[verifier::external_body]
pub(crate) fn string_from_utf8_lossy(bytes: &[u8]) -> (s: String)
    ensures
        s@ == utf8_lossy(bytes@),
        valid_utf8(bytes@) ==> s@ == decode_utf8(bytes@),
{
    String::from_utf8_lossy(bytes).into_owned()
}

/// How a value's encoding at the start of `data` decodes: its content and the
/// number of bytes it takes.
pub open spec fn parse_value(data: Seq<u8>) -> Result<(Content, nat), SerError>
    decreases data.len(), 0nat,
{
    if data.len() == 0 {
        Err(SerError::UnexpectedEof)
    } else {
        let tag = data[0];
        let rest = data.skip(1);
        if tag == TAG_INT {
            if rest.len() < 8 {
                Err(SerError::UnexpectedEof)
            } else {
                Ok((Content::Int(crate::wire::u64_at(rest, 0) as i64), 9nat))
            }
        } else if tag == TAG_FLOAT {
            if rest.len() < 8 {
                Err(SerError::UnexpectedEof)
            } else {
                Ok((Content::Float(crate::wire::u64_at(rest, 0)), 9nat))
            }
        } else if tag == TAG_BOOL {
            if rest.len() < 1 {
                Err(SerError::UnexpectedEof)
            } else {
                Ok((Content::Bool(rest[0] != 0), 2nat))
            }
        } else if tag == TAG_NULL {
            Ok((Content::Null, 1nat))
        } else if tag == TAG_STRING {
            if rest.len() < 4 {
                Err(SerError::UnexpectedEof)
            } else {
                let n = crate::wire::u32_at(rest, 0) as nat;
                if rest.len() < 4 + n {
                    Err(SerError::UnexpectedEof)
                } else {
                    Ok((Content::Str(text_of(rest.subrange(4, 4 + n as int))), 5 + n))
                }
            }
        } else if tag == TAG_LIST {
            if rest.len() < 4 {
                Err(SerError::UnexpectedEof)
            } else {
                let n = crate::wire::u32_at(rest, 0) as nat;
                match parse_list(data.skip(5), n) {
                    Ok((cs, k)) => Ok((Content::List(cs), 5 + k)),
                    Err(e) => Err(e),
                }
            }
        } else {
            Err(SerError::UnknownValueTag(tag))
        }
    }
}

/// How `n` consecutive value encodings at the start of `data` decode.
pub open spec fn parse_list(data: Seq<u8>, n: nat) -> Result<(Seq<Content>, nat), SerError>
    decreases data.len(), n + 1,
{
    if n == 0 {
        Ok((Seq::empty(), 0nat))
    } else {
        match parse_value(data) {
            Ok((c, k)) => if 1 <= k <= data.len() {
                match parse_list(data.skip(k as int), (n - 1) as nat) {
                    Ok((cs, k2)) => Ok((seq![c] + cs, k + k2)),
                    Err(e) => Err(e),
                }
            } else {
                Err(SerError::UnexpectedEof)
            },
            Err(e) => Err(e),
        }
    }
}

/// Every heap slot the content of `v` goes through is live (in range and not
/// free).
pub open spec fn content_live(objs: Seq<HeapObject>, free: Seq<usize>, v: Value, fuel: nat) -> bool
    decreases fuel, 0nat,
{
    match v {
        Value::String(gc) => gc.index < objs.len() && !free.contains(gc.index),
        Value::List(gc) => fuel > 0 && gc.index < objs.len() && !free.contains(gc.index) && match objs[gc.index as int] {
            HeapObject::List(l) => all_live(objs, free, l.elements@, (fuel - 1) as nat),
            _ => true,
        },
        _ => true,
    }
}

pub open spec fn all_live(objs: Seq<HeapObject>, free: Seq<usize>, vals: Seq<Value>, fuel: nat) -> bool
    decreases fuel, vals.len() + 1,
{
    vals.len() == 0 || (all_live(objs, free, vals.drop_last(), fuel) && content_live(objs, free, vals.last(), fuel))
}

/// Heap `(o2, f2)` keeps every live slot of `(o1, f1)` live and unchanged.
pub open spec fn keeps_live(o1: Seq<HeapObject>, f1: Seq<usize>, o2: Seq<HeapObject>, f2: Seq<usize>) -> bool {
    &&& o1.len() <= o2.len()
    &&& forall|i: usize|
        #![trigger o1[i as int]]
        i < o1.len() && !f1.contains(i) ==> o2[i as int] == o1[i as int] && !f2.contains(i)
}

pub(crate) proof fn lemma_content_kept(
    o1: Seq<HeapObject>,
    f1: Seq<usize>,
    o2: Seq<HeapObject>,
    f2: Seq<usize>,
    v: Value,
    fuel: nat,
)
    requires
        content(o1, v, fuel) is Some,
        content_live(o1, f1, v, fuel),
        keeps_live(o1, f1, o2, f2),
    ensures
        content(o2, v, fuel) == content(o1, v, fuel),
        content_live(o2, f2, v, fuel),
    decreases fuel, 0nat,
{
    match v {
        Value::String(gc) => {
            assert(o2[gc.index as int] == o1[gc.index as int]);
        },
        Value::List(gc) => {
            assert(o2[gc.index as int] == o1[gc.index as int]);
            if let HeapObject::List(l) = o1[gc.index as int] {
                lemma_contents_kept(o1, f1, o2, f2, l.elements@, (fuel - 1) as nat);
            }
        },
        _ => {},
    }
}

proof fn lemma_contents_kept(
    o1: Seq<HeapObject>,
    f1: Seq<usize>,
    o2: Seq<HeapObject>,
    f2: Seq<usize>,
    vals: Seq<Value>,
    fuel: nat,
)
    requires
        contents(o1, vals, fuel) is Some,
        all_live(o1, f1, vals, fuel),
        keeps_live(o1, f1, o2, f2),
    ensures
        contents(o2, vals, fuel) == contents(o1, vals, fuel),
        all_live(o2, f2, vals, fuel),
    decreases fuel, vals.len() + 1,
{
    if vals.len() > 0 {
        lemma_contents_kept(o1, f1, o2, f2, vals.drop_last(), fuel);
        lemma_content_kept(o1, f1, o2, f2, vals.last(), fuel);
    }
}

proof fn lemma_live_mono(objs: Seq<HeapObject>, free: Seq<usize>, v: Value, f1: nat, f2: nat)
    requires
        content(objs, v, f1) is Some,
        content_live(objs, free, v, f1),
        f1 <= f2,
    ensures
        content_live(objs, free, v, f2),
    decreases f1, 0nat,
{
    if let Value::List(gc) = v {
        if let HeapObject::List(l) = objs[gc.index as int] {
            lemma_all_live_mono(objs, free, l.elements@, (f1 - 1) as nat, (f2 - 1) as nat);
        }
    }
}

proof fn lemma_all_live_mono(objs: Seq<HeapObject>, free: Seq<usize>, vals: Seq<Value>, f1: nat, f2: nat)
    requires
        contents(objs, vals, f1) is Some,
        all_live(objs, free, vals, f1),
        f1 <= f2,
    ensures
        all_live(objs, free, vals, f2),
    decreases f1, vals.len() + 1,
{
    if vals.len() > 0 {
        lemma_all_live_mono(objs, free, vals.drop_last(), f1, f2);
        lemma_live_mono(objs, free, vals.last(), f1, f2);
    }
}

proof fn lemma_kept_slot(o1: Seq<HeapObject>, f1: Seq<usize>, o2: Seq<HeapObject>, f2: Seq<usize>, i: usize)
    requires
        keeps_live(o1, f1, o2, f2),
        i < o1.len(),
        !f1.contains(i),
    ensures
        i < o2.len(),
        o2[i as int] == o1[i as int],
        !f2.contains(i),
{
    assert(o1[i as int] == o1[i as int]);
}

#[verifier::spinoff_prover]
pub(crate) proof fn lemma_keeps_live_trans(
    o1: Seq<HeapObject>,
    f1: Seq<usize>,
    o2: Seq<HeapObject>,
    f2: Seq<usize>,
    o3: Seq<HeapObject>,
    f3: Seq<usize>,
)
    requires
        keeps_live(o1, f1, o2, f2),
        keeps_live(o2, f2, o3, f3),
    ensures
        keeps_live(o1, f1, o3, f3),
{
    assert forall|i: usize| i < o1.len() && !f1.contains(i) implies i < o3.len() && #[trigger] o1[i as int]
        == o3[i as int] && !f3.contains(i) by {
        lemma_kept_slot(o1, f1, o2, f2, i);
        lemma_kept_slot(o2, f2, o3, f3, i);
    }
}

/// Allocation keeps every live slot live and unchanged.
pub(crate) proof fn lemma_alloc_keeps_live(h1: Heap, h2: Heap, idx: usize, obj: HeapObject)
    requires
        h1.wf(),
        h1.free().len() > 0 ==> idx == h1.free().last() && h2.objects() == h1.objects().update(idx as int, obj)
            && h2.free() == h1.free().drop_last(),
        h1.free().len() == 0 ==> idx == h1.objects().len() && h2.objects() == h1.objects().push(obj) && h2.free()
            == h1.free(),
    ensures
        keeps_live(h1.objects(), h1.free(), h2.objects(), h2.free()),
        idx < h2.objects().len() && h2.objects()[idx as int] == obj && !h2.free().contains(idx),
        live_count(h2) == live_count(h1) + 1,
{
    h1.lemma_free_distinct();
    assert forall|i: usize|
        i < h1.objects().len() && !h1.free().contains(i) implies i < h2.objects().len()
            && h2.objects()[i as int] == #[trigger] h1.objects()[i as int] && !h2.free().contains(i) by {
        if h1.free().len() > 0 {
            assert(h1.free().contains(idx));
            if h2.free().contains(i) {
                let k = choose|k: int| 0 <= k < h2.free().len() && h2.free()[k] == i;
                assert(h1.free()[k] == i);
            }
        }
    }
    if h1.free().len() > 0 {
        if h2.free().contains(idx) {
            let k = choose|k: int| 0 <= k < h2.free().len() && h2.free()[k] == idx;
            assert(h1.free()[k] == h1.free()[h1.free().len() - 1]);
        }
    } else {
        assert(!h2.free().contains(idx));
    }
}

/// `v` has a content in `objs` and every slot it goes through is live.
pub open spec fn value_live(objs: Seq<HeapObject>, free: Seq<usize>, v: Value) -> bool {
    exists|f: nat| #[trigger] content(objs, v, f) is Some && content_live(objs, free, v, f)
}

/// A value whose slots are all live keeps its content in a heap that keeps
/// every live slot.
pub proof fn lemma_value_kept(o1: Seq<HeapObject>, f1: Seq<usize>, o2: Seq<HeapObject>, f2: Seq<usize>, v: Value)
    requires
        value_live(o1, f1, v),
        keeps_live(o1, f1, o2, f2),
    ensures
        value_live(o2, f2, v),
        has_content(o1, v),
        has_content(o2, v),
        content_of(o2, v) == content_of(o1, v),
{
    let f = choose|f: nat| #[trigger] content(o1, v, f) is Some && content_live(o1, f1, v, f);
    lemma_content_kept(o1, f1, o2, f2, v, f);
    lemma_content_of(o1, v, f);
    lemma_content_of(o2, v, f);
}

/// Decode the value encoded at `*pos`, allocating its strings and lists in
/// `heap` and recording each allocation in `map` under the next sequence number.
pub(crate) fn decode_value(
    data: &[u8],
    pos: &mut usize,
    heap: &mut Heap,
    map: &mut HashMap<u32, usize>,
) -> (r: Result<Value, SerError>)
    requires
        old(heap).wf(),
        *old(pos) <= data@.len(),
    ensures
        final(heap).wf(),
        final(heap).threshold() == old(heap).threshold(),
        keeps_live(old(heap).objects(), old(heap).free(), final(heap).objects(), final(heap).free()),
        r is Ok ==> *old(pos) < *final(pos),
        *final(pos) <= data@.len(),
        match r {
            Ok(v) => parse_value(data@.skip(*old(pos) as int)) matches Ok((c, k)) && *final(pos) == *old(pos) + k
                && exists|f: nat|
                content(final(heap).objects(), v, f) == Some(c) && content_live(
                    final(heap).objects(),
                    final(heap).free(),
                    v,
                    f,
                ),
            Err(e) => parse_value(data@.skip(*old(pos) as int)) == Err::<(Content, nat), SerError>(e),
        },
        r is Ok ==> live_count(*final(heap)) == live_count(*old(heap)) + objects_in(
            parse_value(data@.skip(*old(pos) as int))->Ok_0.0,
        ),
        parse_value(data@.skip(*old(pos) as int)) is Ok && objects_in(parse_value(data@.skip(*old(pos) as int))->Ok_0.0)
            == 0 ==> *final(heap) == *old(heap),
    decreases data@.len() - *old(pos),
{
    let ghost d = data@.skip(*pos as int);
    let start = *pos;
    let tag = match crate::wire::read_u8(data, pos) {
        Some(t) => t,
        None => return Err(SerError::UnexpectedEof),
    };
    proof {
        assert(d[0] == tag);
        assert(d.skip(1) =~= data@.skip(*pos as int));
    }
    if tag == TAG_INT {
        match crate::wire::read_u64(data, pos) {
            Some(v) => {
                assert(crate::wire::u64_at(d.skip(1), 0) == crate::wire::u64_at(data@, start + 1)) by {
                    assert(d.skip(1).subrange(0, 8) =~= data@.subrange(start + 1, start + 9));
                }
                let iv = v as i64;
                assert(content(heap.objects(), Value::Int(iv), 0) == Some(Content::Int(iv)));
                assert(content_live(heap.objects(), heap.free(), Value::Int(iv), 0));
                Ok(Value::Int(iv))
            },
            None => Err(SerError::UnexpectedEof),
        }
    } else if tag == TAG_FLOAT {
        match crate::wire::read_u64(data, pos) {
            Some(v) => {
                assert(crate::wire::u64_at(d.skip(1), 0) == crate::wire::u64_at(data@, start + 1)) by {
                    assert(d.skip(1).subrange(0, 8) =~= data@.subrange(start + 1, start + 9));
                }
                assert(content(heap.objects(), Value::Float(v), 0) == Some(Content::Float(v)));
                assert(content_live(heap.objects(), heap.free(), Value::Float(v), 0));
                Ok(Value::Float(v))
            },
            None => Err(SerError::UnexpectedEof),
        }
    } else if tag == TAG_BOOL {
        match crate::wire::read_u8(data, pos) {
            Some(b) => {
                assert(d.skip(1)[0] == b);
                assert(content(heap.objects(), Value::Bool(b != 0), 0) == Some(Content::Bool(b != 0)));
                assert(content_live(heap.objects(), heap.free(), Value::Bool(b != 0), 0));
                Ok(Value::Bool(b != 0))
            },
            None => Err(SerError::UnexpectedEof),
        }
    } else if tag == TAG_NULL {
        assert(content(heap.objects(), Value::Null, 0) == Some(Content::Null));
        assert(content_live(heap.objects(), heap.free(), Value::Null, 0));
        Ok(Value::Null)
    } else if tag == TAG_STRING {
        let len = match crate::wire::read_u32(data, pos) {
            Some(n) => n as usize,
            None => return Err(SerError::UnexpectedEof),
        };
        assert(crate::wire::u32_at(d.skip(1), 0) == crate::wire::u32_at(data@, start + 1)) by {
            assert(d.skip(1).subrange(0, 4) =~= data@.subrange(start + 1, start + 5));
        }
        let bytes = match crate::wire::read_bytes(data, pos, len) {
            Some(b) => b,
            None => return Err(SerError::UnexpectedEof),
        };
        assert(bytes@ =~= d.skip(1).subrange(4, 4 + len as int));
        let text = string_from_utf8_lossy(bytes);
        let ghost h1 = *heap;
        let gc = heap.alloc_string(text);
        proof {
            lemma_alloc_keeps_live(h1, *heap, gc.index, HeapObject::String(StringObj { data: text }));
            assert(text@ == text_of(d.skip(1).subrange(4, 4 + len as int)));
            assert(content(heap.objects(), Value::String(gc), 0) == Some(Content::Str(text@)));
            assert(content_live(heap.objects(), heap.free(), Value::String(gc), 0));
            assert(parse_value(d) == Ok::<(Content, nat), SerError>((Content::Str(text@), 5 + len as nat)));
            assert(objects_in(Content::Str(text@)) == 1);
            assert(live_count(*heap) == live_count(h1) + 1);
        }
        let seq = map.len() as u32;
        map.insert(seq, gc.index);
        assert(exists|f: nat| content(heap.objects(), Value::String(gc), f) == Some(Content::Str(text@)) && content_live(heap.objects(), heap.free(), Value::String(gc), f));
        Ok(Value::String(gc))
    } else if tag == TAG_LIST {
        let count = match crate::wire::read_u32(data, pos) {
            Some(n) => n,
            None => return Err(SerError::UnexpectedEof),
        };
        assert(crate::wire::u32_at(d.skip(1), 0) == crate::wire::u32_at(data@, start + 1)) by {
            assert(d.skip(1).subrange(0, 4) =~= data@.subrange(start + 1, start + 5));
        }
        let ghost body = data@.skip(start + 5);
        assert(body =~= d.skip(5));
        let ghost h0 = *heap;
        let mut elements: Vec<Value> = Vec::new();
        let ghost mut cs: Seq<Content> = Seq::empty();
        let ghost mut fmax: nat = 0;
        let mut i: u32 = 0;
        while i < count
            invariant
                heap.wf(),
                heap.threshold() == old(heap).threshold(),
                keeps_live(old(heap).objects(), old(heap).free(), heap.objects(), heap.free()),
                start == *old(pos),
                start + 5 <= *pos <= data@.len(),
                parse_value(data@.skip(start as int)) == (match parse_list(body, count as nat) {
                    Ok((cs, k)) => Ok((Content::List(cs), 5 + k)),
                    Err(e) => Err(e),
                }),
                body == data@.skip(start + 5),
                i <= count,
                elements@.len() == i,
                cs.len() == i,
                contents(heap.objects(), elements@, fmax) == Some(cs),
                all_live(heap.objects(), heap.free(), elements@, fmax),
                live_count(*heap) == live_count(*old(heap)) + objects_in_all(cs),
                parse_list(body, count as nat) == (match parse_list(
                    data@.skip(*pos as int),
                    (count - i) as nat,
                ) {
                    Ok((rest, k)) => Ok((cs + rest, ((*pos - start - 5) + k) as nat)),
                    Err(e) => Err(e),
                }),
            decreases count - i,
        {
            let ghost hb = *heap;
            let ghost cs0 = cs;
            let ghost pb = *pos;
            let ghost db = data@.skip(pb as int);
            let v = match decode_value(data, pos, heap, map) {
                Ok(v) => v,
                Err(e) => {
                    proof {
                        lemma_keeps_live_trans(
                            old(heap).objects(),
                            old(heap).free(),
                            hb.objects(),
                            hb.free(),
                            heap.objects(),
                            heap.free(),
                        );
                    }
                    assert(parse_list(db, (count - i) as nat) == Err::<(Seq<Content>, nat), SerError>(e));
                    return Err(e);
                },
            };
            proof {
                lemma_keeps_live_trans(
                    old(heap).objects(),
                    old(heap).free(),
                    hb.objects(),
                    hb.free(),
                    heap.objects(),
                    heap.free(),
                );
                let (c, k) = parse_value(db).unwrap();
                let f = choose|f: nat|
                    content(heap.objects(), v, f) == Some(c) && content_live(heap.objects(), heap.free(), v, f);
                lemma_contents_kept(hb.objects(), hb.free(), heap.objects(), heap.free(), elements@, fmax);
                let g = if f > fmax { f } else { fmax };
                lemma_contents_mono(heap.objects(), elements@, fmax, g);
                lemma_all_live_mono(heap.objects(), heap.free(), elements@, fmax, g);
                lemma_content_mono(heap.objects(), v, f, g);
                lemma_live_mono(heap.objects(), heap.free(), v, f, g);
                assert(db.skip(k as int) =~= data@.skip(*pos as int));
                assert(elements@.push(v).drop_last() =~= elements@);
                fmax = g;
                cs = cs.push(c);
                assert(cs.drop_last() =~= cs0);
            }
            let ghost prev = elements@;
            elements.push(v);
            proof {
                assert(elements@.drop_last() =~= prev);
                let (c, k) = parse_value(db).unwrap();
                let n = (count - i) as nat;
                assert(1 <= k <= db.len());
                assert(parse_list(db, n) == match parse_list(db.skip(k as int), (n - 1) as nat) {
                    Ok((rest, k2)) => Ok((seq![c] + rest, k + k2)),
                    Err(e) => Err(e),
                });
                assert(db.skip(k as int) =~= data@.skip(*pos as int));
                assert(cs.drop_last() == cs0);
                assert(parse_list(body, count as nat) == match parse_list(db, n) {
                    Ok((rest, kk)) => Ok((cs0 + rest, ((pb - start - 5) + kk) as nat)),
                    Err(e) => Err(e),
                });
                match parse_list(db.skip(k as int), (n - 1) as nat) {
                    Ok((rest, k2)) => {
                        assert(cs0 + (seq![c] + rest) =~= cs + rest);
                        assert(parse_list(body, count as nat) == Ok::<(Seq<Content>, nat), SerError>((cs + rest, ((*pos - start - 5) + k2) as nat)));
                    },
                    Err(e) => {},
                }
            }
            i = i + 1;
        }
        assert(parse_list(data@.skip(*pos as int), 0) == Ok::<(Seq<Content>, nat), SerError>((Seq::empty(), 0nat)));
        assert(cs + Seq::<Content>::empty() =~= cs);
        let ghost h1 = *heap;
        let gc = heap.alloc_list(elements);
        proof {
            lemma_alloc_keeps_live(h1, *heap, gc.index, HeapObject::List(ListObj { elements }));
            lemma_contents_kept(h1.objects(), h1.free(), heap.objects(), heap.free(), elements@, fmax);
            assert(content(heap.objects(), Value::List(gc), fmax + 1) == Some(Content::List(cs)));
            assert(content_live(heap.objects(), heap.free(), Value::List(gc), fmax + 1));
            lemma_keeps_live_trans(
                old(heap).objects(),
                old(heap).free(),
                h1.objects(),
                h1.free(),
                heap.objects(),
                heap.free(),
            );
        }
        let seq = map.len() as u32;
        map.insert(seq, gc.index);
        assert(exists|f: nat| content(heap.objects(), Value::List(gc), f) == Some(Content::List(cs)) && content_live(heap.objects(), heap.free(), Value::List(gc), f));
        assert(parse_value(d) == Ok::<(Content, nat), SerError>((Content::List(cs), (*pos - start) as nat)));
        assert(live_count(*heap) == live_count(h1) + 1);
        assert(objects_in(Content::List(cs)) == 1 + objects_in_all(cs));
        Ok(Value::List(gc))
    } else {
        Err(SerError::UnknownValueTag(tag))
    }
}

/// Serialization context: the output buffer, the heap the values live in,
/// and the order in which heap objects were first met.
#[derive(Debug, Clone)]
pub struct SerCtx<'a> {
    /// Accumulated serialized bytes.
    pub buf: Vec<u8>,
    /// Heap slot of each object met so far, mapped to its encounter order.
    pub object_map: HashMap<usize, u32>,
    /// The heap the values are read from.
    pub heap: &'a Heap,
    /// Sequence number the next new object gets.
    pub next_seq: u32,
}

impl<'a> SerCtx<'a> {
    pub fn new(heap: &'a Heap) -> (c: Self)
        ensures
            c.buf@ == Seq::<u8>::empty(),
            c.object_map@ == Map::<usize, u32>::empty(),
            *c.heap == *heap,
            c.next_seq == 0,
    {
        SerCtx { buf: Vec::new(), object_map: HashMap::new(), heap, next_seq: 0 }
    }
}

/// Deserialization context: the input, the read position, and a heap of its
/// own in which decoded strings and lists are allocated.
#[derive(Debug, Clone)]
pub struct DeCtx<'a> {
    /// The input.
    pub data: &'a [u8],
    /// The read position.
    pub pos: usize,
    /// Heap in which decoded objects are allocated.
    pub heap: Heap,
    /// Sequence number of each decoded heap object, mapped to its slot.
    pub object_map: HashMap<u32, usize>,
}

impl<'a> DeCtx<'a> {
    /// The input.
    pub open spec fn data(&self) -> Seq<u8> {
        self.data@
    }

    /// The read position.
    pub open spec fn pos(&self) -> usize {
        self.pos
    }

    /// Well-formed: the position is within the input and the heap is sound.
    pub open spec fn wf(&self) -> bool {
        &&& self.pos() <= self.data().len()
        &&& self.heap.wf()
    }

    /// The bytes not yet read.
    pub open spec fn rest(&self) -> Seq<u8> {
        self.data().skip(self.pos() as int)
    }

    pub fn new(data: &'a [u8]) -> (c: Self)
        ensures
            c.wf(),
            c.data() == data@,
            c.pos() == 0,
            c.heap.objects() == Seq::<HeapObject>::empty(),
            c.heap.free() == Seq::<usize>::empty(),
            c.object_map@ == Map::<u32, usize>::empty(),
    {
        DeCtx { data, pos: 0, heap: Heap::new(), object_map: HashMap::new() }
    }
}

/// Types that can be written through a `SerCtx` and read back through a
/// `DeCtx`.
pub trait Serializable: Sized {
    /// `self` can be written with the objects of `heap`.
    spec fn ser_requires(&self, heap: Heap) -> bool;

    /// The bytes `self` is written as.
    spec fn ser_bytes(&self, heap: Heap) -> Seq<u8>;

    /// The object numbering and next number after writing `self`, from `m`
    /// and `n`.
    spec fn ser_record(&self, heap: Heap, m: Map<usize, u32>, n: u32) -> (Map<usize, u32>, u32);

    /// `r` is what reading from `before` gives, leaving `after`.
    spec fn de_result(before: DeCtx, after: DeCtx, r: Result<Self, SerError>) -> bool;

    /// Write `self` into `ctx.buf`.
    fn serialize(&self, ctx: &mut SerCtx<'_>)
        requires
            self.ser_requires(*old(ctx).heap),
        ensures
            final(ctx).buf@ == old(ctx).buf@ + self.ser_bytes(*old(ctx).heap),
            *final(ctx).heap == *old(ctx).heap,
            (final(ctx).object_map@, final(ctx).next_seq) == self.ser_record(
                *old(ctx).heap,
                old(ctx).object_map@,
                old(ctx).next_seq,
            ),
    ;

    /// Read and reconstruct a value from `ctx`.
    fn deserialize(ctx: &mut DeCtx<'_>) -> (r: Result<Self, SerError>)
        requires
            old(ctx).wf(),
        ensures
            final(ctx).wf(),
            Self::de_result(*old(ctx), *final(ctx), r),
    ;
}

/// A value is written as the encoding of its content; reading decodes one
/// encoding, allocating its strings and lists in the context's heap.
impl Serializable for Value {
    open spec fn ser_requires(&self, heap: Heap) -> bool {
        has_content(heap.objects(), *self)
    }

    open spec fn ser_bytes(&self, heap: Heap) -> Seq<u8> {
        encode(content_of(heap.objects(), *self))
    }

    open spec fn ser_record(&self, heap: Heap, m: Map<usize, u32>, n: u32) -> (Map<usize, u32>, u32) {
        recorded(heap.objects(), *self, choose|f: nat| #[trigger] content(heap.objects(), *self, f) is Some, m, n)
    }

    open spec fn de_result(before: DeCtx, after: DeCtx, r: Result<Self, SerError>) -> bool {
        &&& after.data() == before.data()
        &&& keeps_live(before.heap.objects(), before.heap.free(), after.heap.objects(), after.heap.free())
        &&& match r {
            Ok(v) => parse_value(before.rest()) matches Ok((c, k)) && after.pos() == before.pos() + k
                && has_content(after.heap.objects(), v) && content_of(after.heap.objects(), v) == c,
            Err(e) => parse_value(before.rest()) == Err::<(Content, nat), SerError>(e),
        }
    }

    fn serialize(&self, ctx: &mut SerCtx<'_>) {
        let ghost f = choose|f: nat| #[trigger] content(ctx.heap.objects(), *self, f) is Some;
        proof {
            lemma_content_of(ctx.heap.objects(), *self, f);
        }
        encode_value(&mut ctx.buf, ctx.heap, self, &mut ctx.object_map, &mut ctx.next_seq, Ghost(f));
    }

    fn deserialize(ctx: &mut DeCtx<'_>) -> (r: Result<Self, SerError>) {
        let r = decode_value(ctx.data, &mut ctx.pos, &mut ctx.heap, &mut ctx.object_map);
        proof {
            if let Ok(v) = r {
                let c = parse_value(old(ctx).rest()).unwrap().0;
                let f = choose|f: nat|
                    content(ctx.heap.objects(), v, f) == Some(c) && content_live(
                        ctx.heap.objects(),
                        ctx.heap.free(),
                        v,
                        f,
                    );
                lemma_content_of(ctx.heap.objects(), v, f);
            }
        }
        r
    }
}

/// Every string and list length inside `c` fits the format's 32-bit counts.
pub open spec fn fits(c: Content) -> bool
    decreases c,
{
    match c {
        Content::Str(s) => encode_utf8(s).len() <= u32::MAX,
        Content::List(cs) => cs.len() <= u32::MAX && forall|i: int| 0 <= i < cs.len() ==> fits(#[trigger] cs[i]),
        _ => true,
    }
}

proof fn lemma_encode_nonempty(c: Content)
    ensures
        encode(c).len() >= 1,
        encode(c)[0] == match c {
            Content::Int(_) => TAG_INT,
            Content::Float(_) => TAG_FLOAT,
            Content::Bool(_) => TAG_BOOL,
            Content::Null => TAG_NULL,
            Content::Str(_) => TAG_STRING,
            Content::List(_) => TAG_LIST,
        },
{
}

proof fn lemma_encode_all_front(cs: Seq<Content>)
    requires
        cs.len() > 0,
    ensures
        encode_all(cs) == encode(cs[0]) + encode_all(cs.skip(1)),
    decreases cs.len(),
{
    if cs.len() == 1 {
        assert(cs.drop_last() =~= Seq::<Content>::empty());
        assert(cs.skip(1) =~= Seq::<Content>::empty());
        assert(encode_all(cs.skip(1)) =~= Seq::<u8>::empty());
        assert(encode_all(cs) =~= encode(cs[0]));
    } else {
        lemma_encode_all_front(cs.drop_last());
        assert(cs.drop_last().skip(1) =~= cs.skip(1).drop_last());
        assert(cs.skip(1).last() == cs.last());
        assert(encode_all(cs) =~= encode(cs[0]) + encode_all(cs.skip(1)));
    }
}

/// Decoding the encoding of a content gives it back, whatever follows.
pub proof fn lemma_parse_encode(c: Content, rest: Seq<u8>)
    requires
        fits(c),
    ensures
        parse_value(encode(c) + rest) == Ok::<(Content, nat), SerError>((c, encode(c).len())),
    decreases c,
{
    let data = encode(c) + rest;
    lemma_encode_nonempty(c);
    assert(data[0] == encode(c)[0]);
    match c {
        Content::Int(i) => {
            crate::wire::lemma_le64_roundtrip(i as u64, Seq::empty(), rest);
            assert(data.skip(1) =~= Seq::<u8>::empty() + crate::wire::le64(i as u64) + rest);
            assert(((i as u64) as i64) == i) by (bit_vector);
        },
        Content::Float(b) => {
            crate::wire::lemma_le64_roundtrip(b, Seq::empty(), rest);
            assert(data.skip(1) =~= Seq::<u8>::empty() + crate::wire::le64(b) + rest);
        },
        Content::Bool(b) => {
            assert(data.skip(1)[0] == if b { 1u8 } else { 0u8 });
        },
        Content::Null => {},
        Content::Str(t) => {
            let bytes = encode_utf8(t);
            let n = bytes.len() as u32;
            crate::wire::lemma_le32_roundtrip(n, Seq::empty(), bytes + rest);
            assert(data.skip(1) =~= Seq::<u8>::empty() + crate::wire::le32(n) + (bytes + rest));
            assert(data.skip(1).subrange(4, 4 + n as int) =~= bytes);
            vstd::utf8::encode_utf8_valid_utf8(t);
            vstd::utf8::encode_utf8_decode_utf8(t);
        },
        Content::List(cs) => {
            let n = cs.len() as u32;
            crate::wire::lemma_le32_roundtrip(n, Seq::empty(), encode_all(cs) + rest);
            assert(data.skip(1) =~= Seq::<u8>::empty() + crate::wire::le32(n) + (encode_all(cs) + rest));
            assert(data.skip(5) =~= encode_all(cs) + rest);
            lemma_parse_encode_all(cs, rest);
        },
    }
}

/// Decoding back-to-back encodings gives the contents back, whatever follows.
pub proof fn lemma_parse_encode_all(cs: Seq<Content>, rest: Seq<u8>)
    requires
        forall|i: int| 0 <= i < cs.len() ==> fits(#[trigger] cs[i]),
    ensures
        parse_list(encode_all(cs) + rest, cs.len()) == Ok::<(Seq<Content>, nat), SerError>(
            (cs, encode_all(cs).len()),
        ),
    decreases cs,
{
    if cs.len() == 0 {
        assert(cs =~= Seq::<Content>::empty());
    } else {
        lemma_encode_all_front(cs);
        let tail = cs.skip(1);
        assert forall|i: int| 0 <= i < tail.len() implies fits(#[trigger] tail[i]) by {
            assert(tail[i] == cs[i + 1]);
        }
        let data = encode_all(cs) + rest;
        assert(data =~= encode(cs[0]) + (encode_all(tail) + rest));
        lemma_parse_encode(cs[0], encode_all(tail) + rest);
        lemma_encode_nonempty(cs[0]);
        assert(data.skip(encode(cs[0]).len() as int) =~= encode_all(tail) + rest);
        lemma_parse_encode_all(tail, rest);
        assert(seq![cs[0]] + tail =~= cs);
    }
}

/// Law: writing a value with `Serializable::serialize` and reading the bytes
/// back with `Serializable::deserialize` gives a value with the same content
/// (heap references point at equal strings and lists), and reading consumes
/// exactly the bytes written, whatever follows them.
pub proof fn law_value_roundtrip(heap: Heap, v: Value, rest: Seq<u8>)
    requires
        v.ser_requires(heap),
        fits(content_of(heap.objects(), v)),
    ensures
        parse_value(v.ser_bytes(heap) + rest) == Ok::<(Content, nat), SerError>(
            (content_of(heap.objects(), v), v.ser_bytes(heap).len()),
        ),
{
    lemma_parse_encode(content_of(heap.objects(), v), rest);
}

} // verus!
