//! Finding the ends of snapshot entries without reading them.
//!
//! Reading a snapshot file only needs to know where each section ends; the
//! skip functions walk over values, heap objects, frames, I/O entries and
//! task entries by their tags and length fields. Fixed-size fields are
//! stepped over without a bounds check: a skip may leave the position past
//! the end of the data, which the next read (or the caller) then finds.

use vstd::prelude::*;

use crate::snapshot::{SnapshotError, TAG_BOOL, TAG_FLOAT, TAG_INT, TAG_LIST, TAG_NULL, TAG_STRING};
use crate::wire::u32_at;

verus! {

/// The `u32` at `p` and the position after it.
pub open spec fn u32_field(d: Seq<u8>, p: int) -> Result<(u32, int), SnapshotError> {
    if p + 4 > d.len() {
        Err(SnapshotError::UnexpectedEof)
    } else {
        Ok((u32_at(d, p), p + 4))
    }
}

/// `p + n`, or the end-of-data error when that overflows a `usize`.
pub open spec fn advance(p: int, n: int) -> Result<int, SnapshotError> {
    if p + n > usize::MAX {
        Err(SnapshotError::UnexpectedEof)
    } else {
        Ok(p + n)
    }
}

/// Where skipping the value at `p` leaves the position.
pub open spec fn skip_value_at(d: Seq<u8>, p: int) -> Result<int, SnapshotError> {
    if p >= d.len() {
        Err(SnapshotError::UnexpectedEof)
    } else {
        let t = d[p];
        if t == TAG_INT || t == TAG_FLOAT {
            advance(p + 1, 8)
        } else if t == TAG_BOOL {
            advance(p + 1, 1)
        } else if t == TAG_NULL {
            Ok(p + 1)
        } else if t == TAG_STRING || t == TAG_LIST {
            advance(p + 1, 4)
        } else {
            Err(SnapshotError::UnknownObjectTag(t))
        }
    }
}

/// Where skipping `n` values from `p` leaves the position.
pub open spec fn skip_values_at(d: Seq<u8>, p: int, n: nat) -> Result<int, SnapshotError>
    decreases n,
{
    if n == 0 {
        Ok(p)
    } else {
        match skip_values_at(d, p, (n - 1) as nat) {
            Ok(q) => skip_value_at(d, q),
            Err(e) => Err(e),
        }
    }
}

/// Where skipping the heap object at `p` leaves the position.
pub open spec fn skip_heap_object_at(d: Seq<u8>, p: int) -> Result<int, SnapshotError> {
    if p >= d.len() {
        Err(SnapshotError::UnexpectedEof)
    } else {
        let t = d[p];
        if t == TAG_STRING || t == TAG_LIST {
            match u32_field(d, p + 1) {
                Ok((n, q)) => if t == TAG_STRING {
                    advance(q, n as int)
                } else {
                    skip_values_at(d, q, n as nat)
                },
                Err(e) => Err(e),
            }
        } else {
            Err(SnapshotError::UnknownObjectTag(t))
        }
    }
}

/// Where skipping the frame entry at `p` leaves the position.
pub open spec fn skip_frame_at(d: Seq<u8>, p: int) -> Result<int, SnapshotError> {
    match advance(p, 12) {
        Ok(q) => if q > d.len() {
            Err(SnapshotError::UnexpectedEof)
        } else {
            skip_values_at(d, q, u32_at(d, q - 4) as nat)
        },
        Err(e) => Err(e),
    }
}

/// Where skipping the I/O entry at `p` leaves the position.
pub open spec fn skip_io_at(d: Seq<u8>, p: int) -> Result<int, SnapshotError> {
    match advance(p, 10) {
        Ok(q) => if q > d.len() {
            Err(SnapshotError::UnexpectedEof)
        } else {
            match advance(q, u32_at(d, q - 4) as int) {
                Ok(r) => match u32_field(d, r) {
                    Ok((c, s)) => {
                        let t = if c == 0xFFFF_FFFF {
                            Ok(s)
                        } else {
                            advance(s, c as int)
                        };
                        match t {
                            Ok(u) => advance(u, 8),
                            Err(e) => Err(e),
                        }
                    },
                    Err(e) => Err(e),
                },
                Err(e) => Err(e),
            }
        },
        Err(e) => Err(e),
    }
}

/// Where skipping `n` entries with `skip` from `p` leaves the position.
pub open spec fn skip_frames_at(d: Seq<u8>, p: int, n: nat) -> Result<int, SnapshotError>
    decreases n,
{
    if n == 0 {
        Ok(p)
    } else {
        match skip_frames_at(d, p, (n - 1) as nat) {
            Ok(q) => skip_frame_at(d, q),
            Err(e) => Err(e),
        }
    }
}

pub open spec fn skip_ios_at(d: Seq<u8>, p: int, n: nat) -> Result<int, SnapshotError>
    decreases n,
{
    if n == 0 {
        Ok(p)
    } else {
        match skip_ios_at(d, p, (n - 1) as nat) {
            Ok(q) => skip_io_at(d, q),
            Err(e) => Err(e),
        }
    }
}

pub open spec fn skip_heap_objects_at(d: Seq<u8>, p: int, n: nat) -> Result<int, SnapshotError>
    decreases n,
{
    if n == 0 {
        Ok(p)
    } else {
        match skip_heap_objects_at(d, p, (n - 1) as nat) {
            Ok(q) => skip_heap_object_at(d, q),
            Err(e) => Err(e),
        }
    }
}

pub open spec fn skip_tasks_at(d: Seq<u8>, p: int, n: nat) -> Result<int, SnapshotError>
    decreases n,
{
    if n == 0 {
        Ok(p)
    } else {
        match skip_tasks_at(d, p, (n - 1) as nat) {
            Ok(q) => skip_task_at(d, q),
            Err(e) => Err(e),
        }
    }
}

/// The byte at `p` and the position after it.
pub open spec fn u8_field(d: Seq<u8>, p: int) -> Result<(u8, int), SnapshotError> {
    if p >= d.len() {
        Err(SnapshotError::UnexpectedEof)
    } else {
        Ok((d[p], p + 1))
    }
}

/// Position after an optional `u32`: present when `flag` is 1.
pub open spec fn skip_flagged(p: int, flag: u8) -> Result<int, SnapshotError> {
    if flag == 1 {
        advance(p, 4)
    } else {
        Ok(p)
    }
}

/// Where skipping the task entry at `p` leaves the position: id, parent
/// flag (and parent), status (and resume point), children, then the counted
/// stack values, frames and I/O entries.
pub open spec fn skip_task_at(d: Seq<u8>, p: int) -> Result<int, SnapshotError> {
    match advance(p, 4) {
        Err(e) => Err(e),
        Ok(p1) => match u8_field(d, p1) {
            Err(e) => Err(e),
            Ok((flag, p2)) => match skip_flagged(p2, flag) {
                Err(e) => Err(e),
                Ok(p3) => match u8_field(d, p3) {
                    Err(e) => Err(e),
                    Ok((status, p4)) => match skip_flagged(p4, status) {
                        Err(e) => Err(e),
                        Ok(p5) => match u32_field(d, p5) {
                            Err(e) => Err(e),
                            Ok((cc, p6)) => match advance(p6, cc * 4) {
                                Err(e) => Err(e),
                                Ok(p7) => skip_task_rest(d, p7),
                            },
                        },
                    },
                },
            },
        },
    }
}

/// Where skipping the counted stack values, frames and I/O entries of a task
/// entry at `p` leaves the position.
pub open spec fn skip_task_rest(d: Seq<u8>, p: int) -> Result<int, SnapshotError> {
    match u32_field(d, p) {
        Err(e) => Err(e),
        Ok((sc, q)) => match skip_values_at(d, q, sc as nat) {
            Err(e) => Err(e),
            Ok(q1) => match u32_field(d, q1) {
                Err(e) => Err(e),
                Ok((fc, q2)) => match skip_frames_at(d, q2, fc as nat) {
                    Err(e) => Err(e),
                    Ok(q3) => match u32_field(d, q3) {
                        Err(e) => Err(e),
                        Ok((ic, q4)) => skip_ios_at(d, q4, ic as nat),
                    },
                },
            },
        },
    }
}

/// The `u32` at `*pos`, advancing past it.
pub(crate) fn read_u32_field(data: &[u8], pos: &mut usize) -> (r: Result<u32, SnapshotError>)
    ensures
        match u32_field(data@, *old(pos) as int) {
            Ok((v, q)) => r == Ok::<u32, SnapshotError>(v) && *final(pos) == q && *old(pos) <= q,
            Err(e) => r == Err::<u32, SnapshotError>(e),
        },
{
    match crate::wire::read_u32(data, pos) {
        Some(v) => Ok(v),
        None => Err(SnapshotError::UnexpectedEof),
    }
}

/// The byte at `*pos`, advancing past it.
pub(crate) fn read_u8_field(data: &[u8], pos: &mut usize) -> (r: Result<u8, SnapshotError>)
    ensures
        match u8_field(data@, *old(pos) as int) {
            Ok((v, q)) => r == Ok::<u8, SnapshotError>(v) && *final(pos) == q && *old(pos) <= q,
            Err(e) => r == Err::<u8, SnapshotError>(e),
        },
{
    match crate::wire::read_u8(data, pos) {
        Some(v) => Ok(v),
        None => Err(SnapshotError::UnexpectedEof),
    }
}

/// Advance `*pos` by `n`, failing when that overflows.
fn step_by(pos: &mut usize, n: usize) -> (r: Result<(), SnapshotError>)
    ensures
        match advance(*old(pos) as int, n as int) {
            Ok(q) => r is Ok && *final(pos) == q && *old(pos) <= q,
            Err(e) => r == Err::<(), SnapshotError>(e),
        },
{
    match pos.checked_add(n) {
        Some(q) => {
            *pos = q;
            Ok(())
        },
        None => Err(SnapshotError::UnexpectedEof),
    }
}

impl crate::snapshot::Snapshot {
    /// Skip past one value (position-reference format).
    pub(crate) fn skip_value(data: &[u8], pos: &mut usize) -> (r: Result<(), SnapshotError>)
        ensures
            match skip_value_at(data@, *old(pos) as int) {
                Ok(q) => r is Ok && *final(pos) == q && *old(pos) <= q,
                Err(e) => r == Err::<(), SnapshotError>(e),
            },
    {
        let tag = read_u8_field(data, pos)?;
        if tag == TAG_INT || tag == TAG_FLOAT {
            step_by(pos, 8)
        } else if tag == TAG_BOOL {
            step_by(pos, 1)
        } else if tag == TAG_NULL {
            Ok(())
        } else if tag == TAG_STRING || tag == TAG_LIST {
            step_by(pos, 4)
        } else {
            Err(SnapshotError::UnknownObjectTag(tag))
        }
    }

    /// Skip past `n` values.
    pub(crate) fn skip_values(data: &[u8], pos: &mut usize, n: u32) -> (r: Result<(), SnapshotError>)
        ensures
            match skip_values_at(data@, *old(pos) as int, n as nat) {
                Ok(q) => r is Ok && *final(pos) == q && *old(pos) <= q,
                Err(e) => r == Err::<(), SnapshotError>(e),
            },
    {
        let ghost p0 = *pos as int;
        let mut i: u32 = 0;
        while i < n
            invariant
                i <= n,
                p0 == *old(pos),
                p0 <= *pos,
                skip_values_at(data@, p0, i as nat) == Ok::<int, SnapshotError>(*pos as int),
            decreases n - i,
        {
            let r = Self::skip_value(data, pos);
            if r.is_err() {
                proof {
                    lemma_skip_err(data@, p0, (i + 1) as nat, n as nat, 0);
                }
                return r;
            }
            i = i + 1;
        }
        Ok(())
    }

    /// Skip past one heap object.
    pub(crate) fn skip_heap_object(data: &[u8], pos: &mut usize) -> (r: Result<(), SnapshotError>)
        ensures
            match skip_heap_object_at(data@, *old(pos) as int) {
                Ok(q) => r is Ok && *final(pos) == q && *old(pos) <= q,
                Err(e) => r == Err::<(), SnapshotError>(e),
            },
    {
        let tag = read_u8_field(data, pos)?;
        if tag == TAG_STRING {
            let len = read_u32_field(data, pos)?;
            step_by(pos, len as usize)
        } else if tag == TAG_LIST {
            let count = read_u32_field(data, pos)?;
            Self::skip_values(data, pos, count)
        } else {
            Err(SnapshotError::UnknownObjectTag(tag))
        }
    }

    /// Skip past one frame entry: function, instruction pointer and local
    /// count as `u32`s, then the locals.
    pub(crate) fn skip_frame_entry(data: &[u8], pos: &mut usize) -> (r: Result<(), SnapshotError>)
        ensures
            match skip_frame_at(data@, *old(pos) as int) {
                Ok(q) => r is Ok && *final(pos) == q && *old(pos) <= q,
                Err(e) => r == Err::<(), SnapshotError>(e),
            },
    {
        step_by(pos, 12)?;
        let mut at = *pos - 4;
        if *pos > data.len() {
            return Err(SnapshotError::UnexpectedEof);
        }
        let count = read_u32_field(data, &mut at)?;
        Self::skip_values(data, pos, count)
    }

    /// Skip past one I/O handle entry.
    pub(crate) fn skip_io_entry(data: &[u8], pos: &mut usize) -> (r: Result<(), SnapshotError>)
        ensures
            match skip_io_at(data@, *old(pos) as int) {
                Ok(q) => r is Ok && *final(pos) == q && *old(pos) <= q,
                Err(e) => r == Err::<(), SnapshotError>(e),
            },
    {
        step_by(pos, 10)?;
        if *pos > data.len() {
            return Err(SnapshotError::UnexpectedEof);
        }
        let mut at = *pos - 4;
        let params_len = read_u32_field(data, &mut at)?;
        step_by(pos, params_len as usize)?;
        let cached_len = read_u32_field(data, pos)?;
        if cached_len != 0xFFFF_FFFFu32 {
            step_by(pos, cached_len as usize)?;
        }
        step_by(pos, 8)
    }

    /// Skip past `n` frame entries.
    pub(crate) fn skip_frame_entries(data: &[u8], pos: &mut usize, n: u32) -> (r: Result<(), SnapshotError>)
        ensures
            match skip_frames_at(data@, *old(pos) as int, n as nat) {
                Ok(q) => r is Ok && *final(pos) == q && *old(pos) <= q,
                Err(e) => r == Err::<(), SnapshotError>(e),
            },
    {
        let ghost p0 = *pos as int;
        let mut i: u32 = 0;
        while i < n
            invariant
                i <= n,
                p0 == *old(pos),
                p0 <= *pos,
                skip_frames_at(data@, p0, i as nat) == Ok::<int, SnapshotError>(*pos as int),
            decreases n - i,
        {
            let r = Self::skip_frame_entry(data, pos);
            if r.is_err() {
                proof {
                    lemma_skip_err(data@, p0, (i + 1) as nat, n as nat, 1);
                }
                return r;
            }
            i = i + 1;
        }
        Ok(())
    }

    /// Skip past `n` I/O entries.
    pub(crate) fn skip_io_entries(data: &[u8], pos: &mut usize, n: u32) -> (r: Result<(), SnapshotError>)
        ensures
            match skip_ios_at(data@, *old(pos) as int, n as nat) {
                Ok(q) => r is Ok && *final(pos) == q && *old(pos) <= q,
                Err(e) => r == Err::<(), SnapshotError>(e),
            },
    {
        let ghost p0 = *pos as int;
        let mut i: u32 = 0;
        while i < n
            invariant
                i <= n,
                p0 == *old(pos),
                p0 <= *pos,
                skip_ios_at(data@, p0, i as nat) == Ok::<int, SnapshotError>(*pos as int),
            decreases n - i,
        {
            let r = Self::skip_io_entry(data, pos);
            if r.is_err() {
                proof {
                    lemma_skip_err(data@, p0, (i + 1) as nat, n as nat, 2);
                }
                return r;
            }
            i = i + 1;
        }
        Ok(())
    }

    /// Skip past `n` heap objects.
    pub(crate) fn skip_heap_objects(data: &[u8], pos: &mut usize, n: u32) -> (r: Result<(), SnapshotError>)
        ensures
            match skip_heap_objects_at(data@, *old(pos) as int, n as nat) {
                Ok(q) => r is Ok && *final(pos) == q && *old(pos) <= q,
                Err(e) => r == Err::<(), SnapshotError>(e),
            },
    {
        let ghost p0 = *pos as int;
        let mut i: u32 = 0;
        while i < n
            invariant
                i <= n,
                p0 == *old(pos),
                p0 <= *pos,
                skip_heap_objects_at(data@, p0, i as nat) == Ok::<int, SnapshotError>(*pos as int),
            decreases n - i,
        {
            let r = Self::skip_heap_object(data, pos);
            if r.is_err() {
                proof {
                    lemma_skip_err(data@, p0, (i + 1) as nat, n as nat, 3);
                }
                return r;
            }
            i = i + 1;
        }
        Ok(())
    }

    /// Skip past `n` task entries.
    pub(crate) fn skip_task_entries(data: &[u8], pos: &mut usize, n: u32) -> (r: Result<(), SnapshotError>)
        ensures
            match skip_tasks_at(data@, *old(pos) as int, n as nat) {
                Ok(q) => r is Ok && *final(pos) == q && *old(pos) <= q,
                Err(e) => r == Err::<(), SnapshotError>(e),
            },
    {
        let ghost p0 = *pos as int;
        let mut i: u32 = 0;
        while i < n
            invariant
                i <= n,
                p0 == *old(pos),
                p0 <= *pos,
                skip_tasks_at(data@, p0, i as nat) == Ok::<int, SnapshotError>(*pos as int),
            decreases n - i,
        {
            let r = Self::skip_task_entry(data, pos);
            if r.is_err() {
                proof {
                    lemma_skip_err(data@, p0, (i + 1) as nat, n as nat, 4);
                }
                return r;
            }
            i = i + 1;
        }
        Ok(())
    }

    /// Skip past the counted stack values, frames and I/O entries of a task
    /// entry.
    pub(crate) fn skip_task_sections(data: &[u8], pos: &mut usize) -> (r: Result<(), SnapshotError>)
        ensures
            match skip_task_rest(data@, *old(pos) as int) {
                Ok(q) => r is Ok && *final(pos) == q && *old(pos) <= q,
                Err(e) => r == Err::<(), SnapshotError>(e),
            },
    {
        let sc = read_u32_field(data, pos)?;
        Self::skip_values(data, pos, sc)?;
        let fc = read_u32_field(data, pos)?;
        Self::skip_frame_entries(data, pos, fc)?;
        let ic = read_u32_field(data, pos)?;
        Self::skip_io_entries(data, pos, ic)
    }

    /// Skip past one task entry.
    pub(crate) fn skip_task_entry(data: &[u8], pos: &mut usize) -> (r: Result<(), SnapshotError>)
        ensures
            match skip_task_at(data@, *old(pos) as int) {
                Ok(q) => r is Ok && *final(pos) == q && *old(pos) <= q,
                Err(e) => r == Err::<(), SnapshotError>(e),
            },
    {
        step_by(pos, 4)?;
        let parent_flag = read_u8_field(data, pos)?;
        if parent_flag == 1 {
            step_by(pos, 4)?;
        }
        let status_kind = read_u8_field(data, pos)?;
        if status_kind == 1 {
            step_by(pos, 4)?;
        }
        let children_count = read_u32_field(data, pos)?;
        let bytes = children_count as u64 * 4;
        if bytes > usize::MAX as u64 {
            return Err(SnapshotError::UnexpectedEof);
        }
        step_by(pos, bytes as usize)?;
        Self::skip_task_sections(data, pos)
    }
}

/// Once a run of skips fails, it fails the same way however long it is
/// (`which`: 0 values, 1 frames, 2 I/O entries, 3 heap objects, 4 tasks).
proof fn lemma_skip_err(d: Seq<u8>, p: int, i: nat, n: nat, which: int)
    requires
        i <= n,
        which == 0 ==> skip_values_at(d, p, i) is Err,
        which == 1 ==> skip_frames_at(d, p, i) is Err,
        which == 2 ==> skip_ios_at(d, p, i) is Err,
        which == 3 ==> skip_heap_objects_at(d, p, i) is Err,
        which == 4 ==> skip_tasks_at(d, p, i) is Err,
    ensures
        which == 0 ==> skip_values_at(d, p, n) == skip_values_at(d, p, i),
        which == 1 ==> skip_frames_at(d, p, n) == skip_frames_at(d, p, i),
        which == 2 ==> skip_ios_at(d, p, n) == skip_ios_at(d, p, i),
        which == 3 ==> skip_heap_objects_at(d, p, n) == skip_heap_objects_at(d, p, i),
        which == 4 ==> skip_tasks_at(d, p, n) == skip_tasks_at(d, p, i),
    decreases n,
{
    if n > i {
        lemma_skip_err(d, p, i, (n - 1) as nat, which);
    }
}

} // verus!

verus! {

/// `a` lies in `d` from offset `o` on, and `d` fits in memory.
pub open spec fn lies_at(d: Seq<u8>, a: Seq<u8>, o: int) -> bool {
    &&& 0 <= o
    &&& o + a.len() <= d.len()
    &&& d.len() <= usize::MAX
    &&& forall|k: int| 0 <= k < a.len() ==> d[o + k] == #[trigger] a[k]
}

pub(crate) proof fn lemma_lies_in(pre: Seq<u8>, a: Seq<u8>, post: Seq<u8>)
    requires
        pre.len() + a.len() + post.len() <= usize::MAX,
    ensures
        lies_at(pre + a + post, a, pre.len() as int),
{
    assert forall|k: int| 0 <= k < a.len() implies (pre + a + post)[pre.len() + k] == #[trigger] a[k] by {}
}

/// Both halves of `a + b` lie in it.
pub(crate) proof fn lemma_lies_halves(a: Seq<u8>, b: Seq<u8>)
    requires
        a.len() + b.len() <= usize::MAX,
    ensures
        lies_at(a + b, a, 0),
        lies_at(a + b, b, a.len() as int),
{
    assert forall|k: int| 0 <= k < a.len() implies (a + b)[0 + k] == #[trigger] a[k] by {}
    assert forall|k: int| 0 <= k < b.len() implies (a + b)[a.len() + k] == #[trigger] b[k] by {}
}

pub(crate) proof fn lemma_u32_at_lies(d: Seq<u8>, a: Seq<u8>, o: int, i: int)
    requires
        lies_at(d, a, o),
        0 <= i,
        i + 4 <= a.len(),
    ensures
        u32_at(d, o + i) == u32_at(a, i),
{
    assert(d.subrange(o + i, o + i + 4) =~= a.subrange(i, i + 4)) by {
        assert forall|k: int| 0 <= k < 4 implies #[trigger] d.subrange(o + i, o + i + 4)[k] == a.subrange(i, i + 4)[k] by {
            assert(a[i + k] == d[o + (i + k)]);
        }
    }
}

/// Skipping a value ends where it does inside the part it lies in.
pub(crate) proof fn lemma_skip_value_lies(d: Seq<u8>, a: Seq<u8>, o: int, p: int, q: int)
    requires
        lies_at(d, a, o),
        0 <= p,
        skip_value_at(a, p) == Ok::<int, SnapshotError>(q),
        q <= a.len(),
    ensures
        p < q,
        skip_value_at(d, o + p) == Ok::<int, SnapshotError>(o + q),
{
    assert(a[p] == d[o + p]);
}

pub(crate) proof fn lemma_skip_values_lies(d: Seq<u8>, a: Seq<u8>, o: int, p: int, n: nat, q: int)
    requires
        lies_at(d, a, o),
        0 <= p,
        skip_values_at(a, p, n) == Ok::<int, SnapshotError>(q),
        q <= a.len(),
    ensures
        p <= q,
        skip_values_at(d, o + p, n) == Ok::<int, SnapshotError>(o + q),
    decreases n,
{
    if n > 0 {
        let q1 = skip_values_at(a, p, (n - 1) as nat)->Ok_0;
        assert(q1 < q) by {
            if q1 < a.len() {
                assert(a[q1] == a[q1]);
            }
        }
        lemma_skip_values_lies(d, a, o, p, (n - 1) as nat, q1);
        lemma_skip_value_lies(d, a, o, q1, q);
    }
}

pub(crate) proof fn lemma_skip_heap_object_lies(d: Seq<u8>, a: Seq<u8>, o: int, p: int, q: int)
    requires
        lies_at(d, a, o),
        0 <= p,
        skip_heap_object_at(a, p) == Ok::<int, SnapshotError>(q),
        q <= a.len(),
    ensures
        p < q,
        skip_heap_object_at(d, o + p) == Ok::<int, SnapshotError>(o + q),
{
    assert(a[p] == d[o + p]);
    let t = a[p];
    let n = u32_at(a, p + 1);
    if t == TAG_STRING {
        lemma_u32_at_lies(d, a, o, p + 1);
    } else {
        assert(p + 5 <= q) by {
            lemma_skip_values_mono(a, p + 5, n as nat);
        }
        lemma_u32_at_lies(d, a, o, p + 1);
        lemma_skip_values_lies(d, a, o, p + 5, n as nat, q);
    }
}

pub(crate) proof fn lemma_skip_values_mono(a: Seq<u8>, p: int, n: nat)
    ensures
        skip_values_at(a, p, n) matches Ok(q) ==> p <= q,
    decreases n,
{
    if n > 0 {
        lemma_skip_values_mono(a, p, (n - 1) as nat);
    }
}

pub(crate) proof fn lemma_skip_heap_objects_lies(d: Seq<u8>, a: Seq<u8>, o: int, p: int, n: nat, q: int)
    requires
        lies_at(d, a, o),
        0 <= p,
        skip_heap_objects_at(a, p, n) == Ok::<int, SnapshotError>(q),
        q <= a.len(),
    ensures
        p <= q,
        skip_heap_objects_at(d, o + p, n) == Ok::<int, SnapshotError>(o + q),
    decreases n,
{
    if n > 0 {
        let q1 = skip_heap_objects_at(a, p, (n - 1) as nat)->Ok_0;
        assert(q1 < q) by {
            lemma_skip_heap_object_mono(a, q1);
        }
        lemma_skip_heap_objects_lies(d, a, o, p, (n - 1) as nat, q1);
        lemma_skip_heap_object_lies(d, a, o, q1, q);
    }
}

pub(crate) proof fn lemma_skip_heap_object_mono(a: Seq<u8>, p: int)
    ensures
        skip_heap_object_at(a, p) matches Ok(q) ==> p < q,
{
    if p < a.len() && a[p] == TAG_LIST && p + 5 <= a.len() {
        lemma_skip_values_mono(a, p + 5, u32_at(a, p + 1) as nat);
    }
}


pub(crate) proof fn lemma_skip_frames_mono(a: Seq<u8>, p: int, n: nat)
    ensures
        skip_frames_at(a, p, n) matches Ok(q) ==> p <= q,
    decreases n,
{
    if n > 0 {
        lemma_skip_frames_mono(a, p, (n - 1) as nat);
        if let Ok(q1) = skip_frames_at(a, p, (n - 1) as nat) {
            if q1 + 12 <= a.len() {
                lemma_skip_values_mono(a, q1 + 12, u32_at(a, q1 + 8) as nat);
            }
        }
    }
}

pub(crate) proof fn lemma_skip_ios_mono(a: Seq<u8>, p: int, n: nat)
    ensures
        skip_ios_at(a, p, n) matches Ok(q) ==> p <= q,
    decreases n,
{
    if n > 0 {
        lemma_skip_ios_mono(a, p, (n - 1) as nat);
    }
}

pub(crate) proof fn lemma_skip_frame_lies(d: Seq<u8>, a: Seq<u8>, o: int, p: int, q: int)
    requires
        lies_at(d, a, o),
        0 <= p,
        skip_frame_at(a, p) == Ok::<int, SnapshotError>(q),
        q <= a.len(),
    ensures
        p < q,
        skip_frame_at(d, o + p) == Ok::<int, SnapshotError>(o + q),
{
    let n = u32_at(a, p + 8);
    lemma_skip_values_mono(a, p + 12, n as nat);
    lemma_u32_at_lies(d, a, o, p + 8);
    lemma_skip_values_lies(d, a, o, p + 12, n as nat, q);
}

pub(crate) proof fn lemma_skip_frames_lies(d: Seq<u8>, a: Seq<u8>, o: int, p: int, n: nat, q: int)
    requires
        lies_at(d, a, o),
        0 <= p,
        skip_frames_at(a, p, n) == Ok::<int, SnapshotError>(q),
        q <= a.len(),
    ensures
        p <= q,
        skip_frames_at(d, o + p, n) == Ok::<int, SnapshotError>(o + q),
    decreases n,
{
    if n > 0 {
        let q1 = skip_frames_at(a, p, (n - 1) as nat)->Ok_0;
        lemma_skip_values_mono(a, q1 + 12, u32_at(a, q1 + 8) as nat);
        lemma_skip_frames_lies(d, a, o, p, (n - 1) as nat, q1);
        lemma_skip_frame_lies(d, a, o, q1, q);
    }
}

pub(crate) proof fn lemma_skip_io_lies(d: Seq<u8>, a: Seq<u8>, o: int, p: int, q: int)
    requires
        lies_at(d, a, o),
        0 <= p,
        skip_io_at(a, p) == Ok::<int, SnapshotError>(q),
        q <= a.len(),
    ensures
        p < q,
        skip_io_at(d, o + p) == Ok::<int, SnapshotError>(o + q),
{
    let r = p + 10 + u32_at(a, p + 6);
    lemma_u32_at_lies(d, a, o, p + 6);
    lemma_u32_at_lies(d, a, o, r);
}

pub(crate) proof fn lemma_skip_ios_lies(d: Seq<u8>, a: Seq<u8>, o: int, p: int, n: nat, q: int)
    requires
        lies_at(d, a, o),
        0 <= p,
        skip_ios_at(a, p, n) == Ok::<int, SnapshotError>(q),
        q <= a.len(),
    ensures
        p <= q,
        skip_ios_at(d, o + p, n) == Ok::<int, SnapshotError>(o + q),
    decreases n,
{
    if n > 0 {
        let q1 = skip_ios_at(a, p, (n - 1) as nat)->Ok_0;
        lemma_skip_ios_lies(d, a, o, p, (n - 1) as nat, q1);
        lemma_skip_io_lies(d, a, o, q1, q);
    }
}

pub(crate) proof fn lemma_skip_task_rest_mono(a: Seq<u8>, p: int)
    ensures
        skip_task_rest(a, p) matches Ok(q) ==> p < q,
{
    if p + 4 <= a.len() {
        let sc = u32_at(a, p);
        lemma_skip_values_mono(a, p + 4, sc as nat);
        if let Ok(q1) = skip_values_at(a, p + 4, sc as nat) {
            if q1 + 4 <= a.len() {
                let fc = u32_at(a, q1);
                lemma_skip_frames_mono(a, q1 + 4, fc as nat);
                if let Ok(q3) = skip_frames_at(a, q1 + 4, fc as nat) {
                    if q3 + 4 <= a.len() {
                        lemma_skip_ios_mono(a, q3 + 4, u32_at(a, q3) as nat);
                    }
                }
            }
        }
    }
}

pub(crate) proof fn lemma_skip_task_rest_lies(d: Seq<u8>, a: Seq<u8>, o: int, p: int, q: int)
    requires
        lies_at(d, a, o),
        0 <= p,
        skip_task_rest(a, p) == Ok::<int, SnapshotError>(q),
        q <= a.len(),
    ensures
        p < q,
        skip_task_rest(d, o + p) == Ok::<int, SnapshotError>(o + q),
{
    lemma_skip_task_rest_mono(a, p);
    let sc = u32_at(a, p);
    let q1 = skip_values_at(a, p + 4, sc as nat)->Ok_0;
    let fc = u32_at(a, q1);
    let q3 = skip_frames_at(a, q1 + 4, fc as nat)->Ok_0;
    let ic = u32_at(a, q3);
    lemma_skip_values_mono(a, p + 4, sc as nat);
    lemma_skip_frames_mono(a, q1 + 4, fc as nat);
    lemma_skip_ios_mono(a, q3 + 4, ic as nat);
    lemma_u32_at_lies(d, a, o, p);
    lemma_skip_values_lies(d, a, o, p + 4, sc as nat, q1);
    lemma_u32_at_lies(d, a, o, q1);
    lemma_skip_frames_lies(d, a, o, q1 + 4, fc as nat, q3);
    lemma_u32_at_lies(d, a, o, q3);
    lemma_skip_ios_lies(d, a, o, q3 + 4, ic as nat, q);
}

pub(crate) proof fn lemma_skip_task_mono(a: Seq<u8>, p: int)
    ensures
        skip_task_at(a, p) matches Ok(q) ==> p < q,
{
    if let Ok(q) = skip_task_at(a, p) {
        let p1 = p + 4;
        let p3 = if a[p1] == 1 { p1 + 5 } else { p1 + 1 };
        let p5 = if a[p3] == 1 { p3 + 5 } else { p3 + 1 };
        let p7 = p5 + 4 + u32_at(a, p5) * 4;
        lemma_skip_task_rest_mono(a, p7);
    }
}

pub(crate) proof fn lemma_skip_task_lies(d: Seq<u8>, a: Seq<u8>, o: int, p: int, q: int)
    requires
        lies_at(d, a, o),
        0 <= p,
        skip_task_at(a, p) == Ok::<int, SnapshotError>(q),
        q <= a.len(),
    ensures
        p < q,
        skip_task_at(d, o + p) == Ok::<int, SnapshotError>(o + q),
{
    let p1 = p + 4;
    let p3 = if a[p1] == 1 { p1 + 5 } else { p1 + 1 };
    let p5 = if a[p3] == 1 { p3 + 5 } else { p3 + 1 };
    let p7 = p5 + 4 + u32_at(a, p5) * 4;
    lemma_skip_task_rest_mono(a, p7);
    assert(d[o + p1] == a[p1]);
    assert(d[o + p3] == a[p3]);
    lemma_u32_at_lies(d, a, o, p5);
    lemma_skip_task_rest_lies(d, a, o, p7, q);
}

pub(crate) proof fn lemma_skip_tasks_lies(d: Seq<u8>, a: Seq<u8>, o: int, p: int, n: nat, q: int)
    requires
        lies_at(d, a, o),
        0 <= p,
        skip_tasks_at(a, p, n) == Ok::<int, SnapshotError>(q),
        q <= a.len(),
    ensures
        p <= q,
        skip_tasks_at(d, o + p, n) == Ok::<int, SnapshotError>(o + q),
    decreases n,
{
    if n > 0 {
        let q1 = skip_tasks_at(a, p, (n - 1) as nat)->Ok_0;
        lemma_skip_task_mono(a, q1);
        lemma_skip_tasks_lies(d, a, o, p, (n - 1) as nat, q1);
        lemma_skip_task_lies(d, a, o, q1, q);
    }
}

/// The end of a counted section lying in `d` at `o` is where it is inside
/// the section.
pub(crate) proof fn lemma_counted_end_lies(d: Seq<u8>, a: Seq<u8>, o: int, n: nat, which: int)
    requires
        lies_at(d, a, o),
        crate::snapfile::counted_end(a, 0, n, which) == Ok::<int, SnapshotError>(a.len() as int),
    ensures
        crate::snapfile::counted_end(d, o, n, which) == Ok::<int, SnapshotError>(o + a.len()),
{
    let q = a.len() as int;
    if which == 0 {
        lemma_skip_frames_lies(d, a, o, 4, n, q);
    } else if which == 1 {
        lemma_skip_values_lies(d, a, o, 4, n, q);
    } else if which == 2 {
        lemma_skip_ios_lies(d, a, o, 4, n, q);
    } else {
        lemma_skip_tasks_lies(d, a, o, 4, n, q);
    }
}

} // verus!
