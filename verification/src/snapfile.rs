//! The snapshot file: the header fields, then the five sections back to
//! back.
//!
//! Reading a file finds the end of each section by skipping over its
//! entries, and keeps the section bytes as they are.

use std::collections::HashMap;
use vstd::prelude::*;

use crate::scan::{
    skip_frames_at, skip_heap_objects_at, skip_ios_at, skip_tasks_at, skip_values_at, u32_field, read_u32_field,
};
use crate::snapshot::{magic, Snapshot, SnapshotError, SnapshotHeader, VERSION};
use crate::wire::{le32, le64, u32_at, u64_at};

verus! {

/// The content of a snapshot file.
pub struct FileParts {
    pub version: u32,
    pub code_hash: u64,
    pub timestamp: u64,
    pub heap_count: u32,
    pub frame_count: u32,
    pub stack_count: u32,
    pub io_handle_count: u32,
    pub task_count: u32,
    pub heap: Seq<u8>,
    pub frames: Seq<u8>,
    pub stack: Seq<u8>,
    pub io: Seq<u8>,
    pub tasks: Seq<u8>,
}

/// How reading a snapshot file goes.
pub enum FileRead {
    /// The file reads back as these parts.
    Parsed(FileParts),
    /// The file does not start with `PAUS`; these are its first four bytes.
    BadMagic(Seq<u8>),
    /// Reading fails with this error.
    Failed(SnapshotError),
    /// A section's last entry claims more bytes than the file has.
    Cut,
}

/// The header fields after the magic, and where the sections start.
pub struct HeaderFields {
    pub version: u32,
    pub code_hash: u64,
    pub timestamp: u64,
    pub heap_count: u32,
    pub frame_count: u32,
    pub stack_count: u32,
    pub io_handle_count: u32,
    pub task_count: u32,
}

/// How the header after the magic reads: a version above the supported one
/// is refused; version 1 has no I/O count and versions 1 and 2 no task count.
pub open spec fn read_header(d: Seq<u8>) -> Result<(HeaderFields, int), SnapshotError> {
    if d.len() < 8 {
        Err(SnapshotError::UnexpectedEof)
    } else {
        let version = u32_at(d, 4);
        if version > VERSION {
            Err(SnapshotError::UnsupportedVersion(version))
        } else if d.len() < 36 {
            Err(SnapshotError::UnexpectedEof)
        } else {
            let (io, p) = if version >= 2 {
                if d.len() < 40 {
                    (None, 36int)
                } else {
                    (Some(u32_at(d, 36)), 40int)
                }
            } else {
                (Some(0u32), 36int)
            };
            match io {
                None => Err(SnapshotError::UnexpectedEof),
                Some(ic) => {
                    let (tc, q) = if version >= 3 {
                        if d.len() < p + 4 {
                            (None, p)
                        } else {
                            (Some(u32_at(d, p)), p + 4)
                        }
                    } else {
                        (Some(0u32), p)
                    };
                    match tc {
                        None => Err(SnapshotError::UnexpectedEof),
                        Some(tc) => Ok(
                            (
                                HeaderFields {
                                    version,
                                    code_hash: u64_at(d, 8),
                                    timestamp: u64_at(d, 16),
                                    heap_count: u32_at(d, 24),
                                    frame_count: u32_at(d, 28),
                                    stack_count: u32_at(d, 32),
                                    io_handle_count: ic,
                                    task_count: tc,
                                },
                                q,
                            ),
                        ),
                    }
                },
            }
        }
    }
}

/// The end of a counted section at `p` whose entries `skip` walks over; the
/// count inside the section is read but `n` (from the header) is used.
pub open spec fn counted_end(d: Seq<u8>, p: int, n: nat, which: int) -> Result<int, SnapshotError> {
    match u32_field(d, p) {
        Err(e) => Err(e),
        Ok((_, q)) => if which == 0 {
            skip_frames_at(d, q, n)
        } else if which == 1 {
            skip_values_at(d, q, n)
        } else if which == 2 {
            skip_ios_at(d, q, n)
        } else {
            skip_tasks_at(d, q, n)
        },
    }
}

/// How reading the snapshot file `d` goes.
pub open spec fn read_file(d: Seq<u8>) -> FileRead {
    if d.len() < 4 {
        FileRead::Failed(SnapshotError::UnexpectedEof)
    } else if d.subrange(0, 4) != magic() {
        FileRead::BadMagic(d.subrange(0, 4))
    } else {
        match read_header(d) {
            Err(e) => FileRead::Failed(e),
            Ok((h, p0)) => read_sections(d, h, p0),
        }
    }
}

/// How the sections of snapshot file `d` read, the header `h` having been
/// read up to `p0`.
pub open spec fn read_sections(d: Seq<u8>, h: HeaderFields, p0: int) -> FileRead {
    match skip_heap_objects_at(d, p0, h.heap_count as nat) {
        Err(e) => FileRead::Failed(e),
        Ok(p1) => if p1 > d.len() {
            FileRead::Cut
        } else {
            match counted_end(d, p1, h.frame_count as nat, 0) {
                Err(e) => FileRead::Failed(e),
                Ok(p2) => if p2 > d.len() {
                    FileRead::Cut
                } else {
                    match counted_end(d, p2, h.stack_count as nat, 1) {
                        Err(e) => FileRead::Failed(e),
                        Ok(p3) => if p3 > d.len() {
                            FileRead::Cut
                        } else {
                            read_tail(d, h, p0, p1, p2, p3)
                        },
                    }
                },
            }
        },
    }
}

/// The rest of `read_file` from the I/O section on.
pub open spec fn read_tail(d: Seq<u8>, h: HeaderFields, p0: int, p1: int, p2: int, p3: int) -> FileRead {
    let io = if h.version >= 2 {
        counted_end(d, p3, h.io_handle_count as nat, 2)
    } else {
        Ok(p3)
    };
    match io {
        Err(e) => FileRead::Failed(e),
        Ok(p4) => if p4 > d.len() {
            FileRead::Cut
        } else {
            let t = if h.task_count > 0 {
                counted_end(d, p4, h.task_count as nat, 3)
            } else {
                Ok(p4)
            };
            match t {
                Err(e) => FileRead::Failed(e),
                Ok(p5) => if p5 > d.len() {
                    FileRead::Cut
                } else {
                    FileRead::Parsed(
                        FileParts {
                            version: h.version,
                            code_hash: h.code_hash,
                            timestamp: h.timestamp,
                            heap_count: h.heap_count,
                            frame_count: h.frame_count,
                            stack_count: h.stack_count,
                            io_handle_count: h.io_handle_count,
                            task_count: h.task_count,
                            heap: d.subrange(p0, p1),
                            frames: d.subrange(p1, p2),
                            stack: d.subrange(p2, p3),
                            io: d.subrange(p3, p4),
                            tasks: d.subrange(p4, p5),
                        },
                    )
                },
            }
        },
    }
}

/// The parts of a snapshot as they go into its file.
pub open spec fn snapshot_parts(s: Snapshot) -> FileParts {
    FileParts {
        version: s.header.version,
        code_hash: s.header.code_hash,
        timestamp: s.header.timestamp,
        heap_count: s.header.heap_count,
        frame_count: s.header.frame_count,
        stack_count: s.header.stack_count,
        io_handle_count: s.header.io_handle_count,
        task_count: s.header.task_count,
        heap: s.heap_data@,
        frames: s.frames_data@,
        stack: s.stack_data@,
        io: s.io_section@,
        tasks: s.task_section@,
    }
}

/// The bytes of a snapshot file: magic, version, code hash, timestamp, the
/// five counts, then the sections.
pub open spec fn file_bytes(s: Snapshot) -> Seq<u8> {
    s.header.magic@ + le32(s.header.version) + le64(s.header.code_hash) + le64(s.header.timestamp) + le32(
        s.header.heap_count,
    ) + le32(s.header.frame_count) + le32(s.header.stack_count) + le32(s.header.io_handle_count) + le32(
        s.header.task_count,
    ) + s.heap_data@ + s.frames_data@ + s.stack_data@ + s.io_section@ + s.task_section@
}

/// The header fields and section bounds `scan_file` finds.
struct Layout {
    version: u32,
    code_hash: u64,
    timestamp: u64,
    heap_count: u32,
    frame_count: u32,
    stack_count: u32,
    io_handle_count: u32,
    task_count: u32,
    b0: usize,
    b1: usize,
    b2: usize,
    b3: usize,
    b4: usize,
    b5: usize,
    cut: bool,
}

/// Layout `l` describes the parsed file `p` of `d`.
spec fn layout_is(l: Layout, d: Seq<u8>, p: FileParts) -> bool {
    &&& !l.cut
    &&& l.version == p.version
    &&& l.code_hash == p.code_hash
    &&& l.timestamp == p.timestamp
    &&& l.heap_count == p.heap_count
    &&& l.frame_count == p.frame_count
    &&& l.stack_count == p.stack_count
    &&& l.io_handle_count == p.io_handle_count
    &&& l.task_count == p.task_count
    &&& l.b0 <= l.b1 <= l.b2 <= l.b3 <= l.b4 <= l.b5 <= d.len()
    &&& p.heap == d.subrange(l.b0 as int, l.b1 as int)
    &&& p.frames == d.subrange(l.b1 as int, l.b2 as int)
    &&& p.stack == d.subrange(l.b2 as int, l.b3 as int)
    &&& p.io == d.subrange(l.b3 as int, l.b4 as int)
    &&& p.tasks == d.subrange(l.b4 as int, l.b5 as int)
}

fn read_u64_field(data: &[u8], pos: &mut usize) -> (r: Result<u64, SnapshotError>)
    ensures
        *old(pos) + 8 <= data@.len() ==> r == Ok::<u64, SnapshotError>(u64_at(data@, *old(pos) as int)) && *final(pos)
            == *old(pos) + 8,
        *old(pos) + 8 > data@.len() ==> r == Err::<u64, SnapshotError>(SnapshotError::UnexpectedEof),
{
    match crate::wire::read_u64(data, pos) {
        Some(v) => Ok(v),
        None => Err(SnapshotError::UnexpectedEof),
    }
}

fn copy_range(data: &[u8], a: usize, b: usize) -> (v: Vec<u8>)
    requires
        a <= b <= data@.len(),
    ensures
        v@ == data@.subrange(a as int, b as int),
{
    let s = vstd::slice::slice_subrange(data, a, b);
    let mut v: Vec<u8> = Vec::new();
    crate::wire::push_bytes(&mut v, s);
    v
}

fn cut_layout() -> (l: Layout)
    ensures
        l.cut,
{
    Layout {
        version: 0,
        code_hash: 0,
        timestamp: 0,
        heap_count: 0,
        frame_count: 0,
        stack_count: 0,
        io_handle_count: 0,
        task_count: 0,
        b0: 0,
        b1: 0,
        b2: 0,
        b3: 0,
        b4: 0,
        b5: 0,
        cut: true,
    }
}

/// The header fields after the magic, as read.
struct Head {
    version: u32,
    code_hash: u64,
    timestamp: u64,
    heap_count: u32,
    frame_count: u32,
    stack_count: u32,
    io_handle_count: u32,
    task_count: u32,
}

spec fn head_is(x: Head, h: HeaderFields) -> bool {
    &&& x.version == h.version
    &&& x.code_hash == h.code_hash
    &&& x.timestamp == h.timestamp
    &&& x.heap_count == h.heap_count
    &&& x.frame_count == h.frame_count
    &&& x.stack_count == h.stack_count
    &&& x.io_handle_count == h.io_handle_count
    &&& x.task_count == h.task_count
}

/// Read the header fields after the magic.
fn scan_header(d: &[u8]) -> (r: Result<(Head, usize), SnapshotError>)
    ensures
        match read_header(d@) {
            Ok((h, p)) => r matches Ok((x, q)) && head_is(x, h) && q == p,
            Err(e) => r == Err::<(Head, usize), SnapshotError>(e),
        },
{
    let mut pos: usize = 4;
    let version = read_u32_field(d, &mut pos)?;
    if version > VERSION {
        return Err(SnapshotError::UnsupportedVersion(version));
    }
    let code_hash = read_u64_field(d, &mut pos)?;
    let timestamp = read_u64_field(d, &mut pos)?;
    let heap_count = read_u32_field(d, &mut pos)?;
    let frame_count = read_u32_field(d, &mut pos)?;
    let stack_count = read_u32_field(d, &mut pos)?;
    let io_handle_count = if version >= 2 {
        read_u32_field(d, &mut pos)?
    } else {
        0
    };
    let task_count = if version >= 3 {
        read_u32_field(d, &mut pos)?
    } else {
        0
    };
    Ok(
        (
            Head {
                version,
                code_hash,
                timestamp,
                heap_count,
                frame_count,
                stack_count,
                io_handle_count,
                task_count,
            },
            pos,
        ),
    )
}

/// Find the section bounds of a snapshot file whose header `x` was read up
/// to `p0`.
#[verifier::rlimit(30)]
fn scan_sections(d: &[u8], x: &Head, p0: usize, Ghost(h): Ghost<HeaderFields>) -> (r: Result<Layout, SnapshotError>)
    requires
        head_is(*x, h),
    ensures
        match read_sections(d@, h, p0 as int) {
            FileRead::Parsed(p) => r matches Ok(l) && layout_is(l, d@, p),
            FileRead::Cut => r matches Ok(l) && l.cut,
            FileRead::BadMagic(m) => false,
            FileRead::Failed(e) => r == Err::<Layout, SnapshotError>(e),
        },
{
    let mut pos = p0;
    Snapshot::skip_heap_objects(d, &mut pos, x.heap_count)?;
    let b1 = pos;
    if b1 > d.len() {
        return Ok(cut_layout());
    }
    read_u32_field(d, &mut pos)?;
    Snapshot::skip_frame_entries(d, &mut pos, x.frame_count)?;
    let b2 = pos;
    if b2 > d.len() {
        return Ok(cut_layout());
    }
    read_u32_field(d, &mut pos)?;
    Snapshot::skip_values(d, &mut pos, x.stack_count)?;
    let b3 = pos;
    if b3 > d.len() {
        return Ok(cut_layout());
    }
    if x.version >= 2 {
        read_u32_field(d, &mut pos)?;
        Snapshot::skip_io_entries(d, &mut pos, x.io_handle_count)?;
    }
    let b4 = pos;
    if b4 > d.len() {
        return Ok(cut_layout());
    }
    if x.task_count > 0 {
        read_u32_field(d, &mut pos)?;
        Snapshot::skip_task_entries(d, &mut pos, x.task_count)?;
    }
    let b5 = pos;
    if b5 > d.len() {
        return Ok(cut_layout());
    }
    Ok(
        Layout {
            version: x.version,
            code_hash: x.code_hash,
            timestamp: x.timestamp,
            heap_count: x.heap_count,
            frame_count: x.frame_count,
            stack_count: x.stack_count,
            io_handle_count: x.io_handle_count,
            task_count: x.task_count,
            b0: p0,
            b1,
            b2,
            b3,
            b4,
            b5,
            cut: false,
        },
    )
}

/// Find the header fields and the section bounds of a snapshot file.
fn scan_file(data: &[u8]) -> (r: Result<Layout, SnapshotError>)
    ensures
        match read_file(data@) {
            FileRead::Parsed(p) => r matches Ok(l) && layout_is(l, data@, p),
            FileRead::Cut => r matches Ok(l) && l.cut,
            FileRead::BadMagic(m) => r matches Err(SnapshotError::BadMagic { found }) && found@ == m,
            FileRead::Failed(e) => r == Err::<Layout, SnapshotError>(e),
        },
{
    let d = data;
    if d.len() < 4 {
        return Err(SnapshotError::UnexpectedEof);
    }
    let found: [u8; 4] = [d[0], d[1], d[2], d[3]];
    assert(found@ =~= d@.subrange(0, 4));
    if !(found[0] == 0x50u8 && found[1] == 0x41u8 && found[2] == 0x55u8 && found[3] == 0x53u8) {
        assert(d@.subrange(0, 4) != magic()) by {
            if d@.subrange(0, 4) == magic() {
                assert(d@.subrange(0, 4)[0] == 0x50u8);
                assert(d@.subrange(0, 4)[1] == 0x41u8);
                assert(d@.subrange(0, 4)[2] == 0x55u8);
                assert(d@.subrange(0, 4)[3] == 0x53u8);
            }
        }
        return Err(SnapshotError::BadMagic { found });
    }
    assert(d@.subrange(0, 4) =~= magic());
    let (x, p0) = scan_header(d)?;
    let ghost h = read_header(d@)->Ok_0.0;
    scan_sections(d, &x, p0, Ghost(h))
}

impl Snapshot {
    /// No section of the snapshot file `data` claims bytes past its end
    /// (where one does, `read_from_bytes` reports `UnexpectedEof`).
    pub fn sections_fit(data: &[u8]) -> (b: bool)
        ensures
            b == !(read_file(data@) is Cut),
    {
        match scan_file(data) {
            Ok(l) => !l.cut,
            Err(_) => true,
        }
    }

    /// Parse a snapshot from the bytes of its file. The sections are kept as
    /// they are; only their ends are found. A section that runs past the end
    /// of the data is reported as `UnexpectedEof`.
    pub fn read_from_bytes(data: &[u8]) -> (r: Result<Snapshot, SnapshotError>)
        ensures
            match read_file(data@) {
                FileRead::Parsed(p) => r matches Ok(s) && snapshot_parts(s) == p && s.header.magic@ == magic()
                    && s.task_tree@.len() == 0 && s.gc_to_pos@ == Map::<usize, u32>::empty(),
                FileRead::BadMagic(m) => r matches Err(SnapshotError::BadMagic { found }) && found@ == m,
                FileRead::Failed(e) => r == Err::<Snapshot, SnapshotError>(e),
                FileRead::Cut => r == Err::<Snapshot, SnapshotError>(SnapshotError::UnexpectedEof),
            },
    {
        let l = scan_file(data)?;
        if l.cut {
            return Err(SnapshotError::UnexpectedEof);
        }
        let header = SnapshotHeader {
            magic: [0x50u8, 0x41u8, 0x55u8, 0x53u8],
            version: l.version,
            code_hash: l.code_hash,
            timestamp: l.timestamp,
            heap_count: l.heap_count,
            frame_count: l.frame_count,
            stack_count: l.stack_count,
            io_handle_count: l.io_handle_count,
            task_count: l.task_count,
        };
        assert(header.magic@ =~= magic());
        Ok(
            Snapshot {
                header,
                heap_data: copy_range(data, l.b0, l.b1),
                frames_data: copy_range(data, l.b1, l.b2),
                io_section: copy_range(data, l.b3, l.b4),
                stack_data: copy_range(data, l.b2, l.b3),
                gc_to_pos: HashMap::new(),
                task_tree: Vec::new(),
                task_section: copy_range(data, l.b4, l.b5),
            },
        )
    }

    /// The bytes of the snapshot's file.
    pub fn to_bytes(&self) -> (v: Vec<u8>)
        ensures
            v@ == file_bytes(*self),
    {
        let mut buf: Vec<u8> = Vec::new();
        buf.push(self.header.magic[0]);
        buf.push(self.header.magic[1]);
        buf.push(self.header.magic[2]);
        buf.push(self.header.magic[3]);
        assert(buf@ =~= self.header.magic@);
        crate::wire::push_u32(&mut buf, self.header.version);
        crate::wire::push_u64(&mut buf, self.header.code_hash);
        crate::wire::push_u64(&mut buf, self.header.timestamp);
        crate::wire::push_u32(&mut buf, self.header.heap_count);
        crate::wire::push_u32(&mut buf, self.header.frame_count);
        crate::wire::push_u32(&mut buf, self.header.stack_count);
        crate::wire::push_u32(&mut buf, self.header.io_handle_count);
        crate::wire::push_u32(&mut buf, self.header.task_count);
        crate::wire::push_bytes(&mut buf, self.heap_data.as_slice());
        crate::wire::push_bytes(&mut buf, self.frames_data.as_slice());
        crate::wire::push_bytes(&mut buf, self.stack_data.as_slice());
        crate::wire::push_bytes(&mut buf, self.io_section.as_slice());
        crate::wire::push_bytes(&mut buf, self.task_section.as_slice());
        buf
    }
}

/// Each section of `s` reads to its own end under the counts of its header
/// (a counted section after its own count field); the task section only
/// where the header counts tasks.
pub open spec fn sections_sound(s: Snapshot) -> bool {
    &&& skip_heap_objects_at(s.heap_data@, 0, s.header.heap_count as nat) == Ok::<int, SnapshotError>(
        s.heap_data@.len() as int,
    )
    &&& counted_end(s.frames_data@, 0, s.header.frame_count as nat, 0) == Ok::<int, SnapshotError>(
        s.frames_data@.len() as int,
    )
    &&& counted_end(s.stack_data@, 0, s.header.stack_count as nat, 1) == Ok::<int, SnapshotError>(
        s.stack_data@.len() as int,
    )
    &&& counted_end(s.io_section@, 0, s.header.io_handle_count as nat, 2) == Ok::<int, SnapshotError>(
        s.io_section@.len() as int,
    )
    &&& s.header.task_count > 0 ==> counted_end(s.task_section@, 0, s.header.task_count as nat, 3) == Ok::<
        int,
        SnapshotError,
    >(s.task_section@.len() as int)
}

/// The parts a file of `s` reads back as: those of `s`, except that a task
/// section is only read when the header counts tasks.
pub open spec fn parts_read_back(s: Snapshot) -> FileParts {
    FileParts {
        tasks: if s.header.task_count > 0 {
            s.task_section@
        } else {
            Seq::empty()
        },
        ..snapshot_parts(s)
    }
}

/// The header of the file of `s` reads back as its header fields, with the
/// sections starting at byte 44.
proof fn lemma_header_roundtrip(s: Snapshot)
    requires
        s.header.magic@ == magic(),
        s.header.version == VERSION,
        file_bytes(s).len() <= usize::MAX,
    ensures
        read_header(file_bytes(s)) matches Ok((h, p0)) && p0 == 44 && h == (HeaderFields {
            version: s.header.version,
            code_hash: s.header.code_hash,
            timestamp: s.header.timestamp,
            heap_count: s.header.heap_count,
            frame_count: s.header.frame_count,
            stack_count: s.header.stack_count,
            io_handle_count: s.header.io_handle_count,
            task_count: s.header.task_count,
        }),
        file_bytes(s).subrange(0, 4) == magic(),
{
    let d = file_bytes(s);
    let hr = s.header;
    let m = hr.magic@;
    let b = s.heap_data@ + s.frames_data@ + s.stack_data@ + s.io_section@ + s.task_section@;
    let f1 = le32(hr.version);
    let f2 = le64(hr.code_hash);
    let f3 = le64(hr.timestamp);
    let f4 = le32(hr.heap_count);
    let f5 = le32(hr.frame_count);
    let f6 = le32(hr.stack_count);
    let f7 = le32(hr.io_handle_count);
    let f8 = le32(hr.task_count);
    crate::wire::lemma_le32_roundtrip(hr.version, m, f2 + f3 + f4 + f5 + f6 + f7 + f8 + b);
    crate::wire::lemma_le64_roundtrip(hr.code_hash, m + f1, f3 + f4 + f5 + f6 + f7 + f8 + b);
    crate::wire::lemma_le64_roundtrip(hr.timestamp, m + f1 + f2, f4 + f5 + f6 + f7 + f8 + b);
    crate::wire::lemma_le32_roundtrip(hr.heap_count, m + f1 + f2 + f3, f5 + f6 + f7 + f8 + b);
    crate::wire::lemma_le32_roundtrip(hr.frame_count, m + f1 + f2 + f3 + f4, f6 + f7 + f8 + b);
    crate::wire::lemma_le32_roundtrip(hr.stack_count, m + f1 + f2 + f3 + f4 + f5, f7 + f8 + b);
    crate::wire::lemma_le32_roundtrip(hr.io_handle_count, m + f1 + f2 + f3 + f4 + f5 + f6, f8 + b);
    crate::wire::lemma_le32_roundtrip(hr.task_count, m + f1 + f2 + f3 + f4 + f5 + f6 + f7, b);
    assert(d =~= m + f1 + (f2 + f3 + f4 + f5 + f6 + f7 + f8 + b));
    assert(d =~= (m + f1) + f2 + (f3 + f4 + f5 + f6 + f7 + f8 + b));
    assert(d =~= (m + f1 + f2) + f3 + (f4 + f5 + f6 + f7 + f8 + b));
    assert(d =~= (m + f1 + f2 + f3) + f4 + (f5 + f6 + f7 + f8 + b));
    assert(d =~= (m + f1 + f2 + f3 + f4) + f5 + (f6 + f7 + f8 + b));
    assert(d =~= (m + f1 + f2 + f3 + f4 + f5) + f6 + (f7 + f8 + b));
    assert(d =~= (m + f1 + f2 + f3 + f4 + f5 + f6) + f7 + (f8 + b));
    assert(d =~= (m + f1 + f2 + f3 + f4 + f5 + f6 + f7) + f8 + b);
    assert(d.subrange(0, 4) =~= m);
}

/// Where each section of the file of `s` lies.
pub(crate) proof fn lemma_sections_lie(s: Snapshot)
    requires
        file_bytes(s).len() <= usize::MAX,
        s.header.magic@.len() == 4,
    ensures
        ({
            let d = file_bytes(s);
            let p1: int = 44 + s.heap_data@.len() as int;
            let p2: int = p1 + s.frames_data@.len();
            let p3: int = p2 + s.stack_data@.len();
            let p4: int = p3 + s.io_section@.len();
            &&& d.len() == p4 + s.task_section@.len()
            &&& crate::scan::lies_at(d, s.heap_data@, 44)
            &&& crate::scan::lies_at(d, s.frames_data@, p1)
            &&& crate::scan::lies_at(d, s.stack_data@, p2)
            &&& crate::scan::lies_at(d, s.io_section@, p3)
            &&& crate::scan::lies_at(d, s.task_section@, p4)
            &&& d.subrange(44, p1) == s.heap_data@
            &&& d.subrange(p1, p2) == s.frames_data@
            &&& d.subrange(p2, p3) == s.stack_data@
            &&& d.subrange(p3, p4) == s.io_section@
            &&& d.subrange(p4, d.len() as int) == s.task_section@
        }),
{
    let d = file_bytes(s);
    let hr = s.header;
    crate::wire::lemma_le32_roundtrip(hr.version, Seq::empty(), Seq::empty());
    crate::wire::lemma_le64_roundtrip(hr.code_hash, Seq::empty(), Seq::empty());
    crate::wire::lemma_le64_roundtrip(hr.timestamp, Seq::empty(), Seq::empty());
    crate::wire::lemma_le32_roundtrip(hr.heap_count, Seq::empty(), Seq::empty());
    crate::wire::lemma_le32_roundtrip(hr.frame_count, Seq::empty(), Seq::empty());
    crate::wire::lemma_le32_roundtrip(hr.stack_count, Seq::empty(), Seq::empty());
    crate::wire::lemma_le32_roundtrip(hr.io_handle_count, Seq::empty(), Seq::empty());
    crate::wire::lemma_le32_roundtrip(hr.task_count, Seq::empty(), Seq::empty());
    let hd = hr.magic@ + le32(hr.version) + le64(hr.code_hash) + le64(hr.timestamp) + le32(hr.heap_count) + le32(
        hr.frame_count,
    ) + le32(hr.stack_count) + le32(hr.io_handle_count) + le32(hr.task_count);
    assert(hd.len() == 44);
    let (a0, a1, a2, a3, a4) = (s.heap_data@, s.frames_data@, s.stack_data@, s.io_section@, s.task_section@);
    assert(d == hd + a0 + a1 + a2 + a3 + a4);
    let p1: int = 44 + a0.len() as int;
    let p2: int = p1 + a1.len();
    let p3: int = p2 + a2.len();
    let p4: int = p3 + a3.len();
    assert(crate::scan::lies_at(d, a0, 44)) by {
        assert(d =~= hd + a0 + (a1 + a2 + a3 + a4));
        crate::scan::lemma_lies_in(hd, a0, a1 + a2 + a3 + a4);
    }
    assert(crate::scan::lies_at(d, a1, p1)) by {
        assert(d =~= (hd + a0) + a1 + (a2 + a3 + a4));
        crate::scan::lemma_lies_in(hd + a0, a1, a2 + a3 + a4);
    }
    assert(crate::scan::lies_at(d, a2, p2)) by {
        assert(d =~= (hd + a0 + a1) + a2 + (a3 + a4));
        crate::scan::lemma_lies_in(hd + a0 + a1, a2, a3 + a4);
    }
    assert(crate::scan::lies_at(d, a3, p3)) by {
        assert(d =~= (hd + a0 + a1 + a2) + a3 + a4);
        crate::scan::lemma_lies_in(hd + a0 + a1 + a2, a3, a4);
    }
    assert(crate::scan::lies_at(d, a4, p4)) by {
        assert(d =~= (hd + a0 + a1 + a2 + a3) + a4 + Seq::<u8>::empty());
        crate::scan::lemma_lies_in(hd + a0 + a1 + a2 + a3, a4, Seq::empty());
    }
    assert(d.subrange(44, p1) =~= a0);
    assert(d.subrange(p1, p2) =~= a1);
    assert(d.subrange(p2, p3) =~= a2);
    assert(d.subrange(p3, p4) =~= a3);
    assert(d.subrange(p4, d.len() as int) =~= a4);
}

/// The bytes of a snapshot file read back as the snapshot's parts (the task
/// section only where the header counts tasks), for a snapshot of the
/// current format whose sections are sound and whose file fits in memory.
pub proof fn law_file_roundtrip(s: Snapshot)
    requires
        s.header.magic@ == magic(),
        s.header.version == VERSION,
        sections_sound(s),
        file_bytes(s).len() <= usize::MAX,
    ensures
        read_file(file_bytes(s)) == FileRead::Parsed(parts_read_back(s)),
        s.header.task_count > 0 ==> read_file(file_bytes(s)) == FileRead::Parsed(snapshot_parts(s)),
{
    let d = file_bytes(s);
    lemma_header_roundtrip(s);
    lemma_sections_lie(s);
    let h = read_header(d)->Ok_0.0;
    let (a0, a1, a2, a3, a4) = (s.heap_data@, s.frames_data@, s.stack_data@, s.io_section@, s.task_section@);
    let p1: int = 44 + a0.len() as int;
    let p2: int = p1 + a1.len();
    let p3: int = p2 + a2.len();
    let p4: int = p3 + a3.len();
    crate::scan::lemma_skip_heap_objects_lies(d, a0, 44, 0, h.heap_count as nat, a0.len() as int);
    crate::scan::lemma_counted_end_lies(d, a1, p1, h.frame_count as nat, 0);
    crate::scan::lemma_counted_end_lies(d, a2, p2, h.stack_count as nat, 1);
    crate::scan::lemma_counted_end_lies(d, a3, p3, h.io_handle_count as nat, 2);
    if h.task_count > 0 {
        crate::scan::lemma_counted_end_lies(d, a4, p4, h.task_count as nat, 3);
    } else {
        assert(d.subrange(p4, p4) =~= Seq::<u8>::empty());
    }
}

} // verus!
