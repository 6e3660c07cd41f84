use vstd::prelude::*;

use crate::text::{push_decimal_u64, spec_decimal_u64, text};

verus! {

/// How an I/O handle behaves when the program yields and later resumes.
#[derive(Debug, Clone, Copy, PartialEq, Eq, Structural)]
pub enum IoStrategy {
    /// Re-issue the original request; a different result is reported as diverged.
    Replay,
    /// Re-open the resource and seek to the recorded position.
    Seek,
    /// Use the snapshot-cached data; no reconnection is attempted.
    Cached,
}

impl IoStrategy {
    /// The strategy's name.
    pub fn display_string(&self) -> (s: String)
        ensures
            s@ == (match *self {
                IoStrategy::Replay => "Replay"@,
                IoStrategy::Seek => "Seek"@,
                IoStrategy::Cached => "Cached"@,
            }),
    {
        match self {
            IoStrategy::Replay => text("Replay"),
            IoStrategy::Seek => text("Seek"),
            IoStrategy::Cached => text("Cached"),
        }
    }

    /// Wire tag of the strategy in a snapshot.
    pub fn tag(&self) -> (t: u8)
        ensures
            t == spec_strategy_tag(*self),
    {
        match self {
            IoStrategy::Replay => 0,
            IoStrategy::Seek => 1,
            IoStrategy::Cached => 2,
        }
    }

    /// The strategy a snapshot tag stands for (unknown tags read as `Cached`).
    pub fn from_tag(t: u8) -> (s: IoStrategy)
        ensures
            s == spec_strategy_from_tag(t),
    {
        match t {
            0 => IoStrategy::Replay,
            1 => IoStrategy::Seek,
            _ => IoStrategy::Cached,
        }
    }
}

pub open spec fn spec_strategy_tag(s: IoStrategy) -> u8 {
    match s {
        IoStrategy::Replay => 0,
        IoStrategy::Seek => 1,
        IoStrategy::Cached => 2,
    }
}

pub open spec fn spec_strategy_from_tag(t: u8) -> IoStrategy {
    if t == 0 {
        IoStrategy::Replay
    } else if t == 1 {
        IoStrategy::Seek
    } else {
        IoStrategy::Cached
    }
}

/// Opaque identifier for a registered I/O handle.
#[derive(Debug, Clone, Copy, PartialEq, Eq, Hash, Structural)]
pub struct HandleId(pub u32);

impl HandleId {
    /// `#` followed by the id in decimal.
    pub fn display_string(&self) -> (s: String)
        ensures
            s@ == seq!['#'] + spec_decimal_u64(self.0 as u64),
    {
        let mut s = text("#");
        proof {
            reveal_strlit("#");
        }
        push_decimal_u64(&mut s, self.0 as u64);
        s
    }
}

#[derive(Debug, Clone, Copy, PartialEq, Eq, Structural)]
pub enum FileMode {
    Read,
    Write,
    Append,
}

impl FileMode {
    /// The mode letter.
    pub fn display_string(&self) -> (s: String)
        ensures
            s@ == (match *self {
                FileMode::Read => "r"@,
                FileMode::Write => "w"@,
                FileMode::Append => "a"@,
            }),
    {
        match self {
            FileMode::Read => text("r"),
            FileMode::Write => text("w"),
            FileMode::Append => text("a"),
        }
    }
}

#[derive(Debug, Clone, Copy, PartialEq, Eq, Structural)]
pub enum HttpMethod {
    Get,
    Post,
}

impl HttpMethod {
    /// The method name.
    pub fn display_string(&self) -> (s: String)
        ensures
            s@ == (match *self {
                HttpMethod::Get => "GET"@,
                HttpMethod::Post => "POST"@,
            }),
    {
        match self {
            HttpMethod::Get => text("GET"),
            HttpMethod::Post => text("POST"),
        }
    }
}

/// A registered I/O handle: everything needed to snapshot and reconnect it.
///
/// The operating-system objects themselves (open files, sockets) are held by
/// the host beside the machine; `attached` / `connected` say whether the host
/// currently holds one for this handle. Standard streams are always `Cached`.
#[derive(Debug)]
pub enum IoHandle {
    File {
        path: String,
        mode: FileMode,
        position: u64,
        strategy: IoStrategy,
        /// The host holds an open file for this handle.
        attached: bool,
        /// Cached data for the `Cached` strategy; also the last data read.
        cached: Option<Vec<u8>>,
    },
    TcpStream {
        addr: String,
        strategy: IoStrategy,
        /// The host holds a connected socket for this handle.
        connected: bool,
        last_request: Option<Vec<u8>>,
        last_response: Option<Vec<u8>>,
    },
    HttpConnection {
        url: String,
        method: HttpMethod,
        body: Option<Vec<u8>>,
        last_response: Option<Vec<u8>>,
        strategy: IoStrategy,
    },
    Timer { ms: u64, strategy: IoStrategy },
    Stdin { buffer: Vec<u8> },
    Stdout { buffer: Vec<u8> },
    Stderr { buffer: Vec<u8> },
}

pub open spec fn spec_handle_strategy(h: IoHandle) -> IoStrategy {
    match h {
        IoHandle::File { strategy, .. } => strategy,
        IoHandle::TcpStream { strategy, .. } => strategy,
        IoHandle::HttpConnection { strategy, .. } => strategy,
        IoHandle::Timer { strategy, .. } => strategy,
        _ => IoStrategy::Cached,
    }
}

pub open spec fn spec_kind_name(h: IoHandle) -> Seq<char> {
    match h {
        IoHandle::File { .. } => "File"@,
        IoHandle::TcpStream { .. } => "TcpStream"@,
        IoHandle::HttpConnection { .. } => "HttpConnection"@,
        IoHandle::Timer { .. } => "Timer"@,
        IoHandle::Stdin { .. } => "Stdin"@,
        IoHandle::Stdout { .. } => "Stdout"@,
        IoHandle::Stderr { .. } => "Stderr"@,
    }
}

impl IoHandle {
    /// The strategy for this handle; standard streams are always `Cached`.
    pub fn strategy(&self) -> (s: IoStrategy)
        ensures
            s == spec_handle_strategy(*self),
    {
        match self {
            IoHandle::File { strategy, .. } => *strategy,
            IoHandle::TcpStream { strategy, .. } => *strategy,
            IoHandle::HttpConnection { strategy, .. } => *strategy,
            IoHandle::Timer { strategy, .. } => *strategy,
            IoHandle::Stdin { .. } | IoHandle::Stdout { .. } | IoHandle::Stderr { .. } => IoStrategy::Cached,
        }
    }

    /// Human-readable kind label for reports.
    pub fn kind_name(&self) -> (s: &'static str)
        ensures
            s@ == spec_kind_name(*self),
    {
        match self {
            IoHandle::File { .. } => "File",
            IoHandle::TcpStream { .. } => "TcpStream",
            IoHandle::HttpConnection { .. } => "HttpConnection",
            IoHandle::Timer { .. } => "Timer",
            IoHandle::Stdin { .. } => "Stdin",
            IoHandle::Stdout { .. } => "Stdout",
            IoHandle::Stderr { .. } => "Stderr",
        }
    }
}

/// The mathematical content of an `IoHandle`.
pub enum HandleRecord {
    File {
        path: Seq<char>,
        mode: FileMode,
        position: u64,
        strategy: IoStrategy,
        attached: bool,
        cached: Option<Seq<u8>>,
    },
    TcpStream {
        addr: Seq<char>,
        strategy: IoStrategy,
        connected: bool,
        last_request: Option<Seq<u8>>,
        last_response: Option<Seq<u8>>,
    },
    HttpConnection {
        url: Seq<char>,
        method: HttpMethod,
        body: Option<Seq<u8>>,
        last_response: Option<Seq<u8>>,
        strategy: IoStrategy,
    },
    Timer { ms: u64, strategy: IoStrategy },
    Stdin { buffer: Seq<u8> },
    Stdout { buffer: Seq<u8> },
    Stderr { buffer: Seq<u8> },
}

pub open spec fn opt_bytes(o: Option<Vec<u8>>) -> Option<Seq<u8>> {
    match o {
        Some(v) => Some(v@),
        None => None,
    }
}

impl View for IoHandle {
    type V = HandleRecord;

    open spec fn view(&self) -> HandleRecord {
        match *self {
            IoHandle::File { path, mode, position, strategy, attached, cached } => HandleRecord::File {
                path: path@,
                mode,
                position,
                strategy,
                attached,
                cached: opt_bytes(cached),
            },
            IoHandle::TcpStream { addr, strategy, connected, last_request, last_response } => HandleRecord::TcpStream {
                addr: addr@,
                strategy,
                connected,
                last_request: opt_bytes(last_request),
                last_response: opt_bytes(last_response),
            },
            IoHandle::HttpConnection { url, method, body, last_response, strategy } => HandleRecord::HttpConnection {
                url: url@,
                method,
                body: opt_bytes(body),
                last_response: opt_bytes(last_response),
                strategy,
            },
            IoHandle::Timer { ms, strategy } => HandleRecord::Timer { ms, strategy },
            IoHandle::Stdin { buffer } => HandleRecord::Stdin { buffer: buffer@ },
            IoHandle::Stdout { buffer } => HandleRecord::Stdout { buffer: buffer@ },
            IoHandle::Stderr { buffer } => HandleRecord::Stderr { buffer: buffer@ },
        }
    }
}

/// A copy of the handle's recorded state; a copy never holds the host's
/// open file or socket.
pub open spec fn spec_detached(h: HandleRecord) -> HandleRecord {
    match h {
        HandleRecord::File { path, mode, position, strategy, cached, .. } => HandleRecord::File {
            path,
            mode,
            position,
            strategy,
            attached: false,
            cached,
        },
        HandleRecord::TcpStream { addr, strategy, last_request, last_response, .. } => HandleRecord::TcpStream {
            addr,
            strategy,
            connected: false,
            last_request,
            last_response,
        },
        other => other,
    }
}

fn clone_bytes(o: &Option<Vec<u8>>) -> (c: Option<Vec<u8>>)
    ensures
        opt_bytes(c) == opt_bytes(*o),
{
    match o {
        Some(v) => Some(v.clone()),
        None => None,
    }
}

impl Clone for IoHandle {
    fn clone(&self) -> (c: Self)
        ensures
            c@ == spec_detached(self@),
    {
        match self {
            IoHandle::File { path, mode, position, strategy, cached, .. } => IoHandle::File {
                path: path.clone(),
                mode: *mode,
                position: *position,
                strategy: *strategy,
                attached: false,
                cached: clone_bytes(cached),
            },
            IoHandle::TcpStream { addr, strategy, last_request, last_response, .. } => IoHandle::TcpStream {
                addr: addr.clone(),
                strategy: *strategy,
                connected: false,
                last_request: clone_bytes(last_request),
                last_response: clone_bytes(last_response),
            },
            IoHandle::HttpConnection { url, method, body, last_response, strategy } => IoHandle::HttpConnection {
                url: url.clone(),
                method: *method,
                body: clone_bytes(body),
                last_response: clone_bytes(last_response),
                strategy: *strategy,
            },
            IoHandle::Timer { ms, strategy } => IoHandle::Timer { ms: *ms, strategy: *strategy },
            IoHandle::Stdin { buffer } => IoHandle::Stdin { buffer: buffer.clone() },
            IoHandle::Stdout { buffer } => IoHandle::Stdout { buffer: buffer.clone() },
            IoHandle::Stderr { buffer } => IoHandle::Stderr { buffer: buffer.clone() },
        }
    }
}

} // verus!

verus! {

/// The handles registered with a machine or a task, keyed by `HandleId`,
/// in the order they were registered.
#[derive(Debug, Clone)]
pub struct HandleTable {
    pub entries: Vec<(HandleId, IoHandle)>,
}

/// No id occurs twice.
pub open spec fn ids_unique(e: Seq<(HandleId, IoHandle)>) -> bool {
    forall|i: int, j: int| 0 <= i < j < e.len() ==> (#[trigger] e[i]).0 != (#[trigger] e[j]).0
}

impl HandleTable {
    pub open spec fn wf(&self) -> bool {
        ids_unique(self.entries@)
    }

    pub fn new() -> (t: Self)
        ensures
            t.wf(),
            t.entries@.len() == 0,
    {
        HandleTable { entries: Vec::new() }
    }

    pub fn len(&self) -> (n: usize)
        ensures
            n == self.entries@.len(),
    {
        self.entries.len()
    }

    pub fn is_empty(&self) -> (b: bool)
        ensures
            b == (self.entries@.len() == 0),
    {
        self.entries.len() == 0
    }

    /// Position of the entry with this id.
    pub fn position(&self, id: HandleId) -> (r: Option<usize>)
        ensures
            match r {
                Some(i) => i < self.entries@.len() && self.entries@[i as int].0 == id,
                None => forall|i: int| 0 <= i < self.entries@.len() ==> (#[trigger] self.entries@[i]).0 != id,
            },
    {
        let mut i: usize = 0;
        while i < self.entries.len()
            invariant
                i <= self.entries@.len(),
                forall|k: int| 0 <= k < i ==> (#[trigger] self.entries@[k]).0 != id,
            decreases self.entries@.len() - i,
        {
            if self.entries[i].0.0 == id.0 {
                return Some(i);
            }
            i = i + 1;
        }
        None
    }

    /// Borrow the handle registered under `id`.
    pub fn get(&self, id: HandleId) -> (r: Option<&IoHandle>)
        ensures
            match r {
                Some(h) => exists|i: int|
                    0 <= i < self.entries@.len() && (#[trigger] self.entries@[i]).0 == id && self.entries@[i].1
                        == *h,
                None => forall|i: int| 0 <= i < self.entries@.len() ==> (#[trigger] self.entries@[i]).0 != id,
            },
    {
        match self.position(id) {
            Some(i) => Some(&self.entries[i].1),
            None => None,
        }
    }

    /// Register `handle` under `id`, replacing any handle already there.
    pub fn insert(&mut self, id: HandleId, handle: IoHandle)
        requires
            old(self).wf(),
        ensures
            final(self).wf(),
            match old(self).position_of(id) {
                Some(i) => final(self).entries@ == old(self).entries@.update(i, (id, handle)),
                None => final(self).entries@ == old(self).entries@.push((id, handle)),
            },
    {
        match self.position(id) {
            Some(i) => {
                self.entries.set(i, (id, handle));
                assert(ids_unique(self.entries@)) by {
                    assert forall|a: int, b: int| 0 <= a < b < self.entries@.len() implies (
                    #[trigger] self.entries@[a]).0 != (#[trigger] self.entries@[b]).0 by {
                        assert(old(self).entries@[a].0 != old(self).entries@[b].0);
                    }
                }
            },
            None => {
                self.entries.push((id, handle));
                assert(ids_unique(self.entries@)) by {
                    assert forall|a: int, b: int| 0 <= a < b < self.entries@.len() implies (
                    #[trigger] self.entries@[a]).0 != (#[trigger] self.entries@[b]).0 by {
                        if b < old(self).entries@.len() {
                            assert(old(self).entries@[a].0 != old(self).entries@[b].0);
                        } else {
                            assert(old(self).entries@[a].0 != id);
                        }
                    }
                }
            },
        }
    }

    /// Mutably borrow the handle registered under `id`.
    pub fn get_mut(&mut self, id: HandleId) -> (r: Option<&mut IoHandle>)
        requires
            old(self).wf(),
        ensures
            match r {
                Some(h) => exists|i: int|
                    0 <= i < old(self).entries@.len() && (#[trigger] old(self).entries@[i]).0 == id
                        && old(self).entries@[i].1 == *h && final(self).entries@ == old(self).entries@.update(
                        i,
                        (id, *final(h)),
                    ),
                None => (forall|i: int| 0 <= i < old(self).entries@.len() ==> (#[trigger] old(self).entries@[i]).0 != id)
                    && final(self).entries@ == old(self).entries@,
            },
            final(self).wf(),
    {
        match self.position(id) {
            Some(i) => {
                let ghost e = self.entries@;
                let entry = &mut self.entries[i];
                let h = &mut entry.1;
                proof {
                    assert(e[i as int].0 == id);
                }
                Some(h)
            },
            None => None,
        }
    }

    /// In a table without repeated ids, the entry with id `id` is the one at
    /// `position_of(id)`.
    pub proof fn lemma_position_of(&self, id: HandleId, i: int)
        requires
            self.wf(),
            0 <= i < self.entries@.len(),
            self.entries@[i].0 == id,
        ensures
            self.position_of(id) == Some(i),
    {
        let j = choose|j: int| 0 <= j < self.entries@.len() && (#[trigger] self.entries@[j]).0 == id;
        if j != i {
            if j < i {
                assert(self.entries@[j].0 != self.entries@[i].0);
            } else {
                assert(self.entries@[i].0 != self.entries@[j].0);
            }
        }
    }

    /// The index of the entry with id `id`, if any.
    pub open spec fn position_of(&self, id: HandleId) -> Option<int> {
        if exists|i: int| 0 <= i < self.entries@.len() && (#[trigger] self.entries@[i]).0 == id {
            Some(choose|i: int| 0 <= i < self.entries@.len() && (#[trigger] self.entries@[i]).0 == id)
        } else {
            None
        }
    }

    /// Remove the handle registered under `id`; true if there was one.
    pub fn remove(&mut self, id: HandleId) -> (removed: bool)
        requires
            old(self).wf(),
        ensures
            final(self).wf(),
            removed == old(self).position_of(id) is Some,
            match old(self).position_of(id) {
                Some(i) => final(self).entries@ == old(self).entries@.remove(i),
                None => final(self).entries@ == old(self).entries@,
            },
    {
        match self.position(id) {
            Some(i) => {
                proof {
                    assert(self.entries@[i as int].0 == id);
                    let j = choose|j: int| 0 <= j < self.entries@.len() && (#[trigger] self.entries@[j]).0 == id;
                    if j != i {
                        if j < i {
                            assert(self.entries@[j].0 != self.entries@[i as int].0);
                        } else {
                            assert(self.entries@[i as int].0 != self.entries@[j].0);
                        }
                    }
                }
                self.entries.remove(i);
                assert(ids_unique(self.entries@)) by {
                    assert forall|a: int, b: int| 0 <= a < b < self.entries@.len() implies (
                    #[trigger] self.entries@[a]).0 != (#[trigger] self.entries@[b]).0 by {
                        let oa = if a < i { a } else { a + 1 };
                        let ob = if b < i { b } else { b + 1 };
                        assert(self.entries@[a] == old(self).entries@[oa]);
                        assert(self.entries@[b] == old(self).entries@[ob]);
                        assert(old(self).entries@[oa].0 != old(self).entries@[ob].0);
                    }
                }
                true
            },
            None => false,
        }
    }
}

} // verus!
