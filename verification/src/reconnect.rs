//! Reconnecting the I/O handles of a snapshot on resume.
//!
//! A snapshot entry says what a handle was: a file and its position, a
//! socket address, an HTTP request and its last response, a timer or a
//! standard stream with its buffer. The host does the outside work (open
//! and seek the file, connect the socket, replay the request); the library
//! reads the entry, says what the host is to do, and turns the host's
//! outcome into the restored handle and its reconnect status.

use vstd::prelude::*;

use crate::io::{opt_bytes, FileMode, HandleRecord, HttpMethod, IoHandle, IoStrategy};
use crate::serialize::text_of;
use crate::snapshot::{IoEntryView, IoHandleSnapshot, ReconnectStatus, io_snapshot_view};
use crate::text::{push_decimal_u64, spec_decimal_u64, text};
use crate::wire::{u32_at, u64_at};

verus! {

/// The outside work reconnecting a handle needs.
#[derive(Debug, Clone)]
pub enum ReconnectRequest {
    /// Nothing outside: the handle is rebuilt from the snapshot alone.
    Nothing,
    /// Open the file at `path` and seek to `position`.
    OpenFile { path: String, position: u64 },
    /// Connect a socket to `addr`.
    Connect { addr: String },
    /// Send the HTTP request again (a POST sends `body`, or nothing).
    Replay { url: String, method: HttpMethod, body: Option<Vec<u8>> },
}

/// What the host's attempt at a `ReconnectRequest` gave.
#[derive(Debug, Clone)]
pub enum ReconnectOutcome {
    /// The resource was reached; for an HTTP replay, with this response body.
    Reached { response: Vec<u8> },
    /// The file opened but seeking to the position failed.
    SeekFailed { reason: String },
    /// The resource could not be reached.
    Unreachable { reason: String },
}

/// The content of a `ReconnectRequest`.
pub enum RequestView {
    Nothing,
    OpenFile { path: Seq<char>, position: u64 },
    Connect { addr: Seq<char> },
    Replay { url: Seq<char>, method: HttpMethod, body: Option<Seq<u8>> },
}

pub open spec fn request_view(r: ReconnectRequest) -> RequestView {
    match r {
        ReconnectRequest::Nothing => RequestView::Nothing,
        ReconnectRequest::OpenFile { path, position } => RequestView::OpenFile { path: path@, position },
        ReconnectRequest::Connect { addr } => RequestView::Connect { addr: addr@ },
        ReconnectRequest::Replay { url, method, body } => RequestView::Replay { url: url@, method, body: opt_bytes(body) },
    }
}

/// The content of a `ReconnectOutcome`.
pub enum OutcomeView {
    Reached(Seq<u8>),
    SeekFailed(Seq<char>),
    Unreachable(Seq<char>),
}

pub open spec fn outcome_view(o: ReconnectOutcome) -> OutcomeView {
    match o {
        ReconnectOutcome::Reached { response } => OutcomeView::Reached(response@),
        ReconnectOutcome::SeekFailed { reason } => OutcomeView::SeekFailed(reason@),
        ReconnectOutcome::Unreachable { reason } => OutcomeView::Unreachable(reason@),
    }
}

/// The content of a `ReconnectStatus`.
pub enum StatusView {
    Reconnected,
    Degraded(Seq<char>),
    Failed(Seq<char>),
}

pub open spec fn status_view(s: ReconnectStatus) -> StatusView {
    match s {
        ReconnectStatus::Reconnected => StatusView::Reconnected,
        ReconnectStatus::Degraded { reason } => StatusView::Degraded(reason@),
        ReconnectStatus::Failed { reason } => StatusView::Failed(reason@),
    }
}

/// `a + b`, saturating at `usize::MAX`.
pub open spec fn sat_add(a: int, b: int) -> int {
    if a + b > usize::MAX {
        usize::MAX as int
    } else {
        a + b
    }
}

/// The `u32` at `p` and the position after it, or `dflt` and `p` when
/// fewer than four bytes are left.
pub open spec fn u32_or(d: Seq<u8>, p: int, dflt: u32) -> (u32, int) {
    if p + 4 > d.len() {
        (dflt, p)
    } else {
        (u32_at(d, p), p + 4)
    }
}

/// `d[a..b]` when that range lies inside `d`, else no bytes.
pub open spec fn get_or_empty(d: Seq<u8>, a: int, b: int) -> Seq<u8> {
    if 0 <= a <= b <= d.len() {
        d.subrange(a, b)
    } else {
        Seq::empty()
    }
}

/// The length-prefixed text at the start of `params`, and the position
/// after it.
pub open spec fn param_text(params: Seq<u8>) -> (Seq<char>, int) {
    let (n, p) = u32_or(params, 0, 0);
    let end = sat_add(p, n as int);
    (text_of(get_or_empty(params, p, end)), end)
}

/// The optional length-prefixed bytes at `p` (length `0xFFFF_FFFF` for none,
/// the bytes cut at the end of `params`), and the position after them.
pub open spec fn param_opt_bytes(params: Seq<u8>, p: int) -> (Option<Seq<u8>>, int) {
    let (n, q) = u32_or(params, p, 0xFFFF_FFFF);
    if n == 0xFFFF_FFFF {
        (None, q)
    } else {
        let end = sat_add(q, n as int);
        let stop = if end < params.len() {
            end
        } else {
            params.len() as int
        };
        (Some(get_or_empty(params, q, stop)), end)
    }
}

/// The file mode a mode tag stands for.
pub open spec fn mode_of_tag(t: u8) -> FileMode {
    if t == 0 {
        FileMode::Read
    } else if t == 1 {
        FileMode::Write
    } else {
        FileMode::Append
    }
}

/// The path and mode of a file entry.
pub open spec fn file_params(params: Seq<u8>) -> (Seq<char>, FileMode) {
    let (path, p) = param_text(params);
    (path, if p < params.len() {
        mode_of_tag(params[p])
    } else {
        FileMode::Read
    })
}

/// The URL, method, body and last response of an HTTP entry.
pub open spec fn http_params(params: Seq<u8>) -> (Seq<char>, HttpMethod, Option<Seq<u8>>, Option<Seq<u8>>) {
    let (url, p) = param_text(params);
    let method = if p < params.len() && params[p] == 1 {
        HttpMethod::Post
    } else {
        HttpMethod::Get
    };
    let (body, q) = param_opt_bytes(params, sat_add(p, 1));
    let (old, _) = param_opt_bytes(params, q);
    (url, method, body, old)
}

/// The timer length of a timer entry: its first eight bytes, or 0.
pub open spec fn timer_ms(params: Seq<u8>) -> u64 {
    if params.len() >= 8 {
        u64_at(params, 0)
    } else {
        0
    }
}

/// The outside work reconnecting entry `e` needs.
pub open spec fn spec_request(e: IoEntryView) -> RequestView {
    if e.kind == 0 {
        RequestView::OpenFile {
            path: file_params(e.params).0,
            position: match e.position {
                Some(p) => p,
                None => 0,
            },
        }
    } else if e.kind == 1 {
        RequestView::Connect { addr: param_text(e.params).0 }
    } else if e.kind == 2 {
        let (url, method, body, _) = http_params(e.params);
        RequestView::Replay { url, method, body }
    } else {
        RequestView::Nothing
    }
}

/// The reason text of an outcome that did not reach the resource.
pub open spec fn reason_of(o: OutcomeView) -> Seq<char> {
    match o {
        OutcomeView::Reached(_) => Seq::empty(),
        OutcomeView::SeekFailed(r) => r,
        OutcomeView::Unreachable(r) => r,
    }
}

/// The handle and status reconnecting entry `e` (under `strategy`) gives,
/// the host's attempt having given `o`. A seek failure counts only for a
/// file; for another kind it is a failure to reach the resource.
pub open spec fn spec_reconnect(e: IoEntryView, strategy: IoStrategy, o: OutcomeView) -> (HandleRecord, StatusView) {
    let cached = e.cached;
    if e.kind == 0 {
        let (path, mode) = file_params(e.params);
        let position = match e.position {
            Some(p) => p,
            None => 0,
        };
        match o {
            OutcomeView::Reached(_) => (
                HandleRecord::File { path, mode, position, strategy, attached: true, cached },
                StatusView::Reconnected,
            ),
            OutcomeView::SeekFailed(r) => (
                HandleRecord::File { path, mode, position: 0, strategy, attached: false, cached },
                StatusView::Degraded("seek failed: "@ + r),
            ),
            OutcomeView::Unreachable(r) => (
                HandleRecord::File { path, mode, position, strategy, attached: false, cached },
                StatusView::Failed("file open failed: "@ + r),
            ),
        }
    } else if e.kind == 1 {
        let addr = param_text(e.params).0;
        match o {
            OutcomeView::Reached(_) => (
                HandleRecord::TcpStream {
                    addr,
                    strategy,
                    connected: true,
                    last_request: None,
                    last_response: None,
                },
                StatusView::Reconnected,
            ),
            _ => (
                HandleRecord::TcpStream {
                    addr,
                    strategy,
                    connected: false,
                    last_request: None,
                    last_response: None,
                },
                StatusView::Failed("TCP connect failed: "@ + reason_of(o)),
            ),
        }
    } else if e.kind == 2 {
        let (url, method, body, old) = http_params(e.params);
        match o {
            OutcomeView::Reached(resp) => (
                HandleRecord::HttpConnection { url, method, body, last_response: Some(resp), strategy },
                if old is Some && old != Some(resp) {
                    StatusView::Degraded("DataDiverged: response differs from snapshot"@)
                } else {
                    StatusView::Reconnected
                },
            ),
            _ => (
                HandleRecord::HttpConnection { url, method, body, last_response: old, strategy },
                StatusView::Failed("HTTP replay failed: "@ + reason_of(o)),
            ),
        }
    } else if e.kind == 3 {
        (HandleRecord::Timer { ms: timer_ms(e.params), strategy }, StatusView::Reconnected)
    } else if e.kind == 4 {
        (HandleRecord::Stdin { buffer: buffer_of(cached) }, StatusView::Reconnected)
    } else if e.kind == 5 {
        (HandleRecord::Stdout { buffer: buffer_of(cached) }, StatusView::Reconnected)
    } else if e.kind == 6 {
        (HandleRecord::Stderr { buffer: buffer_of(cached) }, StatusView::Reconnected)
    } else {
        (
            HandleRecord::Stdin { buffer: Seq::empty() },
            StatusView::Failed("unknown handle kind: "@ + spec_decimal_u64(e.kind as u64)),
        )
    }
}

/// Cached bytes, or none.
pub open spec fn buffer_of(c: Option<Seq<u8>>) -> Seq<u8> {
    match c {
        Some(b) => b,
        None => Seq::empty(),
    }
}

/// The `u32` at `*pos` when four bytes are left (advancing past it), else
/// `default`.
fn read_u32_or(data: &[u8], pos: &mut usize, default: u32) -> (v: u32)
    ensures
        (v, *final(pos) as int) == u32_or(data@, *old(pos) as int, default),
{
    if *pos > data.len() || data.len() - *pos < 4 {
        return default;
    }
    match crate::wire::read_u32(data, pos) {
        Some(v) => v,
        None => default,
    }
}

/// `data[a..b]` when that range lies inside `data`, else no bytes.
fn get_or_empty_vec(data: &[u8], a: usize, b: usize) -> (v: Vec<u8>)
    ensures
        v@ == get_or_empty(data@, a as int, b as int),
{
    let mut out: Vec<u8> = Vec::new();
    if a <= b && b <= data.len() {
        let s = vstd::slice::slice_subrange(data, a, b);
        crate::wire::push_bytes(&mut out, s);
        assert(out@ =~= data@.subrange(a as int, b as int));
    }
    out
}

/// The length-prefixed text at the start of `params` and the position after it.
fn read_param_text(params: &[u8]) -> (r: (String, usize))
    ensures
        r.0@ == param_text(params@).0,
        r.1 as int == param_text(params@).1,
{
    let mut p: usize = 0;
    let n = read_u32_or(params, &mut p, 0);
    let end = p.saturating_add(n as usize);
    let bytes = get_or_empty_vec(params, p, end);
    (crate::serialize::string_from_utf8_lossy(bytes.as_slice()), end)
}

/// The optional length-prefixed bytes at `p` and the position after them.
fn read_param_opt_bytes(params: &[u8], p: usize) -> (r: (Option<Vec<u8>>, usize))
    ensures
        opt_bytes(r.0) == param_opt_bytes(params@, p as int).0,
        r.1 as int == param_opt_bytes(params@, p as int).1,
{
    let mut q = p;
    let n = read_u32_or(params, &mut q, 0xFFFF_FFFF);
    if n == 0xFFFF_FFFFu32 {
        (None, q)
    } else {
        let end = q.saturating_add(n as usize);
        let stop = if end < params.len() {
            end
        } else {
            params.len()
        };
        (Some(get_or_empty_vec(params, q, stop)), end)
    }
}

fn read_file_params(params: &[u8]) -> (r: (String, FileMode))
    ensures
        r.0@ == file_params(params@).0,
        r.1 == file_params(params@).1,
{
    let (path, p) = read_param_text(params);
    let mode = if p < params.len() {
        match params[p] {
            0 => FileMode::Read,
            1 => FileMode::Write,
            _ => FileMode::Append,
        }
    } else {
        FileMode::Read
    };
    (path, mode)
}

fn read_http_params(params: &[u8]) -> (r: (String, HttpMethod, Option<Vec<u8>>, Option<Vec<u8>>))
    ensures
        r.0@ == http_params(params@).0,
        r.1 == http_params(params@).1,
        opt_bytes(r.2) == http_params(params@).2,
        opt_bytes(r.3) == http_params(params@).3,
{
    let (url, p) = read_param_text(params);
    let method = if p < params.len() && params[p] == 1 {
        HttpMethod::Post
    } else {
        HttpMethod::Get
    };
    let (body, q) = read_param_opt_bytes(params, p.saturating_add(1));
    let (old, _) = read_param_opt_bytes(params, q);
    (url, method, body, old)
}

fn clone_opt(o: &Option<Vec<u8>>) -> (c: Option<Vec<u8>>)
    ensures
        opt_bytes(c) == opt_bytes(*o),
{
    match o {
        Some(v) => Some(v.clone()),
        None => None,
    }
}

fn reason_text(o: &ReconnectOutcome) -> (s: String)
    ensures
        s@ == reason_of(outcome_view(*o)),
{
    match o {
        ReconnectOutcome::Reached { .. } => String::new(),
        ReconnectOutcome::SeekFailed { reason } => reason.clone(),
        ReconnectOutcome::Unreachable { reason } => reason.clone(),
    }
}

fn prefixed(prefix: &str, rest: &str) -> (s: String)
    ensures
        s@ == prefix@ + rest@,
{
    let mut s = text(prefix);
    s.append(rest);
    s
}

impl crate::snapshot::Snapshot {
    /// The outside work reconnecting the handle of entry `snap` needs: open
    /// and seek a file, connect a socket, or replay an HTTP request.
    pub fn reconnect_request(snap: &IoHandleSnapshot) -> (r: ReconnectRequest)
        ensures
            request_view(r) == spec_request(io_snapshot_view(*snap)),
    {
        if snap.kind == 0 {
            let (path, _) = read_file_params(snap.params.as_slice());
            let position = match snap.position {
                Some(p) => p,
                None => 0,
            };
            ReconnectRequest::OpenFile { path, position }
        } else if snap.kind == 1 {
            let (addr, _) = read_param_text(snap.params.as_slice());
            ReconnectRequest::Connect { addr }
        } else if snap.kind == 2 {
            let (url, method, body, _) = read_http_params(snap.params.as_slice());
            ReconnectRequest::Replay { url, method, body }
        } else {
            ReconnectRequest::Nothing
        }
    }

    /// Re-create the handle of entry `snap` under `strategy`, given what the
    /// host's attempt at `reconnect_request(snap)` gave.
    pub fn reconnect_handle(snap: &IoHandleSnapshot, strategy: IoStrategy, outcome: &ReconnectOutcome) -> (r: (
        IoHandle,
        ReconnectStatus,
    ))
        ensures
            (r.0@, status_view(r.1)) == spec_reconnect(io_snapshot_view(*snap), strategy, outcome_view(*outcome)),
    {
        proof {
            reveal_strlit("seek failed: ");
            reveal_strlit("file open failed: ");
            reveal_strlit("TCP connect failed: ");
            reveal_strlit("HTTP replay failed: ");
            reveal_strlit("unknown handle kind: ");
        }
        let params = snap.params.as_slice();
        if snap.kind == 0 {
            let (path, mode) = read_file_params(params);
            let position = match snap.position {
                Some(p) => p,
                None => 0,
            };
            let cached = clone_opt(&snap.cached);
            match outcome {
                ReconnectOutcome::Reached { .. } => (
                    IoHandle::File { path, mode, position, strategy, attached: true, cached },
                    ReconnectStatus::Reconnected,
                ),
                ReconnectOutcome::SeekFailed { reason } => (
                    IoHandle::File { path, mode, position: 0, strategy, attached: false, cached },
                    ReconnectStatus::Degraded { reason: prefixed("seek failed: ", reason.as_str()) },
                ),
                ReconnectOutcome::Unreachable { reason } => (
                    IoHandle::File { path, mode, position, strategy, attached: false, cached },
                    ReconnectStatus::Failed { reason: prefixed("file open failed: ", reason.as_str()) },
                ),
            }
        } else if snap.kind == 1 {
            let (addr, _) = read_param_text(params);
            match outcome {
                ReconnectOutcome::Reached { .. } => (
                    IoHandle::TcpStream { addr, strategy, connected: true, last_request: None, last_response: None },
                    ReconnectStatus::Reconnected,
                ),
                _ => {
                    let why = reason_text(outcome);
                    (
                        IoHandle::TcpStream { addr, strategy, connected: false, last_request: None, last_response: None },
                        ReconnectStatus::Failed { reason: prefixed("TCP connect failed: ", why.as_str()) },
                    )
                },
            }
        } else if snap.kind == 2 {
            let (url, method, body, old) = read_http_params(params);
            match outcome {
                ReconnectOutcome::Reached { response } => {
                    let diverged = match &old {
                        Some(o) => !bytes_equal(o.as_slice(), response.as_slice()),
                        None => false,
                    };
                    let status = if diverged {
                        ReconnectStatus::Degraded { reason: text("DataDiverged: response differs from snapshot") }
                    } else {
                        ReconnectStatus::Reconnected
                    };
                    (
                        IoHandle::HttpConnection {
                            url,
                            method,
                            body,
                            last_response: Some(response.clone()),
                            strategy,
                        },
                        status,
                    )
                },
                _ => {
                    let why = reason_text(outcome);
                    (
                        IoHandle::HttpConnection { url, method, body, last_response: old, strategy },
                        ReconnectStatus::Failed { reason: prefixed("HTTP replay failed: ", why.as_str()) },
                    )
                },
            }
        } else if snap.kind == 3 {
            let ms = if params.len() >= 8 {
                let mut p: usize = 0;
                match crate::wire::read_u64(params, &mut p) {
                    Some(v) => v,
                    None => 0,
                }
            } else {
                0
            };
            (IoHandle::Timer { ms, strategy }, ReconnectStatus::Reconnected)
        } else if snap.kind == 4 {
            (IoHandle::Stdin { buffer: cached_or_empty(&snap.cached) }, ReconnectStatus::Reconnected)
        } else if snap.kind == 5 {
            (IoHandle::Stdout { buffer: cached_or_empty(&snap.cached) }, ReconnectStatus::Reconnected)
        } else if snap.kind == 6 {
            (IoHandle::Stderr { buffer: cached_or_empty(&snap.cached) }, ReconnectStatus::Reconnected)
        } else {
            let mut reason = text("unknown handle kind: ");
            push_decimal_u64(&mut reason, snap.kind as u64);
            (IoHandle::Stdin { buffer: Vec::new() }, ReconnectStatus::Failed { reason })
        }
    }
}

fn cached_or_empty(c: &Option<Vec<u8>>) -> (b: Vec<u8>)
    ensures
        b@ == buffer_of(opt_bytes(*c)),
{
    match c {
        Some(v) => v.clone(),
        None => Vec::new(),
    }
}

/// Byte-wise equality.
fn bytes_equal(a: &[u8], b: &[u8]) -> (r: bool)
    ensures
        r == (a@ == b@),
{
    if a.len() != b.len() {
        return false;
    }
    let mut i: usize = 0;
    while i < a.len()
        invariant
            a@.len() == b@.len(),
            i <= a@.len(),
            forall|k: int| 0 <= k < i ==> a@[k] == b@[k],
        decreases a@.len() - i,
    {
        if a[i] != b[i] {
            return false;
        }
        i = i + 1;
    }
    assert(a@ =~= b@);
    true
}

} // verus!

verus! {

use crate::io::{spec_strategy_from_tag, HandleId};
use crate::snapshot::{io_entry_stop, parse_io_entry, ReconnectReport, Snapshot};
use crate::vm::VM;

/// The entries of an I/O section that read back, after `n` attempts, and
/// where reading stopped. An entry that is cut short is skipped, and reading
/// goes on where it stopped.
pub open spec fn scan_io(d: Seq<u8>, n: nat) -> (Seq<IoEntryView>, nat)
    decreases n,
{
    if n == 0 {
        (Seq::empty(), 4)
    } else {
        let (es, p) = scan_io(d, (n - 1) as nat);
        match parse_io_entry(d.skip(p as int)) {
            Ok((e, m)) => (es.push(e), p + m),
            Err(_) => (es, p + io_entry_stop(d.skip(p as int))),
        }
    }
}

/// The I/O entries of a snapshot that read back, in order (none when the
/// header counts no handle or the section has no count).
pub open spec fn io_entries(s: Snapshot) -> Seq<IoEntryView> {
    let d = s.io_section@;
    if s.header.io_handle_count == 0 || d.len() < 4 {
        Seq::empty()
    } else {
        scan_io(d, u32_at(d, 0) as nat).0
    }
}

/// Handles as (id, record) pairs.
pub open spec fn records(e: Seq<(HandleId, IoHandle)>) -> Seq<(HandleId, HandleRecord)> {
    e.map_values(|p: (HandleId, IoHandle)| (p.0, p.1@))
}

/// `r` with `(id, rec)` registered: replacing the entry with that id, or
/// added at the end.
pub open spec fn put_rec(r: Seq<(HandleId, HandleRecord)>, id: HandleId, rec: HandleRecord) -> Seq<(HandleId, HandleRecord)> {
    if exists|i: int| 0 <= i < r.len() && (#[trigger] r[i]).0 == id {
        r.update(choose|i: int| 0 <= i < r.len() && (#[trigger] r[i]).0 == id, (id, rec))
    } else {
        r.push((id, rec))
    }
}

/// `r` with each of `regs` registered in turn.
pub open spec fn put_all(r: Seq<(HandleId, HandleRecord)>, regs: Seq<(HandleId, HandleRecord)>) -> Seq<(HandleId, HandleRecord)>
    decreases regs.len(),
{
    if regs.len() == 0 {
        r
    } else {
        let p = put_all(r, regs.drop_last());
        put_rec(p, regs.last().0, regs.last().1)
    }
}

/// The registrations restoring the I/O entries `es` makes, the host's
/// attempts having given `outs`.
pub open spec fn io_regs(es: Seq<IoEntryView>, outs: Seq<ReconnectOutcome>) -> Seq<(HandleId, HandleRecord)> {
    Seq::new(
        es.len(),
        |i: int| (HandleId(es[i].id), spec_reconnect(es[i], spec_strategy_from_tag(es[i].strategy), outcome_view(outs[i])).0),
    )
}

pub(crate) proof fn lemma_put_records(e: Seq<(HandleId, IoHandle)>, e2: Seq<(HandleId, IoHandle)>, t: crate::io::HandleTable, id: HandleId, h: IoHandle)
    requires
        t.entries@ == e,
        t.wf(),
        match t.position_of(id) {
            Some(i) => e2 == e.update(i, (id, h)),
            None => e2 == e.push((id, h)),
        },
    ensures
        records(e2) == put_rec(records(e), id, h@),
{
    let r = records(e);
    if exists|i: int| 0 <= i < e.len() && (#[trigger] e[i]).0 == id {
        let i = choose|i: int| 0 <= i < e.len() && (#[trigger] e[i]).0 == id;
        assert(r[i].0 == id);
        let j = choose|j: int| 0 <= j < r.len() && (#[trigger] r[j]).0 == id;
        assert(e[j].0 == id);
        assert(i == j);
        assert(records(e2) =~= r.update(j, (id, h@)));
    } else {
        assert(!exists|j: int| 0 <= j < r.len() && (#[trigger] r[j]).0 == id) by {
            if exists|j: int| 0 <= j < r.len() && (#[trigger] r[j]).0 == id {
                let j = choose|j: int| 0 <= j < r.len() && (#[trigger] r[j]).0 == id;
                assert(e[j].0 == id);
            }
        }
        assert(records(e2) =~= r.push((id, h@)));
    }
}

impl Snapshot {
    /// The I/O handle entries of the snapshot that read back, in order.
    pub fn io_handle_snapshots(&self) -> (v: Vec<IoHandleSnapshot>)
        ensures
            v@.map_values(|s: IoHandleSnapshot| io_snapshot_view(s)) == io_entries(*self),
    {
        let mut out: Vec<IoHandleSnapshot> = Vec::new();
        if self.header.io_handle_count == 0 {
            assert(out@.map_values(|s: IoHandleSnapshot| io_snapshot_view(s)) =~= Seq::<IoEntryView>::empty());
            return out;
        }
        let data = self.io_section.as_slice();
        let mut pos: usize = 0;
        let count = match crate::wire::read_u32(data, &mut pos) {
            Some(c) => c,
            None => {
                assert(out@.map_values(|s: IoHandleSnapshot| io_snapshot_view(s)) =~= Seq::<IoEntryView>::empty());
                return out;
            },
        };
        let mut i: u32 = 0;
        while i < count
            invariant
                data@ == self.io_section@,
                count == u32_at(data@, 0),
                i <= count,
                pos <= data@.len(),
                scan_io(data@, i as nat) == (out@.map_values(|s: IoHandleSnapshot| io_snapshot_view(s)), pos as nat),
            decreases count - i,
        {
            let ghost before = pos;
            let ghost prev = out@;
            let ghost pv = prev.map_values(|s: IoHandleSnapshot| io_snapshot_view(s));
            assert(scan_io(data@, i as nat) == (pv, before as nat));
            match Snapshot::deserialize_io_handle_snapshot(data, &mut pos) {
                Ok(s) => {
                    let ghost sv = io_snapshot_view(s);
                    assert(parse_io_entry(data@.skip(before as int)) == Ok::<(IoEntryView, nat), crate::snapshot::SnapshotError>((sv, (pos - before) as nat)));
                    out.push(s);
                    assert(out@.map_values(|s: IoHandleSnapshot| io_snapshot_view(s)) =~= pv.push(sv));
                    assert(scan_io(data@, (i + 1) as nat) == (pv.push(sv), pos as nat));
                },
                Err(_) => {
                    assert(scan_io(data@, (i + 1) as nat) == (pv, pos as nat));
                },
            }
            i = i + 1;
        }
        out
    }

    /// Restore the I/O handles of the snapshot into the machine: each entry
    /// that reads back is reconnected (the host's attempt for the `i`-th
    /// being `outcomes[i]`) and registered under its id. Reports the outcome
    /// for every handle.
    pub fn restore_io_handles(&self, vm: &mut VM, outcomes: &Vec<ReconnectOutcome>) -> (report: ReconnectReport)
        requires
            old(vm).wf(),
            outcomes@.len() == io_entries(*self).len(),
        ensures
            final(vm).wf(),
            report.entries@.len() == io_entries(*self).len(),
            forall|i: int|
                0 <= i < report.entries@.len() ==> (#[trigger] report.entries@[i]).0 == HandleId(io_entries(*self)[i].id)
                    && status_view(report.entries@[i].1) == spec_reconnect(
                    io_entries(*self)[i],
                    spec_strategy_from_tag(io_entries(*self)[i].strategy),
                    outcome_view(outcomes@[i]),
                ).1,
            records(final(vm).handles.entries@) == put_all(
                records(old(vm).handles.entries@),
                io_regs(io_entries(*self), outcomes@),
            ),
            final(vm).stack == old(vm).stack,
            final(vm).frames == old(vm).frames,
            final(vm).functions == old(vm).functions,
            final(vm).running == old(vm).running,
            final(vm).heap == old(vm).heap,
            final(vm).task_registry == old(vm).task_registry,
            final(vm).current_task_id == old(vm).current_task_id,
            final(vm).pending == old(vm).pending,
            final(vm).snapshot == old(vm).snapshot,
            final(vm).next_handle_id == old(vm).next_handle_id,
    {
        let snaps = self.io_handle_snapshots();
        let ghost es = io_entries(*self);
        let mut entries: Vec<(HandleId, ReconnectStatus)> = Vec::new();
        let mut i: usize = 0;
        assert(put_all(records(vm.handles.entries@), io_regs(es, outcomes@).take(0)) == records(vm.handles.entries@));
        while i < snaps.len()
            invariant
                snaps@.map_values(|s: IoHandleSnapshot| io_snapshot_view(s)) == es,
                es == io_entries(*self),
                outcomes@.len() == es.len(),
                i <= snaps@.len(),
                vm.wf(),
                entries@.len() == i,
                forall|k: int|
                    0 <= k < i ==> (#[trigger] entries@[k]).0 == HandleId(es[k].id) && status_view(entries@[k].1)
                        == spec_reconnect(es[k], spec_strategy_from_tag(es[k].strategy), outcome_view(outcomes@[k])).1,
                records(vm.handles.entries@) == put_all(records(old(vm).handles.entries@), io_regs(es, outcomes@).take(i as int)),
                vm.stack == old(vm).stack,
                vm.frames == old(vm).frames,
                vm.functions == old(vm).functions,
                vm.running == old(vm).running,
                vm.heap == old(vm).heap,
                vm.task_registry == old(vm).task_registry,
                vm.current_task_id == old(vm).current_task_id,
                vm.pending == old(vm).pending,
                vm.snapshot == old(vm).snapshot,
                vm.next_handle_id == old(vm).next_handle_id,
            decreases snaps@.len() - i,
        {
            let snap = &snaps[i];
            assert(io_snapshot_view(*snap) == es[i as int]);
            let strategy = IoStrategy::from_tag(snap.strategy);
            let (handle, status) = Snapshot::reconnect_handle(snap, strategy, &outcomes[i]);
            let id = HandleId(snap.id);
            let ghost t = vm.handles;
            let ghost h = handle;
            vm.register_handle(id, handle);
            proof {
                lemma_put_records(t.entries@, vm.handles.entries@, t, id, h);
                let regs = io_regs(es, outcomes@);
                assert(regs.take(i + 1).drop_last() =~= regs.take(i as int));
                assert(regs.take(i + 1).last() == regs[i as int]);
            }
            entries.push((id, status));
            i = i + 1;
        }
        assert(io_regs(es, outcomes@).take(i as int) =~= io_regs(es, outcomes@));
        ReconnectReport { entries }
    }
}

} // verus!
