//! The interactive TCP session manager.
//!
//! The manager tracks three stores: the connection registry (identifiers of
//! live outbound connections), the listener registry (identifiers of live
//! listening sockets), and the session directory (descriptive metadata with
//! byte counters for every session, kept as a tombstone after disconnect).
//! State transitions are announced through a bounded event buffer.
//!
//! The manager itself performs no socket I/O: the caller performs the
//! transport operation and reports its outcome, and the manager keeps the
//! registries, the directory and the event buffer consistent.

use vstd::prelude::*;
use vstd::pervasive::VecAdditionalExecFns;
use vstd::string::StringSliceAdditionalSpecFns;

use crate::clock::now_rfc3339;
use crate::ids::client_id_spec;
use crate::ids::client_id_for;
use crate::ids::server_id_spec;
use crate::ids::server_id_for;
use crate::ids::lemma_client_server_ids_distinct;

verus! {

/// Configuration record of the TCP tool.
#[derive(Debug)]
pub struct TcpToolConfig {
    pub enabled: bool,
    pub default_client_host: String,
    pub default_client_port: u16,
    pub default_server_port: u16,
    /// Recognized but without behavioral effect: no operation is retried.
    pub auto_reconnect: bool,
    /// Connect timeout in milliseconds, enforced by the transport caller.
    pub connection_timeout: u64,
}

impl Clone for TcpToolConfig {
    fn clone(&self) -> (res: Self)
        ensures
            res == *self,
    {
        TcpToolConfig {
            enabled: self.enabled,
            default_client_host: self.default_client_host.clone(),
            default_client_port: self.default_client_port,
            default_server_port: self.default_server_port,
            auto_reconnect: self.auto_reconnect,
            connection_timeout: self.connection_timeout,
        }
    }
}

impl Default for TcpToolConfig {
    fn default() -> (c: Self)
        ensures
            c.enabled,
            c.default_client_host@ == "127.0.0.1"@,
            c.default_client_port == 8080,
            c.default_server_port == 8080,
            !c.auto_reconnect,
            c.connection_timeout == 5000,
    {
        TcpToolConfig {
            enabled: true,
            default_client_host: String::from_str("127.0.0.1"),
            default_client_port: 8080,
            default_server_port: 8080,
            auto_reconnect: false,
            connection_timeout: 5000,
        }
    }
}

/// Metadata of one session, live or tombstoned.
#[derive(Debug)]
pub struct ConnectionInfo {
    pub id: String,
    /// `client` or `server`.
    pub connection_type: String,
    pub local_addr: String,
    /// Present for client sessions only.
    pub remote_addr: Option<String>,
    /// `connected`, `listening` or `disconnected`.
    pub status: String,
    pub created_at: String,
    pub bytes_sent: u64,
    pub bytes_received: u64,
}

/// Mathematical model of a [`ConnectionInfo`] record.
#[verifier::ext_equal]
pub struct ConnectionRecord {
    pub id: Seq<char>,
    pub connection_type: Seq<char>,
    pub local_addr: Seq<char>,
    pub remote_addr: Option<Seq<char>>,
    pub status: Seq<char>,
    pub created_at: Seq<char>,
    pub bytes_sent: u64,
    pub bytes_received: u64,
}

impl View for ConnectionInfo {
    type V = ConnectionRecord;

    open spec fn view(&self) -> ConnectionRecord {
        ConnectionRecord {
            id: self.id@,
            connection_type: self.connection_type@,
            local_addr: self.local_addr@,
            remote_addr: match self.remote_addr {
                Some(a) => Some(a@),
                None => None,
            },
            status: self.status@,
            created_at: self.created_at@,
            bytes_sent: self.bytes_sent,
            bytes_received: self.bytes_received,
        }
    }
}

impl Clone for ConnectionInfo {
    fn clone(&self) -> (res: Self)
        ensures
            res == *self,
    {
        ConnectionInfo {
            id: self.id.clone(),
            connection_type: self.connection_type.clone(),
            local_addr: self.local_addr.clone(),
            remote_addr: match &self.remote_addr {
                Some(a) => Some(a.clone()),
                None => None,
            },
            status: self.status.clone(),
            created_at: self.created_at.clone(),
            bytes_sent: self.bytes_sent,
            bytes_received: self.bytes_received,
        }
    }
}

/// One message as announced to the observer.
#[derive(Debug)]
pub struct MessageData {
    pub connection_id: String,
    pub content: String,
    pub timestamp: String,
    /// `sent` or `received`.
    pub direction: String,
    pub size: usize,
}

/// Mathematical model of a [`MessageData`] record.
#[verifier::ext_equal]
pub struct MessageRecord {
    pub connection_id: Seq<char>,
    pub content: Seq<char>,
    pub timestamp: Seq<char>,
    pub direction: Seq<char>,
    pub size: usize,
}

impl View for MessageData {
    type V = MessageRecord;

    open spec fn view(&self) -> MessageRecord {
        MessageRecord {
            connection_id: self.connection_id@,
            content: self.content@,
            timestamp: self.timestamp@,
            direction: self.direction@,
            size: self.size,
        }
    }
}

/// Errors of the session manager.
#[derive(Debug)]
pub enum SessionError {
    /// A bind, connect, write or read failure, with the transport's message.
    TransportError { message: String },
    /// The operation referenced an identifier with no live registry entry.
    SessionNotFound,
    /// A malformed configuration record.
    ConfigurationError { message: String },
    /// Reserved for protocol features that this manager does not drive.
    UnsupportedOperation,
}

impl SessionError {
    /// A human-readable description of the failure.
    pub fn message(self) -> (m: String)
        ensures
            match self {
                SessionError::TransportError { message } => m@ == message@,
                SessionError::SessionNotFound => m@ == "Connection not found"@,
                SessionError::ConfigurationError { message } => m@ == message@,
                SessionError::UnsupportedOperation => m@ == "Unsupported operation"@,
            },
    {
        match self {
            SessionError::TransportError { message } => message,
            SessionError::SessionNotFound => String::from_str("Connection not found"),
            SessionError::ConfigurationError { message } => message,
            SessionError::UnsupportedOperation => String::from_str("Unsupported operation"),
        }
    }
}

/// One state transition announced to the external observer.
#[derive(Debug)]
pub enum SessionEvent {
    ConnectionEstablished { info: ConnectionInfo },
    ServerStarted { info: ConnectionInfo },
    MessageSent { message: MessageData },
    ConnectionClosed { info: ConnectionInfo },
}

/// Mathematical model of a [`SessionEvent`].
#[verifier::ext_equal]
pub enum EventRecord {
    ConnectionEstablished { info: ConnectionRecord },
    ServerStarted { info: ConnectionRecord },
    MessageSent { message: MessageRecord },
    ConnectionClosed { info: ConnectionRecord },
}

impl View for SessionEvent {
    type V = EventRecord;

    open spec fn view(&self) -> EventRecord {
        match self {
            SessionEvent::ConnectionEstablished { info } => EventRecord::ConnectionEstablished {
                info: info@,
            },
            SessionEvent::ServerStarted { info } => EventRecord::ServerStarted { info: info@ },
            SessionEvent::MessageSent { message } => EventRecord::MessageSent {
                message: message@,
            },
            SessionEvent::ConnectionClosed { info } => EventRecord::ConnectionClosed { info: info@ },
        }
    }
}

/// The event buffer never grows beyond this many undelivered events;
/// an event arriving at a full buffer is dropped rather than blocking.
pub const EVENT_BUFFER_CAPACITY: usize = 256;

// Status and kind labels.
pub open spec fn kind_client() -> Seq<char> {
    "client"@
}

pub open spec fn kind_server() -> Seq<char> {
    "server"@
}

pub open spec fn status_connected() -> Seq<char> {
    "connected"@
}

pub open spec fn status_listening() -> Seq<char> {
    "listening"@
}

pub open spec fn status_disconnected() -> Seq<char> {
    "disconnected"@
}

pub open spec fn direction_sent() -> Seq<char> {
    "sent"@
}

// ---------------------------------------------------------------------------
// Spec-level model of the directory and the registries.
// ---------------------------------------------------------------------------

/// The directory holds a record under `id`.
pub open spec fn dir_has(d: Seq<ConnectionRecord>, id: Seq<char>) -> bool {
    exists|i: int| 0 <= i < d.len() && d[i].id == id
}

/// The index of the record under `id` (meaningful when `dir_has`).
pub open spec fn dir_index(d: Seq<ConnectionRecord>, id: Seq<char>) -> int {
    choose|i: int| 0 <= i < d.len() && d[i].id == id
}

/// The record under `id` (meaningful when `dir_has`).
pub open spec fn dir_at(d: Seq<ConnectionRecord>, id: Seq<char>) -> ConnectionRecord {
    d[dir_index(d, id)]
}

/// No two directory records share an identifier.
pub open spec fn dir_unique(d: Seq<ConnectionRecord>) -> bool {
    forall|i: int, j: int| 0 <= i < j < d.len() ==> d[i].id != d[j].id
}

/// No identifier occurs twice in a registry.
pub open spec fn ids_unique(v: Seq<Seq<char>>) -> bool {
    forall|i: int, j: int| 0 <= i < j < v.len() ==> v[i] != v[j]
}

/// The directory after inserting `e`, overwriting any record that already
/// carries the same identifier (registry key overwrite).
pub open spec fn upserted(d: Seq<ConnectionRecord>, e: ConnectionRecord) -> Seq<ConnectionRecord> {
    if dir_has(d, e.id) {
        d.update(dir_index(d, e.id), e)
    } else {
        d.push(e)
    }
}

/// A registry after adding `id` (a no-op when already present).
pub open spec fn ids_with(v: Seq<Seq<char>>, id: Seq<char>) -> Seq<Seq<char>> {
    if v.contains(id) {
        v
    } else {
        v.push(id)
    }
}

/// The index of `id` in a registry (meaningful when present).
pub open spec fn ids_index(v: Seq<Seq<char>>, id: Seq<char>) -> int {
    choose|i: int| 0 <= i < v.len() && v[i] == id
}

/// A registry after removing `id` (a no-op when absent).
pub open spec fn ids_without(v: Seq<Seq<char>>, id: Seq<char>) -> Seq<Seq<char>> {
    if v.contains(id) {
        v.remove(ids_index(v, id))
    } else {
        v
    }
}

/// The record `e` with its status replaced.
pub open spec fn with_status(e: ConnectionRecord, st: Seq<char>) -> ConnectionRecord {
    ConnectionRecord { status: st, ..e }
}

/// The record `e` with its sent-byte counter replaced.
pub open spec fn with_bytes_sent(e: ConnectionRecord, n: u64) -> ConnectionRecord {
    ConnectionRecord { bytes_sent: n, ..e }
}

/// `a + n`, saturating at the largest counter value.
pub open spec fn sat_add_u64(a: u64, n: nat) -> u64 {
    if a + n <= u64::MAX {
        (a + n) as u64
    } else {
        u64::MAX
    }
}

/// The directory after a successful send of `n` bytes on `id`: only the
/// sent-byte counter of that record moves.
pub open spec fn send_recorded(d: Seq<ConnectionRecord>, id: Seq<char>, n: nat) -> Seq<
    ConnectionRecord,
> {
    if dir_has(d, id) {
        d.update(dir_index(d, id), with_bytes_sent(dir_at(d, id), sat_add_u64(dir_at(d, id).bytes_sent, n)))
    } else {
        d
    }
}

/// The directory after a disconnect of `id`: the record, when present,
/// becomes a `disconnected` tombstone and is retained.
pub open spec fn dir_closed(d: Seq<ConnectionRecord>, id: Seq<char>) -> Seq<ConnectionRecord> {
    if dir_has(d, id) {
        d.update(dir_index(d, id), with_status(dir_at(d, id), status_disconnected()))
    } else {
        d
    }
}

/// The event buffer after announcing `ev`: appended while there is room,
/// dropped otherwise, never blocking.
pub open spec fn notified(q: Seq<EventRecord>, ev: EventRecord) -> Seq<EventRecord> {
    if q.len() < EVENT_BUFFER_CAPACITY {
        q.push(ev)
    } else {
        q
    }
}

/// The payload length that the manager accounts: the byte length of the
/// message as the platform measures it.
pub open spec fn byte_len(s: &str) -> nat {
    (s.spec_bytes().len() as usize) as nat
}

/// `id` was derived from some `(host, port)` pair by the client rule.
pub open spec fn is_client_id(id: Seq<char>) -> bool {
    exists|host: Seq<char>, port: u16| id == client_id_spec(host, port)
}

/// `id` was derived from some port by the server rule.
pub open spec fn is_server_id(id: Seq<char>) -> bool {
    exists|port: u16| id == server_id_spec(port)
}

/// A live client identifier was derived by the client rule and has
/// exactly one directory record, of client kind.
pub open spec fn live_client_ok(d: Seq<ConnectionRecord>, id: Seq<char>) -> bool {
    &&& is_client_id(id)
    &&& dir_has(d, id)
    &&& dir_at(d, id).connection_type == kind_client()
}

/// A live server identifier was derived by the server rule and has
/// exactly one directory record, of server kind.
pub open spec fn live_server_ok(d: Seq<ConnectionRecord>, id: Seq<char>) -> bool {
    &&& is_server_id(id)
    &&& dir_has(d, id)
    &&& dir_at(d, id).connection_type == kind_server()
}

/// Every directory record carries one of the two kinds and one of the
/// three statuses (a `connecting` record is never materialized).
pub open spec fn record_wf(e: ConnectionRecord) -> bool {
    &&& (e.connection_type == kind_client() || e.connection_type == kind_server())
    &&& (e.status == status_connected() || e.status == status_listening() || e.status
        == status_disconnected())
}

// ---------------------------------------------------------------------------
// Lemmas about the directory model.
// ---------------------------------------------------------------------------

/// In a directory without duplicate identifiers, an index holding `id`
/// is the index that `dir_index` denotes.
pub proof fn lemma_dir_index_is(d: Seq<ConnectionRecord>, id: Seq<char>, i: int)
    requires
        dir_unique(d),
        0 <= i < d.len(),
        d[i].id == id,
    ensures
        dir_has(d, id),
        dir_index(d, id) == i,
        dir_at(d, id) == d[i],
{
    assert(dir_has(d, id));
    let j = dir_index(d, id);
    if i < j {
        assert(d[i].id != d[j].id);
    } else if j < i {
        assert(d[j].id != d[i].id);
    }
}

/// In a registry without duplicates, an index holding `id` is the index
/// that `ids_index` denotes.
pub proof fn lemma_ids_index_is(v: Seq<Seq<char>>, id: Seq<char>, i: int)
    requires
        ids_unique(v),
        0 <= i < v.len(),
        v[i] == id,
    ensures
        v.contains(id),
        ids_index(v, id) == i,
{
    assert(v.contains(id));
    let j = ids_index(v, id);
    if i < j {
        assert(v[i] != v[j]);
    } else if j < i {
        assert(v[j] != v[i]);
    }
}

/// What an upsert does: the new record stands under its identifier, every
/// other identifier keeps its record, and uniqueness is preserved.
pub proof fn lemma_upserted(d: Seq<ConnectionRecord>, e: ConnectionRecord)
    requires
        dir_unique(d),
    ensures
        dir_unique(upserted(d, e)),
        dir_has(upserted(d, e), e.id),
        dir_at(upserted(d, e), e.id) == e,
        upserted(d, e).len() == if dir_has(d, e.id) {
            d.len()
        } else {
            d.len() + 1
        },
        forall|id2: Seq<char>|
            id2 != e.id ==> #[trigger] dir_has(upserted(d, e), id2) == dir_has(d, id2),
        forall|id2: Seq<char>|
            id2 != e.id && dir_has(d, id2) ==> #[trigger] dir_at(upserted(d, e), id2) == dir_at(
                d,
                id2,
            ),
{
    let d1 = upserted(d, e);
    if dir_has(d, e.id) {
        let k = dir_index(d, e.id);
        assert(0 <= k < d.len() && d[k].id == e.id);
        assert(d1 == d.update(k, e));
        assert(dir_unique(d1));
        lemma_dir_index_is(d1, e.id, k);
        assert forall|id2: Seq<char>| id2 != e.id implies #[trigger] dir_has(d1, id2) == dir_has(
            d,
            id2,
        ) by {
            if dir_has(d, id2) {
                let i = dir_index(d, id2);
                assert(d1[i].id == id2);
                assert(dir_has(d1, id2));
            }
            if dir_has(d1, id2) {
                let i = dir_index(d1, id2);
                assert(d[i].id == id2);
                assert(dir_has(d, id2));
            }
        }
        assert forall|id2: Seq<char>| id2 != e.id && dir_has(d, id2) implies #[trigger] dir_at(
            d1,
            id2,
        ) == dir_at(d, id2) by {
            let i = dir_index(d, id2);
            lemma_dir_index_is(d1, id2, i);
        }
    } else {
        assert(d1 == d.push(e));
        assert(d1[d.len() as int].id == e.id);
        assert forall|i: int, j: int| 0 <= i < j < d1.len() implies d1[i].id != d1[j].id by {
            if j < d.len() {
                assert(d[i].id != d[j].id);
            } else {
                assert(d1[j] == e);
                if d1[i].id == e.id {
                    assert(d[i].id == e.id);
                    assert(dir_has(d, e.id));
                }
            }
        }
        lemma_dir_index_is(d1, e.id, d.len() as int);
        assert forall|id2: Seq<char>| id2 != e.id implies #[trigger] dir_has(d1, id2) == dir_has(
            d,
            id2,
        ) by {
            if dir_has(d, id2) {
                let i = dir_index(d, id2);
                assert(d1[i].id == id2);
            }
            if dir_has(d1, id2) {
                let i = dir_index(d1, id2);
                assert(i < d.len());
                assert(d[i].id == id2);
            }
        }
        assert forall|id2: Seq<char>| id2 != e.id && dir_has(d, id2) implies #[trigger] dir_at(
            d1,
            id2,
        ) == dir_at(d, id2) by {
            let i = dir_index(d, id2);
            lemma_dir_index_is(d1, id2, i);
        }
    }
}

/// Closing `id` never adds or drops a record and never changes a kind:
/// only the status of the record under `id` moves.
pub proof fn lemma_live_preserved_by_close(d: Seq<ConnectionRecord>, id: Seq<char>, x: Seq<char>)
    requires
        dir_unique(d),
    ensures
        dir_has(dir_closed(d, id), x) == dir_has(d, x),
        dir_has(d, x) ==> dir_at(dir_closed(d, id), x).connection_type == dir_at(
            d,
            x,
        ).connection_type,
{
    if dir_has(d, id) {
        let e1 = with_status(dir_at(d, id), status_disconnected());
        lemma_dir_update_at(d, id, e1);
        if x == id {
            assert(dir_at(dir_closed(d, id), id) == e1);
        }
    }
}

/// What an update at `id` does (the shared shape of `send_recorded` and
/// `dir_closed`): only the record under `id` moves, and only as given.
pub proof fn lemma_dir_update_at(d: Seq<ConnectionRecord>, id: Seq<char>, e: ConnectionRecord)
    requires
        dir_unique(d),
        dir_has(d, id),
        e.id == id,
    ensures
        dir_unique(d.update(dir_index(d, id), e)),
        dir_has(d.update(dir_index(d, id), e), id),
        dir_at(d.update(dir_index(d, id), e), id) == e,
        d.update(dir_index(d, id), e).len() == d.len(),
        forall|id2: Seq<char>|
            id2 != id ==> #[trigger] dir_has(d.update(dir_index(d, id), e), id2) == dir_has(d, id2),
        forall|id2: Seq<char>|
            id2 != id && dir_has(d, id2) ==> #[trigger] dir_at(d.update(dir_index(d, id), e), id2)
                == dir_at(d, id2),
{
    let k = dir_index(d, id);
    let d1 = d.update(k, e);
    assert(0 <= k < d.len() && d[k].id == id);
    assert(dir_unique(d1));
    lemma_dir_index_is(d1, id, k);
    assert forall|id2: Seq<char>| id2 != id implies #[trigger] dir_has(d1, id2) == dir_has(
        d,
        id2,
    ) by {
        if dir_has(d, id2) {
            let i = dir_index(d, id2);
            assert(d1[i].id == id2);
        }
        if dir_has(d1, id2) {
            let i = dir_index(d1, id2);
            assert(d[i].id == id2);
        }
    }
    assert forall|id2: Seq<char>| id2 != id && dir_has(d, id2) implies #[trigger] dir_at(d1, id2)
        == dir_at(d, id2) by {
        let i = dir_index(d, id2);
        lemma_dir_index_is(d1, id2, i);
    }
}

// ---------------------------------------------------------------------------
// The manager.
// ---------------------------------------------------------------------------

/// Spec-level state of a [`SessionManager`].
#[verifier::ext_equal]
pub struct ManagerState {
    pub config: TcpToolConfig,
    /// Identifiers of live outbound connections (the connection registry).
    pub connections: Seq<Seq<char>>,
    /// Identifiers of live listening sockets (the listener registry).
    pub servers: Seq<Seq<char>>,
    /// Metadata of every session ever registered, tombstones included.
    pub directory: Seq<ConnectionRecord>,
    /// Undelivered events, oldest first.
    pub events: Seq<EventRecord>,
}

/// The orchestrating facade: registries, directory and event buffer under
/// one consistency discipline.
pub struct SessionManager {
    config: TcpToolConfig,
    connections: Vec<String>,
    servers: Vec<String>,
    directory: Vec<ConnectionInfo>,
    events: Vec<SessionEvent>,
}

impl View for SessionManager {
    type V = ManagerState;

    closed spec fn view(&self) -> ManagerState {
        ManagerState {
            config: self.config,
            connections: self.connections@.map_values(|s: String| s@),
            servers: self.servers@.map_values(|s: String| s@),
            directory: self.directory@.map_values(|e: ConnectionInfo| e@),
            events: self.events@.map_values(|e: SessionEvent| e@),
        }
    }
}

impl SessionManager {
    /// Consistency of the three stores: identifiers are unique; every live
    /// registry identifier carries its derivation shape and has exactly one
    /// directory record of matching kind; the event buffer is bounded.
    pub open spec fn wf(&self) -> bool {
        let v = self@;
        &&& dir_unique(v.directory)
        &&& ids_unique(v.connections)
        &&& ids_unique(v.servers)
        &&& forall|i: int|
            0 <= i < v.connections.len() ==> #[trigger] live_client_ok(
                v.directory,
                v.connections[i],
            )
        &&& forall|i: int|
            0 <= i < v.servers.len() ==> #[trigger] live_server_ok(v.directory, v.servers[i])
        &&& forall|i: int| 0 <= i < v.directory.len() ==> #[trigger] record_wf(v.directory[i])
        &&& v.events.len() <= EVENT_BUFFER_CAPACITY
    }

    /// A fresh manager: empty registries, empty directory, no events.
    pub fn new(config: TcpToolConfig) -> (m: SessionManager)
        ensures
            m.wf(),
            m@.config == config,
            m@.connections.len() == 0,
            m@.servers.len() == 0,
            m@.directory.len() == 0,
            m@.events.len() == 0,
    {
        let m = SessionManager {
            config,
            connections: Vec::new(),
            servers: Vec::new(),
            directory: Vec::new(),
            events: Vec::new(),
        };
        proof {
            assert(m@.connections =~= Seq::<Seq<char>>::empty());
            assert(m@.servers =~= Seq::<Seq<char>>::empty());
            assert(m@.directory =~= Seq::<ConnectionRecord>::empty());
            assert(m@.events =~= Seq::<EventRecord>::empty());
        }
        m
    }

    /// The current configuration record.
    pub fn get_config(&self) -> (c: TcpToolConfig)
        ensures
            c == self@.config,
    {
        self.config.clone()
    }

    /// Replaces the configuration record; sessions are untouched.
    pub fn update_config(&mut self, config: TcpToolConfig)
        ensures
            final(self)@ == (ManagerState { config, ..old(self)@ }),
    {
        self.config = config;
        proof {
            assert(self@ =~= ManagerState { config, ..old(self)@ });
        }
    }

    /// A snapshot copy of every session's metadata, tombstones included.
    /// Callers must not assume any order.
    pub fn list_sessions(&self) -> (v: Vec<ConnectionInfo>)
        ensures
            v@.map_values(|e: ConnectionInfo| e@) == self@.directory,
    {
        let mut v: Vec<ConnectionInfo> = Vec::new();
        let mut i: usize = 0;
        while i < self.directory.len()
            invariant
                i <= self.directory.len(),
                v@.len() == i,
                forall|j: int| 0 <= j < i ==> v@[j] == self.directory@[j],
            decreases self.directory.len() - i,
        {
            v.push(self.directory[i].clone());
            i += 1;
        }
        proof {
            assert(v@.map_values(|e: ConnectionInfo| e@) =~= self@.directory);
        }
        v
    }

    /// Hands out the undelivered events, oldest first, and empties the
    /// buffer.
    pub fn take_events(&mut self) -> (evs: Vec<SessionEvent>)
        ensures
            evs@.map_values(|e: SessionEvent| e@) == old(self)@.events,
            final(self)@ == (ManagerState { events: Seq::<EventRecord>::empty(), ..old(self)@ }),
    {
        let mut evs: Vec<SessionEvent> = Vec::new();
        core::mem::swap(&mut evs, &mut self.events);
        proof {
            assert(self@.events =~= Seq::<EventRecord>::empty());
            assert(self@ =~= ManagerState { events: Seq::<EventRecord>::empty(), ..old(self)@ });
        }
        evs
    }

    /// First index of `id` in the session directory, when present.
    fn find_dir(&self, id: &String) -> (r: Option<usize>)
        ensures
            match r {
                Some(i) => 0 <= i < self@.directory.len() && self@.directory[i as int].id == id@,
                None => !dir_has(self@.directory, id@),
            },
    {
        let mut i: usize = 0;
        while i < self.directory.len()
            invariant
                i <= self.directory.len(),
                forall|j: int| 0 <= j < i ==> self@.directory[j].id != id@,
            decreases self.directory.len() - i,
        {
            if self.directory[i].id == *id {
                return Some(i);
            }
            i += 1;
        }
        None
    }

    /// Registers a client connection whose transport connect succeeded,
    /// with the observed local and remote addresses.  The session is keyed
    /// by the identifier derived from `(host, port)`; a record already
    /// under that key (a tombstone of an earlier episode) is overwritten.
    /// Announces `connection_established`.
    pub fn connect_established(
        &mut self,
        host: &str,
        port: u16,
        local_addr: String,
        remote_addr: String,
    ) -> (id: String)
        requires
            old(self).wf(),
        ensures
            final(self).wf(),
            id@ == client_id_spec(host@, port),
            dir_has(final(self)@.directory, id@),
            ({
                let e = dir_at(final(self)@.directory, id@);
                &&& e.id == id@
                &&& e.connection_type == kind_client()
                &&& e.local_addr == local_addr@
                &&& e.remote_addr == Some(remote_addr@)
                &&& e.status == status_connected()
                &&& e.bytes_sent == 0
                &&& e.bytes_received == 0
                &&& final(self)@.directory == upserted(old(self)@.directory, e)
                &&& final(self)@.events == notified(
                    old(self)@.events,
                    (EventRecord::ConnectionEstablished { info: e }),
                )
            }),
            final(self)@.connections == ids_with(old(self)@.connections, id@),
            final(self)@.servers == old(self)@.servers,
            final(self)@.config == old(self)@.config,
    {
        let ghost v0 = self@;
        let id = client_id_for(host, port);
        let created_at = now_rfc3339();
        let info = ConnectionInfo {
            id: id.clone(),
            connection_type: String::from_str("client"),
            local_addr,
            remote_addr: Some(remote_addr),
            status: String::from_str("connected"),
            created_at,
            bytes_sent: 0,
            bytes_received: 0,
        };
        let ghost e = info@;
        let event_info = info.clone();
        match self.find_dir(&id) {
            Some(i) => {
                self.directory.set(i, info);
                proof {
                    lemma_dir_index_is(v0.directory, id@, i as int);
                    assert(self@.directory =~= v0.directory.update(i as int, e));
                    assert(self@.directory == upserted(v0.directory, e));
                }
            },
            None => {
                self.directory.push(info);
                proof {
                    assert(self@.directory =~= v0.directory.push(e));
                    assert(self@.directory == upserted(v0.directory, e));
                }
            },
        }
        if self.find_connection(&id).is_none() {
            self.connections.push(id.clone());
            proof {
                assert(self@.connections =~= v0.connections.push(id@));
                assert(self@.connections == ids_with(v0.connections, id@));
            }
        } else {
            proof {
                assert(self@.connections == ids_with(v0.connections, id@));
            }
        }
        if self.events.len() < EVENT_BUFFER_CAPACITY {
            self.events.push(SessionEvent::ConnectionEstablished { info: event_info });
            proof {
                assert(self@.events =~= v0.events.push(
                    EventRecord::ConnectionEstablished { info: e },
                ));
            }
        }
        proof {
            lemma_upserted(v0.directory, e);
            assert(is_client_id(id@)) by {
                assert(id@ == client_id_spec(host@, port));
            }
            self.lemma_wf_after_register(v0, e, host@, port, true);
        }
        id
    }

    /// Registers a listening socket whose bind succeeded, with the
    /// observed local address.  The session is keyed by the identifier
    /// derived from the port.  Announces `server_started`.
    pub fn listen_established(&mut self, port: u16, local_addr: String) -> (id: String)
        requires
            old(self).wf(),
        ensures
            final(self).wf(),
            id@ == server_id_spec(port),
            dir_has(final(self)@.directory, id@),
            ({
                let e = dir_at(final(self)@.directory, id@);
                &&& e.id == id@
                &&& e.connection_type == kind_server()
                &&& e.local_addr == local_addr@
                &&& e.remote_addr is None
                &&& e.status == status_listening()
                &&& e.bytes_sent == 0
                &&& e.bytes_received == 0
                &&& final(self)@.directory == upserted(old(self)@.directory, e)
                &&& final(self)@.events == notified(
                    old(self)@.events,
                    (EventRecord::ServerStarted { info: e }),
                )
            }),
            final(self)@.servers == ids_with(old(self)@.servers, id@),
            final(self)@.connections == old(self)@.connections,
            final(self)@.config == old(self)@.config,
    {
        let ghost v0 = self@;
        let id = server_id_for(port);
        let created_at = now_rfc3339();
        let info = ConnectionInfo {
            id: id.clone(),
            connection_type: String::from_str("server"),
            local_addr,
            remote_addr: None,
            status: String::from_str("listening"),
            created_at,
            bytes_sent: 0,
            bytes_received: 0,
        };
        let ghost e = info@;
        let event_info = info.clone();
        match self.find_dir(&id) {
            Some(i) => {
                self.directory.set(i, info);
                proof {
                    lemma_dir_index_is(v0.directory, id@, i as int);
                    assert(self@.directory =~= v0.directory.update(i as int, e));
                    assert(self@.directory == upserted(v0.directory, e));
                }
            },
            None => {
                self.directory.push(info);
                proof {
                    assert(self@.directory =~= v0.directory.push(e));
                    assert(self@.directory == upserted(v0.directory, e));
                }
            },
        }
        if self.find_server(&id).is_none() {
            self.servers.push(id.clone());
            proof {
                assert(self@.servers =~= v0.servers.push(id@));
                assert(self@.servers == ids_with(v0.servers, id@));
            }
        } else {
            proof {
                assert(self@.servers == ids_with(v0.servers, id@));
            }
        }
        if self.events.len() < EVENT_BUFFER_CAPACITY {
            self.events.push(SessionEvent::ServerStarted { info: event_info });
            proof {
                assert(self@.events =~= v0.events.push(EventRecord::ServerStarted { info: e }));
            }
        }
        proof {
            lemma_upserted(v0.directory, e);
            assert(is_server_id(id@)) by {
                assert(id@ == server_id_spec(port));
            }
            self.lemma_wf_after_register(v0, e, Seq::<char>::empty(), 0, false);
        }
        id
    }

    /// First index of `id` in the connection registry, when present.
    fn find_connection(&self, id: &String) -> (r: Option<usize>)
        ensures
            match r {
                Some(i) => 0 <= i < self@.connections.len() && self@.connections[i as int] == id@
                    && self@.connections.contains(id@),
                None => !self@.connections.contains(id@),
            },
    {
        let mut i: usize = 0;
        while i < self.connections.len()
            invariant
                i <= self.connections.len(),
                forall|j: int| 0 <= j < i ==> self@.connections[j] != id@,
            decreases self.connections.len() - i,
        {
            if self.connections[i] == *id {
                proof {
                    assert(self@.connections[i as int] == id@);
                    assert(self@.connections.contains(id@));
                }
                return Some(i);
            }
            i += 1;
        }
        None
    }

    /// First index of `id` in the listener registry, when present.
    fn find_server(&self, id: &String) -> (r: Option<usize>)
        ensures
            match r {
                Some(i) => 0 <= i < self@.servers.len() && self@.servers[i as int] == id@
                    && self@.servers.contains(id@),
                None => !self@.servers.contains(id@),
            },
    {
        let mut i: usize = 0;
        while i < self.servers.len()
            invariant
                i <= self.servers.len(),
                forall|j: int| 0 <= j < i ==> self@.servers[j] != id@,
            decreases self.servers.len() - i,
        {
            if self.servers[i] == *id {
                proof {
                    assert(self@.servers[i as int] == id@);
                    assert(self@.servers.contains(id@));
                }
                return Some(i);
            }
            i += 1;
        }
        None
    }

    /// The admission step of a send: succeeds exactly when `id` names a
    /// live entry of the connection registry, and touches nothing.  A
    /// caller that is refused here must not write to any transport.
    pub fn prepare_send(&self, id: &str) -> (r: Result<(), SessionError>)
        ensures
            self@.connections.contains(id@) ==> r == Ok::<(), SessionError>(()),
            !self@.connections.contains(id@) ==> r == Err::<(), SessionError>(
                SessionError::SessionNotFound,
            ),
    {
        let key: String = id.to_owned();
        match self.find_connection(&key) {
            Some(_) => Ok(()),
            None => Err(SessionError::SessionNotFound),
        }
    }

    /// Records a send whose transport write fully succeeded: the sent-byte
    /// counter of the session's directory record grows by the payload's
    /// byte length (saturating at the counter's maximum), no other record
    /// moves, and a `message_sent` event is announced.  A session without
    /// a directory record keeps the directory unchanged.
    pub fn record_send(&mut self, id: &str, message: &str)
        requires
            old(self).wf(),
        ensures
            final(self).wf(),
            final(self)@.directory == send_recorded(old(self)@.directory, id@, byte_len(message)),
            final(self)@.connections == old(self)@.connections,
            final(self)@.servers == old(self)@.servers,
            final(self)@.config == old(self)@.config,
            old(self)@.events.len() < EVENT_BUFFER_CAPACITY ==> ({
                let evs = final(self)@.events;
                &&& evs.len() == old(self)@.events.len() + 1
                &&& evs.drop_last() == old(self)@.events
                &&& match evs.last() {
                    EventRecord::MessageSent { message: md } => {
                        &&& md.connection_id == id@
                        &&& md.content == message@
                        &&& md.direction == direction_sent()
                        &&& md.size as nat == byte_len(message)
                    },
                    _ => false,
                }
            }),
            old(self)@.events.len() >= EVENT_BUFFER_CAPACITY ==> final(self)@.events == old(
                self,
            )@.events,
    {
        let ghost v0 = self@;
        let key: String = id.to_owned();
        let n = message.len();
        match self.find_dir(&key) {
            Some(i) => {
                let mut entry = self.directory[i].clone();
                let grown = entry.bytes_sent.saturating_add(n as u64);
                entry.bytes_sent = grown;
                let ghost e1 = entry@;
                self.directory.set(i, entry);
                proof {
                    lemma_dir_index_is(v0.directory, id@, i as int);
                    assert(e1 =~= with_bytes_sent(
                        dir_at(v0.directory, id@),
                        sat_add_u64(dir_at(v0.directory, id@).bytes_sent, byte_len(message)),
                    ));
                    assert(self@.directory =~= v0.directory.update(i as int, e1));
                    assert(self@.directory == send_recorded(v0.directory, id@, byte_len(message)));
                    lemma_dir_update_at(v0.directory, id@, e1);
                    assert forall|x: Seq<char>| #[trigger] dir_has(self@.directory, x) == dir_has(
                        v0.directory,
                        x,
                    ) by {
                        if x != id@ {
                            assert(dir_has(v0.directory.update(i as int, e1), x) == dir_has(
                                v0.directory,
                                x,
                            ));
                        }
                    }
                    assert forall|x: Seq<char>| dir_has(v0.directory, x) implies #[trigger] dir_at(
                        self@.directory,
                        x,
                    ).connection_type == dir_at(v0.directory, x).connection_type by {
                        if x == id@ {
                            assert(dir_at(self@.directory, id@) == e1);
                        } else {
                            assert(dir_at(v0.directory.update(i as int, e1), x) == dir_at(
                                v0.directory,
                                x,
                            ));
                        }
                    }
                    assert forall|j: int| 0 <= j < self@.directory.len() implies #[trigger] record_wf(
                        self@.directory[j],
                    ) by {
                        assert(record_wf(v0.directory[j]));
                        if j != i as int {
                            assert(self@.directory[j] == v0.directory[j]);
                        } else {
                            assert(self@.directory[j] == e1);
                        }
                    }
                }
            },
            None => {
                proof {
                    assert(self@.directory == send_recorded(v0.directory, id@, byte_len(message)));
                }
            },
        }
        if self.events.len() < EVENT_BUFFER_CAPACITY {
            let md = MessageData {
                connection_id: key,
                content: message.to_owned(),
                timestamp: now_rfc3339(),
                direction: String::from_str("sent"),
                size: n,
            };
            self.events.push(SessionEvent::MessageSent { message: md });
            proof {
                assert(self@.events.drop_last() =~= v0.events);
            }
        }
        proof {
            self.lemma_wf_after_record_update(v0, id@);
        }
    }

    /// Tears a session down: the connection registry entry is removed when
    /// present, the directory record (when present) becomes a
    /// `disconnected` tombstone but stays queryable, and a
    /// `connection_closed` event carrying the updated record is announced.
    /// Disconnecting an unknown identifier is a no-op success, so the
    /// operation is idempotent.
    pub fn disconnect(&mut self, id: &str)
        requires
            old(self).wf(),
        ensures
            final(self).wf(),
            final(self)@.directory == dir_closed(old(self)@.directory, id@),
            final(self)@.connections == ids_without(old(self)@.connections, id@),
            final(self)@.servers == old(self)@.servers,
            final(self)@.config == old(self)@.config,
            dir_has(old(self)@.directory, id@) ==> final(self)@.events == notified(
                old(self)@.events,
                (EventRecord::ConnectionClosed { info: dir_at(final(self)@.directory, id@) }),
            ),
            !dir_has(old(self)@.directory, id@) ==> final(self)@.events == old(self)@.events,
    {
        let ghost v0 = self@;
        let key: String = id.to_owned();
        match self.find_connection(&key) {
            Some(i) => {
                self.connections.remove(i);
                proof {
                    lemma_ids_index_is(v0.connections, id@, i as int);
                    assert(self@.connections =~= v0.connections.remove(i as int));
                    assert(self@.connections == ids_without(v0.connections, id@));
                }
            },
            None => {
                proof {
                    assert(self@.connections == ids_without(v0.connections, id@));
                }
            },
        }
        match self.find_dir(&key) {
            Some(i) => {
                let mut entry = self.directory[i].clone();
                entry.status = String::from_str("disconnected");
                let event_info = entry.clone();
                let ghost e1 = entry@;
                self.directory.set(i, entry);
                proof {
                    lemma_dir_index_is(v0.directory, id@, i as int);
                    assert(e1 =~= with_status(dir_at(v0.directory, id@), status_disconnected()));
                    assert(self@.directory =~= v0.directory.update(i as int, e1));
                    assert(self@.directory == dir_closed(v0.directory, id@));
                    lemma_dir_update_at(v0.directory, id@, e1);
                }
                if self.events.len() < EVENT_BUFFER_CAPACITY {
                    self.events.push(SessionEvent::ConnectionClosed { info: event_info });
                    proof {
                        assert(self@.events =~= v0.events.push(
                            EventRecord::ConnectionClosed { info: e1 },
                        ));
                    }
                }
            },
            None => {
                proof {
                    assert(self@.directory == dir_closed(v0.directory, id@));
                }
            },
        }
        proof {
            self.lemma_wf_after_disconnect(v0, id@);
        }
    }

    /// Well-formedness is preserved by an operation that leaves both
    /// registries in place and moves at most the record under `id`,
    /// keeping its identifier and kind.
    proof fn lemma_wf_after_record_update(&self, v0: ManagerState, id: Seq<char>)
        requires
            dir_unique(v0.directory),
            ids_unique(v0.connections),
            ids_unique(v0.servers),
            forall|i: int|
                0 <= i < v0.connections.len() ==> #[trigger] live_client_ok(
                    v0.directory,
                    v0.connections[i],
                ),
            forall|i: int|
                0 <= i < v0.servers.len() ==> #[trigger] live_server_ok(
                    v0.directory,
                    v0.servers[i],
                ),
            forall|i: int| 0 <= i < v0.directory.len() ==> #[trigger] record_wf(v0.directory[i]),
            self@.connections == v0.connections,
            self@.servers == v0.servers,
            self@.events.len() <= EVENT_BUFFER_CAPACITY,
            dir_unique(self@.directory),
            forall|x: Seq<char>| #[trigger] dir_has(self@.directory, x) == dir_has(v0.directory, x),
            forall|x: Seq<char>|
                dir_has(v0.directory, x) ==> #[trigger] dir_at(self@.directory, x).connection_type
                    == dir_at(v0.directory, x).connection_type,
            forall|i: int|
                0 <= i < self@.directory.len() ==> #[trigger] record_wf(self@.directory[i]),
        ensures
            self.wf(),
    {
        let d0 = v0.directory;
        let d1 = self@.directory;
        assert forall|i: int| 0 <= i < self@.connections.len() implies #[trigger] live_client_ok(
            d1,
            self@.connections[i],
        ) by {
            assert(live_client_ok(d0, v0.connections[i]));
            assert(dir_has(d1, self@.connections[i]));
        }
        assert forall|i: int| 0 <= i < self@.servers.len() implies #[trigger] live_server_ok(
            d1,
            self@.servers[i],
        ) by {
            assert(live_server_ok(d0, v0.servers[i]));
            assert(dir_has(d1, self@.servers[i]));
        }
    }

    /// Well-formedness is preserved by a disconnect: `id` leaves the
    /// connection registry, and the record under `id` (when present) only
    /// changes its status.
    proof fn lemma_wf_after_disconnect(&self, v0: ManagerState, id: Seq<char>)
        requires
            dir_unique(v0.directory),
            ids_unique(v0.connections),
            ids_unique(v0.servers),
            forall|i: int|
                0 <= i < v0.connections.len() ==> #[trigger] live_client_ok(
                    v0.directory,
                    v0.connections[i],
                ),
            forall|i: int|
                0 <= i < v0.servers.len() ==> #[trigger] live_server_ok(
                    v0.directory,
                    v0.servers[i],
                ),
            forall|i: int| 0 <= i < v0.directory.len() ==> #[trigger] record_wf(v0.directory[i]),
            self@.connections == ids_without(v0.connections, id),
            self@.servers == v0.servers,
            self@.events.len() <= EVENT_BUFFER_CAPACITY,
            self@.directory == dir_closed(v0.directory, id),
        ensures
            self.wf(),
    {
        let d0 = v0.directory;
        let d1 = self@.directory;
        if dir_has(d0, id) {
            let e1 = with_status(dir_at(d0, id), status_disconnected());
            assert(d1 == d0.update(dir_index(d0, id), e1));
            lemma_dir_update_at(d0, id, e1);
            assert(record_wf(dir_at(d0, id))) by {
                let k = dir_index(d0, id);
                assert(record_wf(d0[k]));
            }
            assert forall|i: int| 0 <= i < d1.len() implies #[trigger] record_wf(d1[i]) by {
                if i != dir_index(d0, id) {
                    assert(d1[i] == d0[i]);
                } else {
                    assert(d1[i] == e1);
                }
            }
        } else {
            assert(d1 == d0);
        }
        // The shrunk connection registry stays unique and live.
        let c1 = self@.connections;
        if v0.connections.contains(id) {
            let k = ids_index(v0.connections, id);
            assert(c1 == v0.connections.remove(k));
            assert forall|i: int, j: int| 0 <= i < j < c1.len() implies c1[i] != c1[j] by {
                let i0 = if i < k {
                    i
                } else {
                    i + 1
                };
                let j0 = if j < k {
                    j
                } else {
                    j + 1
                };
                assert(c1[i] == v0.connections[i0]);
                assert(c1[j] == v0.connections[j0]);
            }
            assert forall|i: int| 0 <= i < c1.len() implies #[trigger] live_client_ok(
                d1,
                c1[i],
            ) by {
                let i0 = if i < k {
                    i
                } else {
                    i + 1
                };
                assert(c1[i] == v0.connections[i0]);
                assert(live_client_ok(d0, v0.connections[i0]));
                lemma_live_preserved_by_close(d0, id, v0.connections[i0]);
            }
        } else {
            assert(c1 == v0.connections);
            assert forall|i: int| 0 <= i < c1.len() implies #[trigger] live_client_ok(
                d1,
                c1[i],
            ) by {
                assert(live_client_ok(d0, v0.connections[i]));
                lemma_live_preserved_by_close(d0, id, v0.connections[i]);
            }
        }
        assert forall|i: int| 0 <= i < self@.servers.len() implies #[trigger] live_server_ok(
            d1,
            self@.servers[i],
        ) by {
            assert(live_server_ok(d0, v0.servers[i]));
            lemma_live_preserved_by_close(d0, id, v0.servers[i]);
        }
    }

    /// Well-formedness is restored after registering the fresh live record
    /// `e` (a client one when `client` is set, with `e.id` derived from
    /// `(host, port)`; a server one otherwise).
    proof fn lemma_wf_after_register(
        &self,
        v0: ManagerState,
        e: ConnectionRecord,
        host: Seq<char>,
        port: u16,
        client: bool,
    )
        requires
            dir_unique(v0.directory),
            ids_unique(v0.connections),
            ids_unique(v0.servers),
            forall|i: int|
                0 <= i < v0.connections.len() ==> #[trigger] live_client_ok(
                    v0.directory,
                    v0.connections[i],
                ),
            forall|i: int|
                0 <= i < v0.servers.len() ==> #[trigger] live_server_ok(
                    v0.directory,
                    v0.servers[i],
                ),
            forall|i: int| 0 <= i < v0.directory.len() ==> #[trigger] record_wf(v0.directory[i]),
            v0.events.len() <= EVENT_BUFFER_CAPACITY,
            self@.directory == upserted(v0.directory, e),
            record_wf(e),
            client ==> e.id == client_id_spec(host, port) && e.connection_type == kind_client()
                && self@.connections == ids_with(v0.connections, e.id) && self@.servers
                == v0.servers,
            !client ==> is_server_id(e.id) && e.connection_type == kind_server()
                && self@.servers == ids_with(v0.servers, e.id) && self@.connections
                == v0.connections,
            self@.events.len() <= EVENT_BUFFER_CAPACITY,
        ensures
            self.wf(),
    {
        let d0 = v0.directory;
        let d1 = self@.directory;
        lemma_upserted(d0, e);
        // Uniqueness of the grown registry.
        if client {
            if !v0.connections.contains(e.id) {
                assert forall|i: int, j: int|
                    0 <= i < j < self@.connections.len() implies self@.connections[i]
                    != self@.connections[j] by {
                    if j == v0.connections.len() as int {
                        assert(!v0.connections.contains(e.id));
                        assert(v0.connections[i] != e.id);
                    }
                }
            }
        } else {
            if !v0.servers.contains(e.id) {
                assert forall|i: int, j: int|
                    0 <= i < j < self@.servers.len() implies self@.servers[i]
                    != self@.servers[j] by {
                    if j == v0.servers.len() as int {
                        assert(!v0.servers.contains(e.id));
                        assert(v0.servers[i] != e.id);
                    }
                }
            }
        }
        // Every live client identifier still has its client record.
        assert forall|i: int| 0 <= i < self@.connections.len() implies #[trigger] live_client_ok(
            d1,
            self@.connections[i],
        ) by {
            let cid = self@.connections[i];
            if client && cid == e.id {
                assert(is_client_id(e.id)) by {
                    assert(e.id == client_id_spec(host, port));
                }
                assert(dir_at(d1, e.id) == e);
            } else {
                assert(i < v0.connections.len());
                assert(live_client_ok(d0, v0.connections[i]));
                if client {
                    assert(cid != e.id);
                } else {
                    // A client identifier can never equal the freshly
                    // registered server identifier.
                    let (h2, p2): (Seq<char>, u16) = choose|h2: Seq<char>, p2: u16|
                        cid == client_id_spec(h2, p2);
                    let q = choose|q: u16| e.id == server_id_spec(q);
                    lemma_client_server_ids_distinct(h2, p2, q);
                }
                assert(dir_has(d1, cid) == dir_has(d0, cid));
                assert(dir_at(d1, cid) == dir_at(d0, cid));
            }
        }
        // Every live server identifier still has its server record.
        assert forall|i: int| 0 <= i < self@.servers.len() implies #[trigger] live_server_ok(
            d1,
            self@.servers[i],
        ) by {
            let sid = self@.servers[i];
            if !client && sid == e.id {
                assert(dir_at(d1, e.id) == e);
            } else {
                assert(i < v0.servers.len());
                assert(live_server_ok(d0, v0.servers[i]));
                if !client {
                    assert(sid != e.id);
                } else {
                    let q = choose|q: u16| sid == server_id_spec(q);
                    lemma_client_server_ids_distinct(host, port, q);
                }
                assert(dir_has(d1, sid) == dir_has(d0, sid));
                assert(dir_at(d1, sid) == dir_at(d0, sid));
            }
        }
        // Every record still carries a recognized kind and status.
        assert forall|i: int| 0 <= i < d1.len() implies #[trigger] record_wf(d1[i]) by {
            if dir_has(d0, e.id) {
                assert(d1 == d0.update(dir_index(d0, e.id), e));
                if i != dir_index(d0, e.id) {
                    assert(d1[i] == d0[i]);
                }
            } else {
                assert(d1 == d0.push(e));
                if i < d0.len() {
                    assert(d1[i] == d0[i]);
                }
            }
        }
    }
}

} // verus!
