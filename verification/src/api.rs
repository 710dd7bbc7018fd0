//! The ticket service behind the HTTP API: a ping request gets a ticket,
//! answered from the cache or queued for a worker; workers report results;
//! tickets expire; counters keep the service's statistics.
use vstd::prelude::*;
use vstd::string::*;
use vstd::utf8::*;
use crate::error::ApiError;
use crate::keyed::{
    distinct_keys, lemma_map_of_absent, lemma_map_of_index, lemma_map_of_keys, lemma_map_of_push,
    lemma_map_of_remove, lemma_map_of_update, map_of,
};
use crate::minecraft::common::{ServerInfo, ServerReport, DEFAULT_PORT};
use crate::sys::{chars_of, hash_ticket_key, ticket_key_hashed, time_since_epoch, whole_seconds};
use std::collections::hash_map::DefaultHasher;
use std::collections::VecDeque;
use std::hash::Hasher;
use vstd::std_specs::hash::DefaultHasherAdditionalSpecFns;
use crate::text::{
    contains_chars, decimal_chars, decimal_repr, has_infix, hex_chars, hex_repr,
    lemma_decimal_repr_digits, lemma_parse_u32_of_decimal, parse_u32, parsed_u32, push_all, push_str,
    to_string, is_digit,
};

verus! {

/// How long a finished ping answers repeated requests from the cache.
pub const CACHE_TTL_SECONDS: u64 = 60;

/// How many workers process pings concurrently.
pub const WORKER_COUNT: usize = 10;

/// How long a ticket lives.
pub const TICKET_TTL_SECONDS: u64 = 300;

/// The longest host name accepted, in bytes.
pub const MAX_HOST_LENGTH: usize = 253;

/// Where a ticket stands.
#[derive(Debug)]
pub enum TicketStatus {
    Pending { position: usize },
    Processing,
    Ready { result: ServerInfo },
    Error { message: String },
}

/// A ticket's standing, as plain values.
pub enum TicketState {
    Pending(usize),
    Processing,
    Ready(ServerReport),
    Error(Seq<char>),
}

impl View for TicketStatus {
    type V = TicketState;

    open spec fn view(&self) -> TicketState {
        match self {
            TicketStatus::Pending { position } => TicketState::Pending(*position),
            TicketStatus::Processing => TicketState::Processing,
            TicketStatus::Ready { result } => TicketState::Ready(result@),
            TicketStatus::Error { message } => TicketState::Error(message@),
        }
    }
}

impl TicketStatus {
    /// A copy of the status.
    pub fn duplicate(&self) -> (r: TicketStatus)
        ensures
            r@ == self@,
    {
        match self {
            TicketStatus::Pending { position } => TicketStatus::Pending { position: *position },
            TicketStatus::Processing => TicketStatus::Processing,
            TicketStatus::Ready { result } => TicketStatus::Ready { result: result.duplicate() },
            TicketStatus::Error { message } => TicketStatus::Error { message: message.clone() },
        }
    }
}

/// The answer to a status check.
#[derive(Debug)]
pub struct TicketResponse {
    pub ticket_id: String,
    pub status: TicketStatus,
    pub created_at: u64,
    pub age_seconds: u64,
}

/// The answer to a ping request.
#[derive(Debug)]
pub struct TicketCreatedResponse {
    pub ticket_id: String,
    pub check_url: String,
}

/// The query parameters of a ping request.
#[derive(Debug)]
pub struct PingParams {
    pub fresh: bool,
}

impl Default for PingParams {
    fn default() -> (r: PingParams)
        ensures
            !r.fresh,
    {
        PingParams { fresh: false }
    }
}

/// A ping for a worker to make.
#[derive(Debug)]
pub struct WorkItem {
    pub ticket_id: String,
    pub host: String,
    pub port: u16,
}

/// An accepted ping request: the answer, and the work to hand to a worker
/// when the ticket was queued.
#[derive(Debug)]
pub struct PingAccepted {
    pub response: TicketCreatedResponse,
    pub work: Option<WorkItem>,
}

pub struct TicketEntry {
    pub ticket_id: String,
    pub status: TicketStatus,
    pub created_at_ms: u64,
}

pub struct CacheEntry {
    pub key: String,
    pub data: ServerInfo,
    pub stored_at_ms: u64,
}

pub struct WorkQueue {
    pub pending_tickets: VecDeque<String>,
    pub processing_count: usize,
    pub total_queued: u64,
}

pub struct ProtocolCounts {
    pub modern_slp: u64,
    pub legacy_slp: u64,
    pub query_enabled: u64,
}

pub struct Stats {
    pub total_requests: u64,
    pub successful_requests: u64,
    pub failed_requests: u64,
    pub start_time_ms: u64,
    pub protocol_counts: ProtocolCounts,
}

/// The state of the service: tickets, cached results, the queue of pending
/// tickets and the statistics. Times are milliseconds since the Unix epoch.
pub struct PingService {
    pub tickets: Vec<TicketEntry>,
    pub cache: Vec<CacheEntry>,
    pub queue: WorkQueue,
    pub stats: Stats,
}

pub open spec fn ticket_entries(v: Seq<TicketEntry>) -> Seq<(Seq<char>, (TicketState, u64))> {
    v.map_values(|e: TicketEntry| (e.ticket_id@, (e.status@, e.created_at_ms)))
}

pub open spec fn cache_entries(v: Seq<CacheEntry>) -> Seq<(Seq<char>, (ServerReport, u64))> {
    v.map_values(|e: CacheEntry| (e.key@, (e.data@, e.stored_at_ms)))
}

/// Whole seconds from `then_ms` to `now_ms`; zero when the clock went back.
pub open spec fn elapsed_secs(then_ms: u64, now_ms: u64) -> u64 {
    if now_ms >= then_ms {
        ((now_ms - then_ms) / 1000) as u64
    } else {
        0
    }
}

/// Whole seconds from `then_ms` to `now_ms`; zero when the clock went back.
pub fn elapsed_seconds(then_ms: u64, now_ms: u64) -> (s: u64)
    ensures
        s == elapsed_secs(then_ms, now_ms),
{
    if now_ms >= then_ms {
        (now_ms - then_ms) / 1000
    } else {
        0
    }
}

impl PingService {
    /// The tickets, by id: status and creation time.
    pub open spec fn tickets_view(&self) -> Map<Seq<char>, (TicketState, u64)> {
        map_of(ticket_entries(self.tickets@))
    }

    /// The cached results, by `host:port`: report and time stored.
    pub open spec fn cache_view(&self) -> Map<Seq<char>, (ServerReport, u64)> {
        map_of(cache_entries(self.cache@))
    }

    /// The pending ticket ids, oldest first.
    pub open spec fn pending_view(&self) -> Seq<Seq<char>> {
        self.queue.pending_tickets@.map_values(|s: String| s@)
    }

    /// No ticket id and no cache key occurs twice.
    pub open spec fn wf(&self) -> bool {
        &&& distinct_keys(ticket_entries(self.tickets@))
        &&& distinct_keys(cache_entries(self.cache@))
        &&& counts_consistent(self.stats)
    }

    /// A service with no tickets, no cache and zeroed statistics, started at
    /// `now_ms`.
    pub fn new(now_ms: u64) -> (s: PingService)
        ensures
            s.wf(),
            s.tickets_view() == Map::<Seq<char>, (TicketState, u64)>::empty(),
            s.cache_view() == Map::<Seq<char>, (ServerReport, u64)>::empty(),
            s.pending_view() == Seq::<Seq<char>>::empty(),
            s.queue.processing_count == 0,
            s.queue.total_queued == 0,
            s.stats.total_requests == 0,
            s.stats.successful_requests == 0,
            s.stats.failed_requests == 0,
            s.stats.start_time_ms == now_ms,
            s.stats.protocol_counts.modern_slp == 0,
            s.stats.protocol_counts.legacy_slp == 0,
            s.stats.protocol_counts.query_enabled == 0,
            counts_consistent(s.stats),
            protocol_counts_within(s.stats),
    {
        let s = PingService {
            tickets: Vec::new(),
            cache: Vec::new(),
            queue: WorkQueue { pending_tickets: VecDeque::new(), processing_count: 0, total_queued: 0 },
            stats: Stats {
                total_requests: 0,
                successful_requests: 0,
                failed_requests: 0,
                start_time_ms: now_ms,
                protocol_counts: ProtocolCounts { modern_slp: 0, legacy_slp: 0, query_enabled: 0 },
            },
        };
        assert(ticket_entries(s.tickets@) =~= Seq::empty());
        assert(cache_entries(s.cache@) =~= Seq::empty());
        assert(s.pending_view() =~= Seq::<Seq<char>>::empty());
        s
    }

    /// The index of the ticket with this id, if there is one.
    fn find_ticket(&self, id: &String) -> (r: Option<usize>)
        requires
            self.wf(),
        ensures
            match r {
                Some(i) => i < self.tickets@.len() && self.tickets@[i as int].ticket_id@ == id@
                    && self.tickets_view().contains_key(id@) && self.tickets_view()[id@] == (
                    self.tickets@[i as int].status@,
                    self.tickets@[i as int].created_at_ms,
                ),
                None => !self.tickets_view().contains_key(id@),
            },
    {
        let ghost es = ticket_entries(self.tickets@);
        let mut i: usize = 0;
        while i < self.tickets.len()
            invariant
                i <= self.tickets@.len(),
                es == ticket_entries(self.tickets@),
                self.wf(),
                forall|j: int| 0 <= j < i ==> #[trigger] es[j].0 != id@,
            decreases self.tickets@.len() - i,
        {
            if self.tickets[i].ticket_id == *id {
                proof {
                    lemma_map_of_index(es, i as int);
                }
                return Some(i);
            }
            i += 1;
        }
        proof {
            lemma_map_of_absent(es, id@);
        }
        None
    }

    /// The index of the cache entry under this key, if there is one.
    fn find_cache(&self, key: &String) -> (r: Option<usize>)
        requires
            self.wf(),
        ensures
            match r {
                Some(i) => i < self.cache@.len() && self.cache@[i as int].key@ == key@
                    && self.cache_view().contains_key(key@) && self.cache_view()[key@] == (
                    self.cache@[i as int].data@,
                    self.cache@[i as int].stored_at_ms,
                ),
                None => !self.cache_view().contains_key(key@),
            },
    {
        let ghost es = cache_entries(self.cache@);
        let mut i: usize = 0;
        while i < self.cache.len()
            invariant
                i <= self.cache@.len(),
                es == cache_entries(self.cache@),
                self.wf(),
                forall|j: int| 0 <= j < i ==> #[trigger] es[j].0 != key@,
            decreases self.cache@.len() - i,
        {
            if self.cache[i].key == *key {
                proof {
                    lemma_map_of_index(es, i as int);
                }
                return Some(i);
            }
            i += 1;
        }
        proof {
            lemma_map_of_absent(es, key@);
        }
        None
    }

    /// Sets the ticket `id` to `status`, created at `now_ms`.
    fn put_ticket(&mut self, id: String, status: TicketStatus, now_ms: u64)
        requires
            old(self).wf(),
        ensures
            final(self).wf(),
            final(self).tickets_view() == old(self).tickets_view().insert(id@, (status@, now_ms)),
            final(self).cache == old(self).cache,
            final(self).queue == old(self).queue,
            final(self).stats == old(self).stats,
    {
        let ghost id_view = id@;
        let ghost st = status@;
        let ghost es = ticket_entries(self.tickets@);
        match self.find_ticket(&id) {
            Some(i) => {
                self.tickets.set(i, TicketEntry { ticket_id: id, status, created_at_ms: now_ms });
                proof {
                    assert(ticket_entries(self.tickets@) =~= es.update(i as int, (es[i as int].0, (st, now_ms))));
                    lemma_map_of_update(es, i as int, (st, now_ms));
                }
            },
            None => {
                self.tickets.push(TicketEntry { ticket_id: id, status, created_at_ms: now_ms });
                proof {
                    assert(ticket_entries(self.tickets@) =~= es.push((id_view, (st, now_ms))));
                    lemma_map_of_push(es, id_view, (st, now_ms));
                }
            },
        }
    }

    /// Stores `data` in the cache under `key`, stored at `now_ms`.
    fn put_cache(&mut self, key: String, data: ServerInfo, now_ms: u64)
        requires
            old(self).wf(),
        ensures
            final(self).wf(),
            final(self).cache_view() == old(self).cache_view().insert(key@, (data@, now_ms)),
            final(self).tickets == old(self).tickets,
            final(self).queue == old(self).queue,
            final(self).stats == old(self).stats,
    {
        let ghost key_view = key@;
        let ghost d = data@;
        let ghost es = cache_entries(self.cache@);
        match self.find_cache(&key) {
            Some(i) => {
                self.cache.set(i, CacheEntry { key, data, stored_at_ms: now_ms });
                proof {
                    assert(cache_entries(self.cache@) =~= es.update(i as int, (es[i as int].0, (d, now_ms))));
                    lemma_map_of_update(es, i as int, (d, now_ms));
                }
            },
            None => {
                self.cache.push(CacheEntry { key, data, stored_at_ms: now_ms });
                proof {
                    assert(cache_entries(self.cache@) =~= es.push((key_view, (d, now_ms))));
                    lemma_map_of_push(es, key_view, (d, now_ms));
                }
            },
        }
    }
}

/// A ticket's id: the hash that a new `DefaultHasher` gives of the key, as
/// 16 lowercase hexadecimal digits. The minute is part of the key, so tickets
/// turn over every minute.
pub open spec fn ticket_id_text(host: Seq<char>, port: u16, fresh: bool, minute: u64) -> Seq<char> {
    hex_repr(
        DefaultHasher::spec_finish(
            ticket_key_hashed(Seq::<Seq<u8>>::empty(), host, port, fresh, minute),
        ) as nat,
        16,
    )
}

/// The id of the ticket for pinging `host:port` during `minute` (minutes
/// since the Unix epoch).
pub fn ticket_id_for_minute(host: &str, port: u16, fresh: bool, minute: u64) -> (id: String)
    ensures
        id@ == ticket_id_text(host@, port, fresh, minute),
{
    let mut hasher = DefaultHasher::new();
    hash_ticket_key(&mut hasher, host, port, fresh, minute);
    let h = hasher.finish();
    let digits = hex_chars(h, 16);
    to_string(digits.as_slice())
}

/// The id of the ticket for pinging `host:port` now; `None` when the clock
/// reads before the Unix epoch.
pub fn generate_ticket_id(host: &str, port: u16, fresh: bool) -> (id: Option<String>)
    ensures
        id matches Some(t) ==> exists|minute: u64| t@ == #[trigger] ticket_id_text(host@, port, fresh, minute),
{
    match time_since_epoch() {
        None => None,
        Some(since) => {
            let current_minute = whole_seconds(&since) / 60;
            Some(ticket_id_for_minute(host, port, fresh, current_minute))
        },
    }
}

/// The key under which a result for `host:port` is cached.
pub open spec fn cache_key_text(host: Seq<char>, port: u16) -> Seq<char> {
    host + ":"@ + decimal_repr(port as nat)
}

fn cache_key_for(host: &str, port: u16) -> (k: String)
    ensures
        k@ == cache_key_text(host@, port),
{
    let mut v: Vec<char> = Vec::new();
    push_str(&mut v, host);
    push_str(&mut v, ":");
    let d = decimal_chars(port as u64);
    push_all(&mut v, d.as_slice());
    to_string(v.as_slice())
}

/// Where a ticket's status can be checked.
pub open spec fn check_url_text(id: Seq<char>) -> Seq<char> {
    "/status/"@ + id
}

fn created_response(id: &String) -> (r: TicketCreatedResponse)
    ensures
        r.ticket_id@ == id@,
        r.check_url@ == check_url_text(id@),
{
    let mut v: Vec<char> = Vec::new();
    push_str(&mut v, "/status/");
    push_str(&mut v, id.as_str());
    TicketCreatedResponse { ticket_id: id.clone(), check_url: to_string(v.as_slice()) }
}

/// The port a request names, if it is a number from 1 to 65535 (as
/// `str::parse::<u32>` reads numbers).
pub open spec fn port_of(text: Seq<char>) -> Option<u16> {
    match parsed_u32(text) {
        Some(p) => if 0 < p && p <= 65535 {
            Some(p as u16)
        } else {
            None
        },
        None => None,
    }
}

/// A host name is accepted when it has from 1 to 253 bytes.
pub open spec fn host_acceptable(host: Seq<char>) -> bool {
    0 < encode_utf8(host).len() <= MAX_HOST_LENGTH
}

/// What a failed ping tells the user, from the failure's message.
pub open spec fn error_text(e: Seq<char>, host: Seq<char>) -> Seq<char> {
    if has_infix(e, "timeout"@) || has_infix(e, "Timeout"@) {
        "Request timed out"@
    } else if has_infix(e, "Connection failed"@) || has_infix(e, "Connection refused"@) || has_infix(
        e,
        "could not resolve"@,
    ) {
        "Cannot reach "@ + host
    } else if has_infix(e, "All protocols failed"@) {
        host + " does not appear to be a Minecraft server"@
    } else {
        "Unable to communicate with server"@
    }
}

fn mentions(e: &Vec<char>, word: &str) -> (r: bool)
    ensures
        r == has_infix(e@, word@),
{
    let w = chars_of(word);
    contains_chars(e.as_slice(), w.as_slice())
}

/// Turns the message of a failed ping of `host` into what the user is told.
pub fn classify_ping_error(e: &str, host: &str) -> (msg: String)
    ensures
        msg@ == error_text(e@, host@),
{
    let chars = chars_of(e);
    if mentions(&chars, "timeout") || mentions(&chars, "Timeout") {
        String::from_str("Request timed out")
    } else if mentions(&chars, "Connection failed") || mentions(&chars, "Connection refused")
        || mentions(&chars, "could not resolve") {
        let mut v: Vec<char> = Vec::new();
        push_str(&mut v, "Cannot reach ");
        push_str(&mut v, host);
        to_string(v.as_slice())
    } else if mentions(&chars, "All protocols failed") {
        let mut v: Vec<char> = Vec::new();
        push_str(&mut v, host);
        push_str(&mut v, " does not appear to be a Minecraft server");
        to_string(v.as_slice())
    } else {
        String::from_str("Unable to communicate with server")
    }
}

/// A ticket is live while it is younger than `TICKET_TTL_SECONDS`.
pub open spec fn live_ticket(t: Map<Seq<char>, (TicketState, u64)>, id: Seq<char>, now_ms: u64) -> bool {
    t.contains_key(id) && elapsed_secs(t[id].1, now_ms) < TICKET_TTL_SECONDS
}

/// A cached result is fresh while it is younger than `CACHE_TTL_SECONDS`.
pub open spec fn fresh_result(c: Map<Seq<char>, (ServerReport, u64)>, key: Seq<char>, now_ms: u64) -> bool {
    c.contains_key(key) && elapsed_secs(c[key].1, now_ms) < CACHE_TTL_SECONDS
}

/// What accepting a valid request for `host:port` does: the ticket of this
/// minute is answered as it stands while it is live; otherwise a fresh cached
/// result (unless `fresh` is asked for) makes it ready at once; otherwise it
/// joins the queue as pending at the queue's new length, with work for a
/// worker.
pub open spec fn request_accepted(
    old_s: PingService,
    new_s: PingService,
    res: Result<PingAccepted, ApiError>,
    host: Seq<char>,
    port: u16,
    fresh: bool,
    now_ms: u64,
) -> bool {
    let id = ticket_id_text(host, port, fresh, now_ms / 60000);
    let key = cache_key_text(host, port);
    res matches Ok(acc) && acc.response.ticket_id@ == id && acc.response.check_url@ == check_url_text(
        id,
    ) && if live_ticket(old_s.tickets_view(), id, now_ms) {
        new_s == old_s && acc.work is None
    } else if !fresh && fresh_result(old_s.cache_view(), key, now_ms) {
        &&& new_s.tickets_view() == old_s.tickets_view().insert(
            id,
            (TicketState::Ready(old_s.cache_view()[key].0), now_ms),
        )
        &&& new_s.cache == old_s.cache
        &&& new_s.queue == old_s.queue
        &&& new_s.stats == old_s.stats
        &&& acc.work is None
    } else {
        &&& new_s.pending_view() == old_s.pending_view().push(id)
        &&& new_s.queue.total_queued == old_s.queue.total_queued.wrapping_add(1)
        &&& new_s.queue.processing_count == old_s.queue.processing_count
        &&& new_s.tickets_view() == old_s.tickets_view().insert(
            id,
            (TicketState::Pending(new_s.pending_view().len() as usize), now_ms),
        )
        &&& new_s.cache == old_s.cache
        &&& new_s.stats == old_s.stats
        &&& acc.work matches Some(w) && w.ticket_id@ == id && w.host@ == host && w.port == port
    }
}

impl PingService {
    /// Answers a request to ping `host` on the port written in `port_str`.
    pub fn request_ping(&mut self, host: String, port_str: &str, fresh: bool, now_ms: u64) -> (res:
        Result<PingAccepted, ApiError>)
        requires
            old(self).wf(),
        ensures
            final(self).wf(),
            match port_of(port_str@) {
                None => res matches Err(ApiError::InvalidPort) && *final(self) == *old(self),
                Some(port) => if !host_acceptable(host@) {
                    res matches Err(ApiError::InvalidHost(m)) && m@ == "Invalid hostname"@
                        && *final(self) == *old(self)
                } else {
                    request_accepted(*old(self), *final(self), res, host@, port, fresh, now_ms)
                },
            },
    {
        let port_chars = chars_of(port_str);
        let port: u16 = match parse_u32(port_chars.as_slice()) {
            Some(p) => {
                if p > 0 && p <= 65535 {
                    p as u16
                } else {
                    return Err(ApiError::InvalidPort);
                }
            },
            None => {
                return Err(ApiError::InvalidPort);
            },
        };
        let host_len = host.as_str().as_bytes().len();
        if host_len == 0 || host_len > MAX_HOST_LENGTH {
            return Err(ApiError::InvalidHost(String::from_str("Invalid hostname")));
        }
        let cache_key = cache_key_for(host.as_str(), port);
        let ticket_id = ticket_id_for_minute(host.as_str(), port, fresh, now_ms / 60000);
        let response = created_response(&ticket_id);
        if let Some(i) = self.find_ticket(&ticket_id) {
            if elapsed_seconds(self.tickets[i].created_at_ms, now_ms) < TICKET_TTL_SECONDS {
                return Ok(PingAccepted { response, work: None });
            }
        }
        if !fresh {
            if let Some(j) = self.find_cache(&cache_key) {
                if elapsed_seconds(self.cache[j].stored_at_ms, now_ms) < CACHE_TTL_SECONDS {
                    let data = self.cache[j].data.duplicate();
                    let ghost id_view = ticket_id@;
                    self.put_ticket(ticket_id, TicketStatus::Ready { result: data }, now_ms);
                    assert(!live_ticket(old(self).tickets_view(), id_view, now_ms));
                    assert(fresh_result(old(self).cache_view(), cache_key@, now_ms));
                    assert(self.tickets_view() == old(self).tickets_view().insert(
                        id_view,
                        (TicketState::Ready(old(self).cache_view()[cache_key@].0), now_ms),
                    ));
                    return Ok(PingAccepted { response, work: None });
                }
            }
        }
        let ghost old_pending = self.pending_view();
        self.queue.pending_tickets.push_back(ticket_id.clone());
        assert(self.pending_view() =~= old_pending.push(ticket_id@));
        self.queue.total_queued = self.queue.total_queued.wrapping_add(1);
        let position = self.queue.pending_tickets.len();
        self.put_ticket(ticket_id.clone(), TicketStatus::Pending { position }, now_ms);
        Ok(PingAccepted { response, work: Some(WorkItem { ticket_id, host, port }) })
    }
}

/// `s` without the entries that `drop` picks, in order.
pub open spec fn retained(s: Seq<Seq<char>>, drop: spec_fn(Seq<char>) -> bool) -> Seq<Seq<char>>
    decreases s.len(),
{
    if s.len() == 0 {
        s
    } else if drop(s.last()) {
        retained(s.drop_last(), drop)
    } else {
        retained(s.drop_last(), drop).push(s.last())
    }
}

/// The 1-based position of the first occurrence of `x` in `s`.
pub open spec fn first_position(s: Seq<Seq<char>>, x: Seq<char>) -> Option<usize>
    decreases s.len(),
{
    if s.len() == 0 {
        None
    } else if s[0] == x {
        Some(1)
    } else {
        match first_position(s.drop_first(), x) {
            Some(p) => Some((p + 1) as usize),
            None => None,
        }
    }
}

/// The counters count every request once, as a success or as a failure
/// (all three wrap around at 2^64 alike).
pub open spec fn counts_consistent(s: Stats) -> bool {
    s.total_requests == s.successful_requests.wrapping_add(s.failed_requests)
}

/// `new` is `old` with one more request counted: a success (with the
/// protocol that answered, if known, and whether the query answered), or a
/// failure.
pub open spec fn request_recorded(
    old: Stats,
    new: Stats,
    success: bool,
    protocol: Option<Seq<char>>,
    query: bool,
) -> bool {
    &&& new.total_requests == old.total_requests.wrapping_add(1)
    &&& new.start_time_ms == old.start_time_ms
    &&& if success {
        &&& new.successful_requests == old.successful_requests.wrapping_add(1)
        &&& new.failed_requests == old.failed_requests
        &&& match protocol {
            Some(p) => {
                &&& new.protocol_counts.modern_slp == if p == "modern_slp"@ {
                    old.protocol_counts.modern_slp.wrapping_add(1)
                } else {
                    old.protocol_counts.modern_slp
                }
                &&& new.protocol_counts.legacy_slp == if p == "legacy_slp"@ || p
                    == "legacy_slp_beta"@ {
                    old.protocol_counts.legacy_slp.wrapping_add(1)
                } else {
                    old.protocol_counts.legacy_slp
                }
                &&& new.protocol_counts.query_enabled == if query {
                    old.protocol_counts.query_enabled.wrapping_add(1)
                } else {
                    old.protocol_counts.query_enabled
                }
            },
            None => new.protocol_counts == old.protocol_counts,
        }
    } else {
        &&& new.successful_requests == old.successful_requests
        &&& new.failed_requests == old.failed_requests.wrapping_add(1)
        &&& new.protocol_counts == old.protocol_counts
    }
}

/// Two different servers never share a cached result: equal cache keys
/// come only from the same host and the same port.
pub proof fn lemma_cache_key_names_one_server(h1: Seq<char>, p1: u16, h2: Seq<char>, p2: u16)
    requires
        cache_key_text(h1, p1) == cache_key_text(h2, p2),
    ensures
        h1 == h2,
        p1 == p2,
{
    let d1 = decimal_repr(p1 as nat);
    let d2 = decimal_repr(p2 as nat);
    lemma_decimal_repr_digits(p1 as nat);
    lemma_decimal_repr_digits(p2 as nat);
    let k1 = cache_key_text(h1, p1);
    let k2 = cache_key_text(h2, p2);
    assert(k1 =~= h1 + (":"@ + d1));
    assert(k2 =~= h2 + (":"@ + d2));
    reveal_strlit(":");
    let n = k1.len();
    if d1.len() < d2.len() {
        let j = n - d1.len() - 1;
        assert(k1[j] == ':');
        assert(k2[j] == d2[j - h2.len() - 1]);
        assert(is_digit(d2[j - h2.len() - 1]));
    } else if d2.len() < d1.len() {
        let j = n - d2.len() - 1;
        assert(k2[j] == ':');
        assert(k1[j] == d1[j - h1.len() - 1]);
        assert(is_digit(d1[j - h1.len() - 1]));
    }
    assert(d1.len() == d2.len());
    assert(h1.len() == h2.len());
    assert(h1 =~= k1.subrange(0, h1.len() as int));
    assert(h2 =~= k2.subrange(0, h2.len() as int));
    assert(d1 =~= k1.subrange(n - d1.len(), n as int));
    assert(d2 =~= k2.subrange(n - d2.len(), n as int));
}

/// A failure that mentions no timeout but a refused or failed connection,
/// or a name that could not be resolved, is reported as the host being out
/// of reach, whatever else the message says (an "All protocols failed"
/// included). One that mentions a timeout is a timeout; one that mentions
/// neither but says that all protocols failed is reported as not being a
/// Minecraft server.
pub proof fn lemma_failure_classes(e: Seq<char>, host: Seq<char>)
    ensures
        has_infix(e, "timeout"@) || has_infix(e, "Timeout"@) ==> error_text(e, host)
            == "Request timed out"@,
        !has_infix(e, "timeout"@) && !has_infix(e, "Timeout"@) && (has_infix(
            e,
            "Connection failed"@,
        ) || has_infix(e, "Connection refused"@) || has_infix(e, "could not resolve"@))
            ==> error_text(e, host) == "Cannot reach "@ + host,
        !has_infix(e, "timeout"@) && !has_infix(e, "Timeout"@) && !has_infix(
            e,
            "Connection failed"@,
        ) && !has_infix(e, "Connection refused"@) && !has_infix(e, "could not resolve"@)
            && has_infix(e, "All protocols failed"@) ==> error_text(e, host) == host
            + " does not appear to be a Minecraft server"@,
{
}

/// A word that occurs in a part of a message occurs in the message.
proof fn lemma_infix_in_middle(a: Seq<char>, m: Seq<char>, b: Seq<char>, w: Seq<char>)
    requires
        has_infix(m, w),
    ensures
        has_infix(a + m + b, w),
{
    let i = choose|i: int| 0 <= i && i + w.len() <= m.len() && #[trigger] m.subrange(i, i + w.len()) == w;
    let s = a + m + b;
    assert(s.subrange(a.len() + i, a.len() + i + w.len()) =~= m.subrange(i, i + w.len()));
}

/// When every protocol failed and the modern attempt could not connect, the
/// user is told that the host cannot be reached (so long as no timeout is
/// mentioned), not that it is no Minecraft server.
pub proof fn lemma_unreachable_server_is_reported_unreachable(m: Seq<char>, l: Seq<char>, host: Seq<char>)
    requires
        has_infix(m, "Connection failed"@) || has_infix(m, "Connection refused"@),
        !has_infix("All protocols failed. Modern: "@ + m + ". Legacy: "@ + l, "timeout"@),
        !has_infix("All protocols failed. Modern: "@ + m + ". Legacy: "@ + l, "Timeout"@),
    ensures
        error_text("All protocols failed. Modern: "@ + m + ". Legacy: "@ + l, host) == "Cannot reach "@
            + host,
{
    let a = "All protocols failed. Modern: "@;
    let b = ". Legacy: "@ + l;
    assert(a + m + ". Legacy: "@ + l =~= a + m + b);
    if has_infix(m, "Connection failed"@) {
        lemma_infix_in_middle(a, m, b, "Connection failed"@);
    } else {
        lemma_infix_in_middle(a, m, b, "Connection refused"@);
    }
}

/// A success answered over the legacy protocol counts as legacy use whether
/// the server answered in the 1.4-1.6 form ("legacy_slp") or the beta form
/// ("legacy_slp_beta"): both add one to the legacy count, change nothing
/// else among the protocol counts, and leave the statistics alike.
pub proof fn lemma_both_legacy_forms_count_as_legacy(old_stats: Stats, a: Stats, b: Stats, query: bool)
    requires
        request_recorded(old_stats, a, true, Some("legacy_slp"@), query),
        request_recorded(old_stats, b, true, Some("legacy_slp_beta"@), query),
    ensures
        a == b,
        a.protocol_counts.legacy_slp == old_stats.protocol_counts.legacy_slp.wrapping_add(1),
        a.protocol_counts.modern_slp == old_stats.protocol_counts.modern_slp,
        a.successful_requests == old_stats.successful_requests.wrapping_add(1),
{
    reveal_strlit("modern_slp");
    reveal_strlit("legacy_slp");
    reveal_strlit("legacy_slp_beta");
    assert("legacy_slp"@ != "modern_slp"@) by {
        assert("legacy_slp"@[0] != "modern_slp"@[0]);
    }
    assert("legacy_slp_beta"@ != "modern_slp"@) by {
        assert("legacy_slp_beta"@[0] != "modern_slp"@[0]);
    }
}

/// A recorded success adds one to the count of the protocol that answered
/// (modern for "modern_slp", legacy for "legacy_slp" and "legacy_slp_beta",
/// neither for another name) and one to the query count when the query
/// answered; a recorded failure changes no protocol count. (Counts below
/// `u64::MAX`, past which they wrap.)
pub proof fn lemma_recorded_request_counts_its_protocol(
    old_stats: Stats,
    new_stats: Stats,
    success: bool,
    p: Seq<char>,
    query: bool,
)
    requires
        request_recorded(old_stats, new_stats, success, Some(p), query),
        old_stats.protocol_counts.modern_slp < u64::MAX,
        old_stats.protocol_counts.legacy_slp < u64::MAX,
        old_stats.protocol_counts.query_enabled < u64::MAX,
    ensures
        new_stats.protocol_counts.modern_slp == old_stats.protocol_counts.modern_slp + (if success
            && p == "modern_slp"@ { 1int } else { 0int }),
        new_stats.protocol_counts.legacy_slp == old_stats.protocol_counts.legacy_slp + (if success && (p
            == "legacy_slp"@ || p == "legacy_slp_beta"@) { 1int } else { 0int }),
        new_stats.protocol_counts.query_enabled == old_stats.protocol_counts.query_enabled + (if success
            && query { 1int } else { 0int }),
{
    reveal_strlit("modern_slp");
    reveal_strlit("legacy_slp");
    reveal_strlit("legacy_slp_beta");
    assert("legacy_slp"@[0] != "modern_slp"@[0]);
    assert("legacy_slp_beta"@[0] != "modern_slp"@[0]);
}

/// The protocol counters stay within the successes: the modern and legacy
/// counts together, and the query count, are at most the successful count.
pub open spec fn protocol_counts_within(s: Stats) -> bool {
    &&& s.protocol_counts.modern_slp + s.protocol_counts.legacy_slp <= s.successful_requests
    &&& s.protocol_counts.query_enabled <= s.successful_requests
}

/// Recording a request keeps the protocol counters within the successes
/// (while the successful count has not reached `u64::MAX`, past which it
/// wraps to 0). A fresh service starts with all counters at 0, where this
/// holds.
pub proof fn lemma_record_keeps_protocol_counts_within_successes(
    old_stats: Stats,
    new_stats: Stats,
    success: bool,
    protocol: Option<Seq<char>>,
    query: bool,
)
    requires
        protocol_counts_within(old_stats),
        request_recorded(old_stats, new_stats, success, protocol, query),
        success ==> old_stats.successful_requests < u64::MAX,
    ensures
        protocol_counts_within(new_stats),
{
    if success {
        if let Some(p) = protocol {
            reveal_strlit("modern_slp");
            reveal_strlit("legacy_slp");
            reveal_strlit("legacy_slp_beta");
            if p == "modern_slp"@ {
                assert(p != "legacy_slp"@ && p != "legacy_slp_beta"@) by {
                    assert(p[0] == 'm');
                }
            }
        }
    }
}

pub open spec fn opt_view(p: Option<&String>) -> Option<Seq<char>> {
    match p {
        Some(s) => Some(s@),
        None => None,
    }
}

impl Stats {
    /// Counts one request: a success (with the protocol that answered and
    /// whether the query answered), or a failure.
    pub fn record_request(&mut self, success: bool, protocol: Option<&String>, query_enabled: bool)
        ensures
            request_recorded(*old(self), *final(self), success, opt_view(protocol), query_enabled),
            counts_consistent(*old(self)) ==> counts_consistent(*final(self)),
            protocol_counts_within(*old(self)) && old(self).successful_requests < u64::MAX
                ==> protocol_counts_within(*final(self)),
    {
        proof {
            reveal_strlit("modern_slp");
            reveal_strlit("legacy_slp");
            reveal_strlit("legacy_slp_beta");
            assert("modern_slp"@[0] != "legacy_slp"@[0]);
            assert("modern_slp"@.len() != "legacy_slp_beta"@.len());
        }
        self.total_requests = self.total_requests.wrapping_add(1);
        if success {
            self.successful_requests = self.successful_requests.wrapping_add(1);
            if let Some(proto) = protocol {
                if *proto == String::from_str("modern_slp") {
                    self.protocol_counts.modern_slp = self.protocol_counts.modern_slp.wrapping_add(1);
                } else if *proto == String::from_str("legacy_slp") || *proto == String::from_str(
                    "legacy_slp_beta",
                ) {
                    self.protocol_counts.legacy_slp = self.protocol_counts.legacy_slp.wrapping_add(1);
                }
                if query_enabled {
                    self.protocol_counts.query_enabled = self.protocol_counts.query_enabled.wrapping_add(
                        1,
                    );
                }
            }
        } else {
            self.failed_requests = self.failed_requests.wrapping_add(1);
        }
        proof {
            if protocol_counts_within(*old(self)) && old(self).successful_requests < u64::MAX {
                lemma_record_keeps_protocol_counts_within_successes(
                    *old(self),
                    *self,
                    success,
                    opt_view(protocol),
                    query_enabled,
                );
            }
        }
    }
}

proof fn lemma_first_position_at(s: Seq<Seq<char>>, x: Seq<char>, j: int)
    requires
        0 <= j < s.len(),
        j + 1 <= usize::MAX,
        s[j] == x,
        forall|k: int| 0 <= k < j ==> s[k] != x,
    ensures
        first_position(s, x) == Some((j + 1) as usize),
    decreases j,
{
    if j > 0 {
        assert(s[0] != x);
        lemma_first_position_at(s.drop_first(), x, j - 1);
    }
}

proof fn lemma_first_position_none(s: Seq<Seq<char>>, x: Seq<char>)
    requires
        forall|k: int| 0 <= k < s.len() ==> s[k] != x,
    ensures
        first_position(s, x) is None,
    decreases s.len(),
{
    if s.len() > 0 {
        assert(s[0] != x);
        lemma_first_position_none(s.drop_first(), x);
    }
}

/// The standing a status check reports for a ticket stored as `stored`: a
/// pending ticket shows its current place in the queue, when it is there.
pub open spec fn reported_state(stored: TicketState, position: Option<usize>) -> TicketState {
    match stored {
        TicketState::Pending(_) => match position {
            Some(p) => TicketState::Pending(p),
            None => stored,
        },
        _ => stored,
    }
}

/// A ticket has expired when it is older than `TICKET_TTL_SECONDS`.
pub open spec fn expired(created_ms: u64, now_ms: u64) -> bool {
    elapsed_secs(created_ms, now_ms) > TICKET_TTL_SECONDS
}

/// The tickets that have not expired at `now_ms`.
pub open spec fn unexpired(t: Map<Seq<char>, (TicketState, u64)>, now_ms: u64) -> Map<
    Seq<char>,
    (TicketState, u64),
> {
    Map::new(|k: Seq<char>| t.contains_key(k) && !expired(t[k].1, now_ms), |k: Seq<char>| t[k])
}

proof fn lemma_unexpired_insert(
    m: Map<Seq<char>, (TicketState, u64)>,
    k: Seq<char>,
    v: (TicketState, u64),
    now_ms: u64,
)
    requires
        !m.contains_key(k),
    ensures
        unexpired(m.insert(k, v), now_ms) == if expired(v.1, now_ms) {
            unexpired(m, now_ms)
        } else {
            unexpired(m, now_ms).insert(k, v)
        },
{
    if expired(v.1, now_ms) {
        assert(unexpired(m.insert(k, v), now_ms) =~= unexpired(m, now_ms));
    } else {
        assert(unexpired(m.insert(k, v), now_ms) =~= unexpired(m, now_ms).insert(k, v));
    }
}

/// The counts behind the statistics report (whose percentages and rates
/// are computed from them).
pub struct StatsCounts {
    pub uptime_seconds: u64,
    pub total_requests: u64,
    pub successful_requests: u64,
    pub failed_requests: u64,
    pub modern_slp: u64,
    pub legacy_slp: u64,
    pub query_enabled: u64,
    pub pending_tickets: usize,
    pub processing_tickets: usize,
    pub total_queued: u64,
}

impl PingService {
    /// Removes every occurrence of `id` from the pending queue.
    fn remove_pending(&mut self, id: &String)
        ensures
            final(self).pending_view() == retained(old(self).pending_view(), |x: Seq<char>| x == id@),
            final(self).tickets == old(self).tickets,
            final(self).cache == old(self).cache,
            final(self).stats == old(self).stats,
            final(self).queue.processing_count == old(self).queue.processing_count,
            final(self).queue.total_queued == old(self).queue.total_queued,
    {
        let ghost drop = |x: Seq<char>| x == id@;
        let ghost before = self.pending_view();
        let mut kept: VecDeque<String> = VecDeque::new();
        let mut i: usize = 0;
        while i < self.queue.pending_tickets.len()
            invariant
                i <= before.len(),
                before == self.pending_view(),
                before.len() == self.queue.pending_tickets@.len(),
                drop == (|x: Seq<char>| x == id@),
                kept@.map_values(|s: String| s@) == retained(before.subrange(0, i as int), drop),
            decreases before.len() - i,
        {
            let ghost prefix = before.subrange(0, i + 1);
            assert(prefix.drop_last() =~= before.subrange(0, i as int));
            assert(prefix.last() == self.queue.pending_tickets@[i as int]@);
            let ghost kv = kept@.map_values(|s: String| s@);
            if self.queue.pending_tickets[i] != *id {
                let t = self.queue.pending_tickets[i].clone();
                kept.push_back(t);
                assert(!drop(prefix.last()));
                assert(retained(prefix, drop) == retained(prefix.drop_last(), drop).push(prefix.last()));
                assert(kept@.map_values(|s: String| s@) =~= kv.push(t@));
            } else {
                assert(drop(prefix.last()));
                assert(retained(prefix, drop) == retained(prefix.drop_last(), drop));
            }
            i += 1;
        }
        assert(before.subrange(0, before.len() as int) =~= before);
        self.queue.pending_tickets = kept;
    }

    /// The 1-based place of `id` in the pending queue.
    fn position_of(&self, id: &String) -> (r: Option<usize>)
        ensures
            r == first_position(self.pending_view(), id@),
    {
        let ghost pv = self.pending_view();
        let mut i: usize = 0;
        while i < self.queue.pending_tickets.len()
            invariant
                i <= pv.len(),
                pv == self.pending_view(),
                pv.len() == self.queue.pending_tickets@.len(),
                forall|j: int| 0 <= j < i ==> pv[j] != id@,
            decreases pv.len() - i,
        {
            if self.queue.pending_tickets[i] == *id {
                proof {
                    lemma_first_position_at(pv, id@, i as int);
                }
                return Some(i + 1);
            }
            i += 1;
        }
        proof {
            lemma_first_position_none(pv, id@);
        }
        None
    }

    /// Removes the ticket `id`, if there is one.
    fn drop_ticket(&mut self, id: &String)
        requires
            old(self).wf(),
        ensures
            final(self).wf(),
            final(self).tickets_view() == old(self).tickets_view().remove(id@),
            final(self).cache == old(self).cache,
            final(self).queue == old(self).queue,
            final(self).stats == old(self).stats,
    {
        let ghost es = ticket_entries(self.tickets@);
        match self.find_ticket(id) {
            Some(i) => {
                self.tickets.remove(i);
                proof {
                    assert(ticket_entries(self.tickets@) =~= es.remove(i as int));
                    lemma_map_of_remove(es, i as int);
                }
            },
            None => {
                assert(self.tickets_view() =~= old(self).tickets_view().remove(id@));
            },
        }
    }

    /// Withdraws a ticket whose work could not be handed to a worker and
    /// answers with the error the request gets.
    pub fn cancel_queued(&mut self, ticket_id: &String) -> (err: ApiError)
        requires
            old(self).wf(),
        ensures
            final(self).wf(),
            final(self).tickets_view() == old(self).tickets_view().remove(ticket_id@),
            final(self).pending_view() == retained(
                old(self).pending_view(),
                |x: Seq<char>| x == ticket_id@,
            ),
            final(self).cache == old(self).cache,
            final(self).stats == old(self).stats,
            final(self).queue.processing_count == old(self).queue.processing_count,
            final(self).queue.total_queued == old(self).queue.total_queued,
            err matches ApiError::ConnectionFailed(m) && m@ == "Service temporarily unavailable"@,
    {
        self.drop_ticket(ticket_id);
        self.remove_pending(ticket_id);
        ApiError::ConnectionFailed(String::from_str("Service temporarily unavailable"))
    }

    /// A worker takes up the ticket `id`: it leaves the queue, the count of
    /// tickets in process goes up, and the ticket, if it still exists, is
    /// marked as processing.
    pub fn start_work(&mut self, ticket_id: &String)
        requires
            old(self).wf(),
        ensures
            final(self).wf(),
            final(self).pending_view() == retained(
                old(self).pending_view(),
                |x: Seq<char>| x == ticket_id@,
            ),
            final(self).queue.processing_count == old(self).queue.processing_count.wrapping_add(1),
            final(self).queue.total_queued == old(self).queue.total_queued,
            final(self).tickets_view() == if old(self).tickets_view().contains_key(ticket_id@) {
                old(self).tickets_view().insert(
                    ticket_id@,
                    (TicketState::Processing, old(self).tickets_view()[ticket_id@].1),
                )
            } else {
                old(self).tickets_view()
            },
            final(self).cache == old(self).cache,
            final(self).stats == old(self).stats,
    {
        self.remove_pending(ticket_id);
        self.queue.processing_count = self.queue.processing_count.wrapping_add(1);
        if let Some(i) = self.find_ticket(ticket_id) {
            let created = self.tickets[i].created_at_ms;
            self.put_ticket(ticket_id.clone(), TicketStatus::Processing, created);
        }
    }

    /// A worker is done with `work`: the count of tickets in process goes
    /// down, and if the ticket still exists the outcome is recorded: a
    /// success is cached under `host:port`, counted and made the ticket's
    /// result; a failure is counted and the ticket gets the message the user
    /// is told.
    pub fn finish_work(&mut self, work: &WorkItem, result: Result<ServerInfo, String>, now_ms: u64)
        requires
            old(self).wf(),
        ensures
            final(self).wf(),
            final(self).queue.processing_count == old(self).queue.processing_count.wrapping_sub(1),
            final(self).queue.pending_tickets == old(self).queue.pending_tickets,
            final(self).queue.total_queued == old(self).queue.total_queued,
            protocol_counts_within(old(self).stats) && old(self).stats.successful_requests < u64::MAX
                ==> protocol_counts_within(final(self).stats),
            if !old(self).tickets_view().contains_key(work.ticket_id@) {
                &&& final(self).tickets_view() == old(self).tickets_view()
                &&& final(self).cache_view() == old(self).cache_view()
                &&& final(self).stats == old(self).stats
            } else {
                let created = old(self).tickets_view()[work.ticket_id@].1;
                match result {
                    Ok(info) => {
                        &&& final(self).cache_view() == old(self).cache_view().insert(
                            cache_key_text(work.host@, work.port),
                            (info@, now_ms),
                        )
                        &&& request_recorded(
                            old(self).stats,
                            final(self).stats,
                            true,
                            Some(info.protocol_used@),
                            info.query_enabled,
                        )
                        &&& final(self).tickets_view() == old(self).tickets_view().insert(
                            work.ticket_id@,
                            (TicketState::Ready(info@), created),
                        )
                    },
                    Err(e) => {
                        &&& final(self).cache_view() == old(self).cache_view()
                        &&& request_recorded(old(self).stats, final(self).stats, false, None, false)
                        &&& final(self).tickets_view() == old(self).tickets_view().insert(
                            work.ticket_id@,
                            (TicketState::Error(error_text(e@, work.host@)), created),
                        )
                    },
                }
            },
    {
        self.queue.processing_count = self.queue.processing_count.wrapping_sub(1);
        if let Some(i) = self.find_ticket(&work.ticket_id) {
            let created = self.tickets[i].created_at_ms;
            match result {
                Ok(info) => {
                    let key = cache_key_for(work.host.as_str(), work.port);
                    let cached = info.duplicate();
                    self.put_cache(key, cached, now_ms);
                    self.stats.record_request(true, Some(&info.protocol_used), info.query_enabled);
                    self.put_ticket(work.ticket_id.clone(), TicketStatus::Ready { result: info }, created);
                },
                Err(e) => {
                    self.stats.record_request(false, None, false);
                    let message = classify_ping_error(e.as_str(), work.host.as_str());
                    self.put_ticket(work.ticket_id.clone(), TicketStatus::Error { message }, created);
                },
            }
        }
    }

    /// The status report of the ticket `id` at `now_ms`: its standing
    /// (a pending ticket with its current queue place), its creation time in
    /// seconds since the epoch and its age in seconds. A ticket that is
    /// unknown, or older than `TICKET_TTL_SECONDS`, is not found.
    pub fn check_status(&self, ticket_id: &String, now_ms: u64) -> (res: Result<TicketResponse, ApiError>)
        requires
            self.wf(),
        ensures
            match self.tickets_view().get(ticket_id@) {
                Some((stored, created)) if !expired(created, now_ms) => res matches Ok(r)
                    && r.ticket_id@ == ticket_id@ && r.status@ == reported_state(
                    stored,
                    first_position(self.pending_view(), ticket_id@),
                ) && r.created_at == created / 1000 && r.age_seconds == elapsed_secs(
                    created,
                    now_ms,
                ),
                _ => res matches Err(ApiError::InvalidHost(m)) && m@ == "Ticket not found or expired"@,
            },
    {
        match self.find_ticket(ticket_id) {
            None => Err(ApiError::InvalidHost(String::from_str("Ticket not found or expired"))),
            Some(i) => {
                let entry = &self.tickets[i];
                if elapsed_seconds(entry.created_at_ms, now_ms) > TICKET_TTL_SECONDS {
                    return Err(ApiError::InvalidHost(String::from_str("Ticket not found or expired")));
                }
                let status = match &entry.status {
                    TicketStatus::Pending { .. } => match self.position_of(ticket_id) {
                        Some(position) => TicketStatus::Pending { position },
                        None => entry.status.duplicate(),
                    },
                    _ => entry.status.duplicate(),
                };
                Ok(
                    TicketResponse {
                        ticket_id: ticket_id.clone(),
                        status,
                        created_at: entry.created_at_ms / 1000,
                        age_seconds: elapsed_seconds(entry.created_at_ms, now_ms),
                    },
                )
            },
        }
    }

    /// Drops the tickets that have expired at `now_ms`, and takes them out of
    /// the pending queue.
    pub fn cleanup_expired(&mut self, now_ms: u64)
        requires
            old(self).wf(),
        ensures
            final(self).wf(),
            final(self).tickets_view() == unexpired(old(self).tickets_view(), now_ms),
            final(self).pending_view() == retained(
                old(self).pending_view(),
                |x: Seq<char>|
                    old(self).tickets_view().contains_key(x) && expired(
                        old(self).tickets_view()[x].1,
                        now_ms,
                    ),
            ),
            final(self).cache == old(self).cache,
            final(self).stats == old(self).stats,
            final(self).queue.processing_count == old(self).queue.processing_count,
            final(self).queue.total_queued == old(self).queue.total_queued,
    {
        let ghost tv = self.tickets_view();
        let ghost drop = |x: Seq<char>| tv.contains_key(x) && expired(tv[x].1, now_ms);
        let ghost before = self.pending_view();
        let mut kept: VecDeque<String> = VecDeque::new();
        let mut i: usize = 0;
        while i < self.queue.pending_tickets.len()
            invariant
                i <= before.len(),
                self.wf(),
                tv == self.tickets_view(),
                before == self.pending_view(),
                before.len() == self.queue.pending_tickets@.len(),
                drop == (|x: Seq<char>| tv.contains_key(x) && expired(tv[x].1, now_ms)),
                kept@.map_values(|s: String| s@) == retained(before.subrange(0, i as int), drop),
            decreases before.len() - i,
        {
            let ghost prefix = before.subrange(0, i + 1);
            assert(prefix.drop_last() =~= before.subrange(0, i as int));
            assert(prefix.last() == self.queue.pending_tickets@[i as int]@);
            let ghost kv = kept@.map_values(|s: String| s@);
            let gone = match self.find_ticket(&self.queue.pending_tickets[i]) {
                Some(j) => elapsed_seconds(self.tickets[j].created_at_ms, now_ms) > TICKET_TTL_SECONDS,
                None => false,
            };
            if !gone {
                let t = self.queue.pending_tickets[i].clone();
                kept.push_back(t);
                assert(!drop(prefix.last()));
                assert(retained(prefix, drop) == retained(prefix.drop_last(), drop).push(prefix.last()));
                assert(kept@.map_values(|s: String| s@) =~= kv.push(t@));
            } else {
                assert(drop(prefix.last()));
                assert(retained(prefix, drop) == retained(prefix.drop_last(), drop));
            }
            i += 1;
        }
        assert(before.subrange(0, before.len() as int) =~= before);
        self.queue.pending_tickets = kept;

        let ghost es = ticket_entries(self.tickets@);
        let mut live: Vec<TicketEntry> = Vec::new();
        let mut k: usize = 0;
        proof {
            assert(ticket_entries(live@) =~= Seq::empty());
            assert(es.subrange(0, 0) =~= Seq::<(Seq<char>, (TicketState, u64))>::empty());
            assert(unexpired(map_of(es.subrange(0, 0)), now_ms) =~= map_of(ticket_entries(live@)));
        }
        while k < self.tickets.len()
            invariant
                k <= es.len(),
                es == ticket_entries(self.tickets@),
                es.len() == self.tickets@.len(),
                distinct_keys(es),
                distinct_keys(ticket_entries(live@)),
                map_of(ticket_entries(live@)) == unexpired(map_of(es.subrange(0, k as int)), now_ms),
            decreases es.len() - k,
        {
            let ghost prefix = es.subrange(0, k + 1);
            assert(prefix.drop_last() =~= es.subrange(0, k as int));
            let ghost key = es[k as int].0;
            let ghost val = es[k as int].1;
            assert(prefix.last() == (key, val));
            proof {
                lemma_map_of_keys(es.subrange(0, k as int), key);
                assert forall|j: int| 0 <= j < k implies #[trigger] es.subrange(0, k as int)[j].0 != key by {
                    assert(es.subrange(0, k as int)[j] == es[j]);
                }
                lemma_unexpired_insert(map_of(es.subrange(0, k as int)), key, val, now_ms);
            }
            let entry = &self.tickets[k];
            if elapsed_seconds(entry.created_at_ms, now_ms) <= TICKET_TTL_SECONDS {
                let copy = TicketEntry {
                    ticket_id: entry.ticket_id.clone(),
                    status: entry.status.duplicate(),
                    created_at_ms: entry.created_at_ms,
                };
                let ghost lv = ticket_entries(live@);
                live.push(copy);
                proof {
                    assert(ticket_entries(live@) =~= lv.push((key, val)));
                    lemma_map_of_push(lv, key, val);
                }
            }
            k += 1;
        }
        assert(es.subrange(0, es.len() as int) =~= es);
        self.tickets = live;
    }

    /// The queue's figures: pending tickets, tickets in process, tickets
    /// ever queued.
    pub fn queue_stats(&self) -> (r: (usize, usize, u64))
        ensures
            r.0 == self.pending_view().len(),
            r.1 == self.queue.processing_count,
            r.2 == self.queue.total_queued,
    {
        (self.queue.pending_tickets.len(), self.queue.processing_count, self.queue.total_queued)
    }

    /// The counts behind the statistics report at `now_ms`.
    pub fn stats_counts(&self, now_ms: u64) -> (c: StatsCounts)
        ensures
            c.uptime_seconds == elapsed_secs(self.stats.start_time_ms, now_ms),
            c.total_requests == self.stats.total_requests,
            c.successful_requests == self.stats.successful_requests,
            c.failed_requests == self.stats.failed_requests,
            c.modern_slp == self.stats.protocol_counts.modern_slp,
            c.legacy_slp == self.stats.protocol_counts.legacy_slp,
            c.query_enabled == self.stats.protocol_counts.query_enabled,
            c.pending_tickets == self.pending_view().len(),
            c.processing_tickets == self.queue.processing_count,
            c.total_queued == self.queue.total_queued,
    {
        StatsCounts {
            uptime_seconds: elapsed_seconds(self.stats.start_time_ms, now_ms),
            total_requests: self.stats.total_requests,
            successful_requests: self.stats.successful_requests,
            failed_requests: self.stats.failed_requests,
            modern_slp: self.stats.protocol_counts.modern_slp,
            legacy_slp: self.stats.protocol_counts.legacy_slp,
            query_enabled: self.stats.protocol_counts.query_enabled,
            pending_tickets: self.queue.pending_tickets.len(),
            processing_tickets: self.queue.processing_count,
            total_queued: self.queue.total_queued,
        }
    }
}

impl PingService {
    /// Answers a request to ping `host` on the default port (the port is
    /// written out in decimal and read back, as for an explicit port).
    pub fn request_ping_on_default_port(&mut self, host: String, fresh: bool, now_ms: u64) -> (res:
        Result<PingAccepted, ApiError>)
        requires
            old(self).wf(),
        ensures
            final(self).wf(),
            if !host_acceptable(host@) {
                res matches Err(ApiError::InvalidHost(m)) && m@ == "Invalid hostname"@
                    && *final(self) == *old(self)
            } else {
                request_accepted(*old(self), *final(self), res, host@, DEFAULT_PORT, fresh, now_ms)
            },
    {
        let digits = decimal_chars(DEFAULT_PORT as u64);
        let port_text = to_string(digits.as_slice());
        proof {
            lemma_parse_u32_of_decimal(DEFAULT_PORT as u32);
        }
        self.request_ping(host, port_text.as_str(), fresh, now_ms)
    }
}

/// A ticket that a request was answered with exists right after and has
/// not expired: a status check at that moment finds it, and a cleanup at that
/// moment keeps it.
pub proof fn lemma_requested_ticket_is_live(
    old_s: PingService,
    new_s: PingService,
    res: Result<PingAccepted, ApiError>,
    host: Seq<char>,
    port: u16,
    fresh: bool,
    now_ms: u64,
)
    requires
        request_accepted(old_s, new_s, res, host, port, fresh, now_ms),
    ensures
        res matches Ok(acc) && new_s.tickets_view().contains_key(acc.response.ticket_id@)
            && !expired(new_s.tickets_view()[acc.response.ticket_id@].1, now_ms)
            && unexpired(new_s.tickets_view(), now_ms).contains_key(acc.response.ticket_id@),
{
    let id = ticket_id_text(host, port, fresh, now_ms / 60000);
    assert(elapsed_secs(now_ms, now_ms) == 0);
}

/// A request that queues its ticket leaves it pending, and a status check
/// reports it at a place from 1 to the queue's length.
pub proof fn lemma_queued_ticket_is_pending(
    old_s: PingService,
    new_s: PingService,
    res: Result<PingAccepted, ApiError>,
    host: Seq<char>,
    port: u16,
    fresh: bool,
    now_ms: u64,
)
    requires
        request_accepted(old_s, new_s, res, host, port, fresh, now_ms),
        res matches Ok(acc) && acc.work is Some,
        new_s.pending_view().len() <= usize::MAX,
    ensures
        res matches Ok(acc) && new_s.tickets_view().contains_key(acc.response.ticket_id@) && ({
            let id = acc.response.ticket_id@;
            reported_state(new_s.tickets_view()[id].0, first_position(new_s.pending_view(), id))
                matches TicketState::Pending(p) && 1 <= p <= new_s.pending_view().len()
        }),
{
    let id = ticket_id_text(host, port, fresh, now_ms / 60000);
    let pv = new_s.pending_view();
    assert(pv.last() == id);
    lemma_first_position_found(pv, id, pv.len() - 1);
}

proof fn lemma_first_position_found(s: Seq<Seq<char>>, x: Seq<char>, j: int)
    requires
        0 <= j < s.len(),
        s[j] == x,
        s.len() <= usize::MAX,
    ensures
        first_position(s, x) matches Some(p) && 1 <= p <= j + 1,
    decreases j,
{
    if s[0] != x {
        lemma_first_position_found(s.drop_first(), x, j - 1);
    }
}

/// A successful ping that a worker finished answers a later request for the
/// same server from the cache (unless `fresh` is asked for, and while the
/// result is younger than `CACHE_TTL_SECONDS` and the request's own ticket is
/// not live): the ticket is ready at once with that result, and no work is
/// queued.
pub proof fn lemma_finished_ping_is_served_from_cache(
    before: PingService,
    after_work: PingService,
    work: WorkItem,
    info: ServerInfo,
    done_ms: u64,
    after_request: PingService,
    res: Result<PingAccepted, ApiError>,
    now_ms: u64,
)
    requires
        before.tickets_view().contains_key(work.ticket_id@),
        after_work.cache_view() == before.cache_view().insert(
            cache_key_text(work.host@, work.port),
            (info@, done_ms),
        ),
        request_accepted(after_work, after_request, res, work.host@, work.port, false, now_ms),
        elapsed_secs(done_ms, now_ms) < CACHE_TTL_SECONDS,
        !live_ticket(
            after_work.tickets_view(),
            ticket_id_text(work.host@, work.port, false, now_ms / 60000),
            now_ms,
        ),
    ensures
        res matches Ok(acc) && acc.work is None && after_request.tickets_view()[acc.response.ticket_id@]
            == (TicketState::Ready(info@), now_ms),
{
}

/// All copies of `x` are gone from `retained(s, == x)`, and nothing else is.
pub proof fn lemma_retained_without(s: Seq<Seq<char>>, x: Seq<char>)
    ensures
        !retained(s, |y: Seq<char>| y == x).contains(x),
        forall|y: Seq<char>| y != x && s.contains(y) ==> retained(s, |z: Seq<char>| z == x).contains(y),
    decreases s.len(),
{
    let drop = |y: Seq<char>| y == x;
    if s.len() > 0 {
        lemma_retained_without(s.drop_last(), x);
        let r = retained(s.drop_last(), drop);
        assert forall|y: Seq<char>| y != x && s.contains(y) implies retained(s, drop).contains(y) by {
            let i = choose|i: int| 0 <= i < s.len() && s[i] == y;
            if i < s.len() - 1 {
                assert(s.drop_last()[i] == y);
                assert(s.drop_last().contains(y));
                assert(r.contains(y));
                let k = choose|k: int| 0 <= k < r.len() && r[k] == y;
                if !drop(s.last()) {
                    assert(retained(s, drop) == r.push(s.last()));
                    assert(r.push(s.last())[k] == y);
                } else {
                    assert(retained(s, drop) == r);
                }
            } else {
                assert(retained(s, drop) == r.push(s.last()));
                assert(r.push(s.last())[r.len() as int] == y);
            }
        }
        if !drop(s.last()) {
            assert forall|k: int| 0 <= k < r.len() + 1 implies r.push(s.last())[k] != x by {
                if k < r.len() {
                    assert(r.push(s.last())[k] == r[k]);
                }
            }
        }
    }
}

/// Withdrawing a queued ticket takes it out of both the tickets and the
/// queue, and leaves the other pending tickets queued.
pub proof fn lemma_cancel_withdraws(old_s: PingService, new_s: PingService, id: Seq<char>)
    requires
        new_s.tickets_view() == old_s.tickets_view().remove(id),
        new_s.pending_view() == retained(old_s.pending_view(), |x: Seq<char>| x == id),
    ensures
        !new_s.tickets_view().contains_key(id),
        !new_s.pending_view().contains(id),
        forall|y: Seq<char>| y != id && old_s.pending_view().contains(y) ==> new_s.pending_view().contains(y),
{
    lemma_retained_without(old_s.pending_view(), id);
}

proof fn lemma_retained_absent(s: Seq<Seq<char>>, x: Seq<char>)
    requires
        !s.contains(x),
    ensures
        retained(s, |y: Seq<char>| y == x) == s,
    decreases s.len(),
{
    if s.len() > 0 {
        assert(!s.drop_last().contains(x)) by {
            if s.drop_last().contains(x) {
                let i = choose|i: int| 0 <= i < s.drop_last().len() && s.drop_last()[i] == x;
                assert(s[i] == x);
            }
        }
        lemma_retained_absent(s.drop_last(), x);
        assert(s.last() != x) by {
            assert(s[s.len() - 1] == s.last());
        }
        assert(s.drop_last().push(s.last()) =~= s);
    }
}

/// Withdrawing the ticket that a request has just queued, when the ticket
/// and its id were new, leaves the tickets and the queue as they were
/// before the request (only the count of tickets ever queued keeps it).
pub proof fn lemma_cancel_undoes_queueing(
    old_s: PingService,
    queued_s: PingService,
    res: Result<PingAccepted, ApiError>,
    host: Seq<char>,
    port: u16,
    fresh: bool,
    now_ms: u64,
    cancelled_s: PingService,
)
    requires
        request_accepted(old_s, queued_s, res, host, port, fresh, now_ms),
        res matches Ok(acc) && acc.work is Some,
        !old_s.tickets_view().contains_key(ticket_id_text(host, port, fresh, now_ms / 60000)),
        !old_s.pending_view().contains(ticket_id_text(host, port, fresh, now_ms / 60000)),
        cancelled_s.tickets_view() == queued_s.tickets_view().remove(
            ticket_id_text(host, port, fresh, now_ms / 60000),
        ),
        cancelled_s.pending_view() == retained(
            queued_s.pending_view(),
            |x: Seq<char>| x == ticket_id_text(host, port, fresh, now_ms / 60000),
        ),
    ensures
        cancelled_s.tickets_view() == old_s.tickets_view(),
        cancelled_s.pending_view() == old_s.pending_view(),
{
    let id = ticket_id_text(host, port, fresh, now_ms / 60000);
    let drop = |x: Seq<char>| x == id;
    assert(queued_s.pending_view().drop_last() =~= old_s.pending_view());
    assert(retained(queued_s.pending_view(), drop) == retained(old_s.pending_view(), drop));
    lemma_retained_absent(old_s.pending_view(), id);
    assert(cancelled_s.tickets_view() =~= old_s.tickets_view());
}

/// Starting and then finishing a piece of work brings the count of tickets
/// in process back to what it was.
pub proof fn lemma_work_cycle_restores_processing_count(
    before: PingService,
    started: PingService,
    finished: PingService,
)
    requires
        started.queue.processing_count == before.queue.processing_count.wrapping_add(1),
        finished.queue.processing_count == started.queue.processing_count.wrapping_sub(1),
    ensures
        finished.queue.processing_count == before.queue.processing_count,
{
}

} // verus!