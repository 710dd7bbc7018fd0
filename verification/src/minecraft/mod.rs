//! Pinging a server: where to connect (an IP literal, an SRV record, an
//! address record, the system resolver) and which protocol answered (modern
//! status, then legacy as a fallback, with a quick query probe).
pub mod common;
pub mod legacy_slp;
pub mod modern_slp;
pub mod query;

use vstd::prelude::*;
use vstd::string::*;
use crate::minecraft::common::ServerInfo;
use crate::sys::chars_of;
use crate::text::{push_str, to_string, trim_end, trim_end_chars};

verus! {

/// How long the modern status ping may take: five seconds, as every ping
/// attempt.
pub const MODERN_TIMEOUT_MS: u64 = 5000;

/// How long the legacy fallback ping may take: five seconds, as every ping
/// attempt.
pub const LEGACY_TIMEOUT_MS: u64 = 5000;

pub const QUERY_TIMEOUT_MS: u64 = 200;

pub const SRV_TIMEOUT_MS: u64 = 500;

pub const SRV_TARGET_TIMEOUT_MS: u64 = 500;

pub const DNS_TIMEOUT_MS: u64 = 1000;

pub const SYSTEM_RESOLVER_TIMEOUT_MS: u64 = 500;

/// Where a ping connects: the address, the port, how they were found, and
/// the host name to announce in the handshake.
#[derive(Debug, Clone)]
pub struct Resolution {
    pub host: String,
    pub port: u16,
    pub resolved_from: String,
    pub hostname: String,
}

/// The next step in resolving a server's address.
#[derive(Debug)]
pub enum ResolveStep {
    /// The resolution is over.
    Done(Result<Resolution, String>),
    /// Look up this SRV record.
    LookupSrv(String),
    /// Look up the address of the SRV target, to connect on the SRV port.
    LookupTarget { target: String, port: u16 },
    /// Look up the host's own address records.
    LookupHost,
    /// Ask the system resolver.
    AskSystem,
}

/// What the lookup of the host's address records gave.
pub enum HostLookup {
    Found(String),
    NoAddress,
    Failed,
}

/// `r` is the resolution `(host, port, from, hostname)`.
pub open spec fn resolution_is(r: Resolution, host: Seq<char>, port: u16, from: Seq<char>, hostname: Seq<char>) -> bool {
    r.host@ == host && r.port == port && r.resolved_from@ == from && r.hostname@ == hostname
}

fn resolution(host: &str, port: u16, from: &str, hostname: &str) -> (r: Resolution)
    ensures
        resolution_is(r, host@, port, from@, hostname@),
{
    Resolution {
        host: host.to_owned(),
        port,
        resolved_from: from.to_owned(),
        hostname: hostname.to_owned(),
    }
}

fn failure(prefix: &str, host: &str, suffix: &str) -> (res: Result<Resolution, String>)
    ensures
        res matches Err(e) && e@ == prefix@ + host@ + suffix@,
{
    let mut msg: Vec<char> = Vec::new();
    push_str(&mut msg, prefix);
    push_str(&mut msg, host);
    push_str(&mut msg, suffix);
    Err(to_string(msg.as_slice()))
}

/// The first step: an IP literal (as `std::net::IpAddr` parses it, which the
/// caller tells) is used as it is; anything else is looked up as the SRV
/// record `_minecraft._tcp.<host>`.
pub fn start_resolution(host: &str, port: u16, is_ip_literal: bool) -> (step: ResolveStep)
    ensures
        if is_ip_literal {
            step matches ResolveStep::Done(Ok(r)) && resolution_is(r, host@, port, "direct"@, host@)
        } else {
            step matches ResolveStep::LookupSrv(d) && d@ == "_minecraft._tcp."@ + host@
        },
{
    if is_ip_literal {
        return ResolveStep::Done(Ok(resolution(host, port, "direct", host)));
    }
    let mut name: Vec<char> = Vec::new();
    push_str(&mut name, "_minecraft._tcp.");
    push_str(&mut name, host);
    ResolveStep::LookupSrv(to_string(name.as_slice()))
}

/// After the SRV lookup (`None` when it failed, timed out or found no
/// record): the first record's target, without its trailing dots, is looked
/// up next; without a record the host's own address is.
pub fn after_srv(srv: Option<(String, u16)>) -> (step: ResolveStep)
    ensures
        match srv {
            Some((target, port)) => step matches ResolveStep::LookupTarget { target: t, port: p }
                && t@ == trim_end(target@, '.') && p == port,
            None => step is LookupHost,
        },
{
    match srv {
        Some((target, port)) => {
            let chars = chars_of(target.as_str());
            let trimmed = trim_end_chars(chars.as_slice(), '.');
            ResolveStep::LookupTarget { target: to_string(trimmed.as_slice()), port }
        },
        None => ResolveStep::LookupHost,
    }
}

/// After looking up the SRV target (`None` when it failed, timed out or found
/// no address): its first address, on the SRV port, is the answer; otherwise
/// the host's own address is looked up.
pub fn after_target(target: &str, srv_port: u16, ip: Option<String>) -> (step: ResolveStep)
    ensures
        match ip {
            Some(a) => step matches ResolveStep::Done(Ok(r)) && resolution_is(
                r,
                a@,
                srv_port,
                "srv"@,
                target@,
            ),
            None => step is LookupHost,
        },
{
    match ip {
        Some(a) => ResolveStep::Done(Ok(resolution(a.as_str(), srv_port, "srv", target))),
        None => ResolveStep::LookupHost,
    }
}

/// After looking up the host's address records: the first address is the
/// answer, no address is an error, and a failed or timed-out lookup hands
/// over to the system resolver.
pub fn after_host_lookup(host: &str, port: u16, lookup: HostLookup) -> (step: ResolveStep)
    ensures
        match lookup {
            HostLookup::Found(a) => step matches ResolveStep::Done(Ok(r)) && resolution_is(
                r,
                a@,
                port,
                "dns"@,
                host@,
            ),
            HostLookup::NoAddress => step matches ResolveStep::Done(Err(e)) && e@
                == "No IP addresses found for "@ + host@,
            HostLookup::Failed => step is AskSystem,
        },
{
    match lookup {
        HostLookup::Found(a) => ResolveStep::Done(Ok(resolution(a.as_str(), port, "dns", host))),
        HostLookup::NoAddress => {
            let r = failure("No IP addresses found for ", host, "");
            proof {
                assert(("No IP addresses found for "@ + host@) + ""@ =~= "No IP addresses found for "@ + host@) by {
                    reveal_strlit("");
                }
            }
            ResolveStep::Done(r)
        },
        HostLookup::Failed => ResolveStep::AskSystem,
    }
}

/// After asking the system resolver (`None` when it failed or timed out,
/// `Some(None)` when it found no address): the last step of resolving.
pub fn after_system(host: &str, port: u16, answer: Option<Option<String>>) -> (res: Result<
    Resolution,
    String,
>)
    ensures
        match answer {
            Some(Some(a)) => res matches Ok(r) && resolution_is(r, a@, port, "system"@, host@),
            Some(None) => res matches Err(e) && e@ == "Could not resolve "@ + host@,
            None => res matches Err(e) && e@ == "Failed to resolve "@ + host@
                + ": timeout or error"@,
        },
{
    match answer {
        Some(Some(a)) => Ok(resolution(a.as_str(), port, "system", host)),
        Some(None) => {
            let r = failure("Could not resolve ", host, "");
            proof {
                assert(("Could not resolve "@ + host@) + ""@ =~= "Could not resolve "@ + host@) by {
                    reveal_strlit("");
                }
            }
            r
        },
        None => failure("Failed to resolve ", host, ": timeout or error"),
    }
}

/// How the modern status ping went when it did not succeed.
pub enum ModernFailure {
    Failed(String),
    TimedOut,
}

/// How the legacy ping went.
pub enum LegacyOutcome {
    Succeeded(ServerInfo),
    Failed(String),
    TimedOut,
}

/// The report of a modern ping, with the resolution's origin and whether
/// the query probe answered.
pub open spec fn after_modern_holds(r: ServerInfo, info: ServerInfo, resolved_from: Seq<char>, query_succeeded: bool) -> bool {
    &&& r.resolved_from@ == resolved_from
    &&& r.query_enabled == (query_succeeded || info.query_enabled)
    &&& r.online == info.online && r.host == info.host && r.port == info.port
    &&& r.version == info.version && r.players == info.players && r.description == info.description
    &&& r.favicon == info.favicon && r.latency_ms == info.latency_ms && r.protocol_used == info.protocol_used
}

/// A modern ping succeeded: the report takes the resolution's origin, and the
/// query is marked enabled when the quick query probe answered.
pub fn after_modern_success(info: ServerInfo, resolved_from: String, query_succeeded: bool) -> (r: ServerInfo)
    ensures
        after_modern_holds(r, info, resolved_from@, query_succeeded),
{
    let mut r = info;
    r.resolved_from = resolved_from;
    if query_succeeded {
        r.query_enabled = true;
    }
    r
}

/// The result of a ping whose modern attempt failed, after the legacy one.
pub open spec fn fallback_result_holds(
    res: Result<ServerInfo, String>,
    modern: ModernFailure,
    legacy: LegacyOutcome,
    resolved_from: Seq<char>,
) -> bool {
    match legacy {
        LegacyOutcome::Succeeded(info) => res matches Ok(r) && r.resolved_from@ == resolved_from
            && r.online == info.online && r.host == info.host && r.port == info.port && r.version
            == info.version && r.players == info.players && r.description == info.description
            && r.favicon == info.favicon && r.latency_ms == info.latency_ms && r.query_enabled
            == info.query_enabled && r.protocol_used == info.protocol_used,
        LegacyOutcome::Failed(l) => res matches Err(e) && match modern {
            ModernFailure::Failed(m) => e@ == "All protocols failed. Modern: "@ + m@ + ". Legacy: "@
                + l@,
            ModernFailure::TimedOut => e@ == "Timeout then legacy failed: "@ + l@,
        },
        LegacyOutcome::TimedOut => res matches Err(e) && match modern {
            ModernFailure::Failed(_) => e@ == "Legacy protocol timeout"@,
            ModernFailure::TimedOut => e@ == "All protocols timed out"@,
        },
    }
}

/// Decides a ping whose modern attempt failed from how the legacy attempt went.
pub fn after_legacy(modern: ModernFailure, legacy: LegacyOutcome, resolved_from: String) -> (res:
    Result<ServerInfo, String>)
    ensures
        fallback_result_holds(res, modern, legacy, resolved_from@),
{
    match legacy {
        LegacyOutcome::Succeeded(info) => {
            let mut r = info;
            r.resolved_from = resolved_from;
            Ok(r)
        },
        LegacyOutcome::Failed(l) => match modern {
            ModernFailure::Failed(m) => {
                let mut msg: Vec<char> = Vec::new();
                push_str(&mut msg, "All protocols failed. Modern: ");
                push_str(&mut msg, m.as_str());
                push_str(&mut msg, ". Legacy: ");
                push_str(&mut msg, l.as_str());
                Err(to_string(msg.as_slice()))
            },
            ModernFailure::TimedOut => {
                let mut msg: Vec<char> = Vec::new();
                push_str(&mut msg, "Timeout then legacy failed: ");
                push_str(&mut msg, l.as_str());
                Err(to_string(msg.as_slice()))
            },
        },
        LegacyOutcome::TimedOut => match modern {
            ModernFailure::Failed(_) => Err(String::from_str("Legacy protocol timeout")),
            ModernFailure::TimedOut => Err(String::from_str("All protocols timed out")),
        },
    }
}

} // verus!
