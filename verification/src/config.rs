//! Runtime configuration: the engine's address and mode, the HTTP listener
//! and the connection limits.
use crate::text::same_text;
use core::time::Duration;
use vstd::prelude::*;
use vstd::string::StringExecFns;

verus! {

/// How the engine is reached.
#[derive(Clone, Copy, Debug, PartialEq, Eq, Structural)]
pub enum Mode {
    /// One engine server.
    Standalone,
    /// A router in front of a cluster; frames carry the segment.
    Router,
}

/// `str::to_lowercase` of the given characters (Unicode lowercase mapping).
pub uninterp spec fn lowercase(s: Seq<char>) -> Seq<char>;

/// Calls `str::to_lowercase`; the result is the name [`lowercase`] of the
/// argument. Nothing more is claimed of the Unicode mapping.
#[verifier::external_body]
fn str_to_lowercase(s: &str) -> (r: String)
    ensures
        r@ == lowercase(s@),
{
    s.to_lowercase()
}

/// The message for an unknown mode.
pub open spec fn invalid_mode_message(s: Seq<char>) -> Seq<char> {
    "Invalid mode: "@ + s + ". Must be 'standalone' or 'router'"@
}

/// The mode named by `lowered`, the lowercase form of `text`.
pub open spec fn mode_named(text: Seq<char>, lowered: Seq<char>) -> Result<Mode, Seq<char>> {
    if lowered == "standalone"@ {
        Ok(Mode::Standalone)
    } else if lowered == "router"@ {
        Ok(Mode::Router)
    } else {
        Err(invalid_mode_message(text))
    }
}

/// Picks the mode from `lowered`, the lowercase form of `text`; an unknown
/// name is refused with a message that quotes `text`.
pub fn mode_from_lowercase(text: &str, lowered: &str) -> (r: Result<Mode, String>)
    ensures
        match mode_named(text@, lowered@) {
            Ok(m) => r == Ok::<Mode, String>(m),
            Err(msg) => r matches Err(e) && e@ == msg,
        },
{
    if same_text(lowered, "standalone") {
        Ok(Mode::Standalone)
    } else if same_text(lowered, "router") {
        Ok(Mode::Router)
    } else {
        let mut msg = String::from_str("Invalid mode: ");
        msg.append(text);
        msg.append(". Must be 'standalone' or 'router'");
        Err(msg)
    }
}

impl Mode {
    /// Parses a mode name, ignoring case.
    pub fn from_str(s: &str) -> (r: Result<Mode, String>)
        ensures
            match mode_named(s@, lowercase(s@)) {
                Ok(m) => r == Ok::<Mode, String>(m),
                Err(msg) => r matches Err(e) && e@ == msg,
            },
    {
        let lowered = str_to_lowercase(s);
        mode_from_lowercase(s, lowered.as_str())
    }

    /// The mode's name.
    pub fn to_string(&self) -> (r: String)
        ensures
            r@ == (match self {
                Mode::Standalone => "standalone"@,
                Mode::Router => "router"@,
            }),
    {
        match self {
            Mode::Standalone => "standalone".to_owned(),
            Mode::Router => "router".to_owned(),
        }
    }
}

/// The gateway's settings.
#[derive(Debug)]
pub struct Config {
    /// How the engine is reached.
    pub mode: Mode,
    /// Address the HTTP server listens on.
    pub listening_addr: String,
    /// HTTP port.
    pub http_port: u16,
    /// Engine (or router) address.
    pub roomzin_addr: String,
    /// Engine (or router) port.
    pub roomzin_port: u16,
    /// Request timeout, in seconds.
    pub timeout_sec: u64,
    /// Keep-alive interval, in seconds.
    pub keep_alive_sec: u64,
    /// Connections kept open to the engine.
    pub conn_per_node: usize,
    /// Maximum number of active client connections.
    pub max_active_conns: usize,
    /// Runtime worker threads; 0 means three per physical core.
    pub worker_threads: usize,
}

/// `s` with every leading copy of `p` removed (`str::trim_start_matches`
/// with a non-empty string pattern).
pub open spec fn trim_prefix_all(s: Seq<char>, p: Seq<char>) -> Seq<char>
    decreases s.len(),
{
    if p.len() > 0 && p.len() <= s.len() && s.subrange(0, p.len() as int) == p {
        trim_prefix_all(s.subrange(p.len() as int, s.len() as int), p)
    } else {
        s
    }
}

/// `s` with every trailing `c` removed (`str::trim_end_matches` with a
/// character pattern).
pub open spec fn trim_suffix_char_all(s: Seq<char>, c: char) -> Seq<char>
    decreases s.len(),
{
    if s.len() > 0 && s.last() == c {
        trim_suffix_char_all(s.drop_last(), c)
    } else {
        s
    }
}

/// The engine address without its `http://` or `https://` prefixes and
/// without trailing slashes.
pub open spec fn normalized_addr(s: Seq<char>) -> Seq<char> {
    trim_suffix_char_all(trim_prefix_all(trim_prefix_all(s, "http://"@), "https://"@), '/')
}

/// The characters `s[from..to]` equal `p`.
fn matches_at(s: &str, from: usize, p: &str) -> (r: bool)
    requires
        from <= s@.len(),
    ensures
        r == (from + p@.len() <= s@.len() && s@.subrange(from as int, from + p@.len()) == p@),
{
    let n = s.unicode_len();
    let m = p.unicode_len();
    if m > n - from {
        return false;
    }
    let mut i: usize = 0;
    while i < m
        invariant
            i <= m,
            m == p@.len(),
            n == s@.len(),
            from + m <= n,
            forall|k: int| 0 <= k < i ==> s@[from + k] == p@[k],
        decreases m - i,
    {
        if s.get_char(from + i) != p.get_char(i) {
            assert(s@.subrange(from as int, from + m)[i as int] != p@[i as int]);
            return false;
        }
        i = i + 1;
    }
    assert(s@.subrange(from as int, from + m) =~= p@);
    true
}

/// `s` with every leading copy of the non-empty `p` removed.
fn trim_start_all<'a>(s: &'a str, p: &str) -> (r: &'a str)
    requires
        p@.len() > 0,
    ensures
        r@ == trim_prefix_all(s@, p@),
{
    let n = s.unicode_len();
    let m = p.unicode_len();
    let mut from: usize = 0;
    assert(s@.subrange(0, n as int) =~= s@);
    while matches_at(s, from, p)
        invariant
            from <= n,
            n == s@.len(),
            m == p@.len(),
            m > 0,
            trim_prefix_all(s@.subrange(from as int, n as int), p@) == trim_prefix_all(s@, p@),
        decreases n - from,
    {
        let ghost rest = s@.subrange(from as int, n as int);
        assert(rest.subrange(0, m as int) =~= s@.subrange(from as int, from + m));
        assert(rest.subrange(m as int, rest.len() as int) =~= s@.subrange(from + m, n as int));
        from = from + m;
    }
    let ghost rest = s@.subrange(from as int, n as int);
    assert(m <= rest.len() ==> rest.subrange(0, m as int) =~= s@.subrange(from as int, from + m));
    s.substring_char(from, n)
}

/// `s` with every trailing `c` removed.
fn trim_end_all<'a>(s: &'a str, c: char) -> (r: &'a str)
    ensures
        r@ == trim_suffix_char_all(s@, c),
{
    let n = s.unicode_len();
    let mut end: usize = n;
    assert(s@.subrange(0, n as int) =~= s@);
    while end > 0 && s.get_char(end - 1) == c
        invariant
            end <= n,
            n == s@.len(),
            trim_suffix_char_all(s@.subrange(0, end as int), c) == trim_suffix_char_all(s@, c),
        decreases end,
    {
        assert(s@.subrange(0, end as int).drop_last() =~= s@.subrange(0, end - 1));
        end = end - 1;
    }
    s.substring_char(0, end)
}

/// The engine address without `http://` or `https://` prefixes and without
/// trailing slashes.
pub fn normalize_addr(addr: &str) -> (r: String)
    ensures
        r@ == normalized_addr(addr@),
{
    proof {
        reveal_strlit("http://");
        reveal_strlit("https://");
    }
    let a = trim_start_all(addr, "http://");
    let b = trim_start_all(a, "https://");
    let c = trim_end_all(b, '/');
    c.to_owned()
}

/// Calls `num_cpus::get_physical`: the number of physical cores of this
/// machine, which its documentation promises is at least 1. Which count it
/// is depends on the machine and is not stated.
#[verifier::external_body]
fn physical_cores() -> (r: usize)
    ensures
        r >= 1,
{
    num_cpus::get_physical()
}

/// `Duration::from_secs` of the argument.
pub uninterp spec fn seconds_duration(secs: u64) -> Duration;

/// Calls `Duration::from_secs`; the result is the name
/// [`seconds_duration`] of the argument.
#[verifier::external_body]
fn duration_from_secs(secs: u64) -> (r: Duration)
    ensures
        r == seconds_duration(secs),
{
    Duration::from_secs(secs)
}

/// The worker thread count: the configured one, or three per physical core
/// when it is 0 (saturating at `usize::MAX`).
pub open spec fn workers_for(worker_threads: usize, physical: usize) -> usize {
    if worker_threads == 0 {
        if physical * 3 <= usize::MAX {
            (physical * 3) as usize
        } else {
            usize::MAX
        }
    } else {
        worker_threads
    }
}

/// The worker thread count for `physical` physical cores.
pub fn effective_workers_for(worker_threads: usize, physical: usize) -> (r: usize)
    ensures
        r == workers_for(worker_threads, physical),
{
    if worker_threads == 0 {
        match physical.checked_mul(3) {
            Some(n) => n,
            None => usize::MAX,
        }
    } else {
        worker_threads
    }
}

impl Config {
    /// The same settings with the engine address normalized.
    pub fn normalized(self) -> (r: Config)
        ensures
            r.roomzin_addr@ == normalized_addr(self.roomzin_addr@),
            r.mode == self.mode,
            r.listening_addr == self.listening_addr,
            r.http_port == self.http_port,
            r.roomzin_port == self.roomzin_port,
            r.timeout_sec == self.timeout_sec,
            r.keep_alive_sec == self.keep_alive_sec,
            r.conn_per_node == self.conn_per_node,
            r.max_active_conns == self.max_active_conns,
            r.worker_threads == self.worker_threads,
    {
        let addr = normalize_addr(self.roomzin_addr.as_str());
        Config { roomzin_addr: addr, ..self }
    }

    /// The worker thread count: the configured one, or three per physical
    /// core of this machine (at least one core) when it is 0.
    pub fn effective_workers(&self) -> (r: usize)
        ensures
            self.worker_threads != 0 ==> r == self.worker_threads,
            self.worker_threads == 0 ==> exists|p: usize| p >= 1 && r == workers_for(0, p),
    {
        if self.worker_threads == 0 {
            let physical = physical_cores();
            effective_workers_for(0, physical)
        } else {
            self.worker_threads
        }
    }

    /// The keep-alive interval.
    pub fn keep_alive_interval(&self) -> (r: Duration)
        ensures
            r == seconds_duration(self.keep_alive_sec),
    {
        duration_from_secs(self.keep_alive_sec)
    }
}

} // verus!

verus! {

/// Trimming trailing `c` leaves no trailing `c`.
proof fn lemma_no_trailing(s: Seq<char>, c: char)
    ensures
        trim_suffix_char_all(s, c).len() == 0 || trim_suffix_char_all(s, c).last() != c,
    decreases s.len(),
{
    if s.len() > 0 && s.last() == c {
        lemma_no_trailing(s.drop_last(), c);
    }
}

/// A normalized engine address does not end with a slash.
pub proof fn law_normalized_addr_has_no_trailing_slash(addr: Seq<char>)
    ensures
        normalized_addr(addr).len() == 0 || normalized_addr(addr).last() != '/',
{
    lemma_no_trailing(trim_prefix_all(trim_prefix_all(addr, "http://"@), "https://"@), '/');
}

} // verus!
