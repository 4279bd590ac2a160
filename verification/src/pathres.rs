//! Captured events and the resolution of their paths.

use crate::hostpath;
use crate::hostpath::HostPath;
use crate::text;
use vstd::prelude::*;
use vstd::string::*;
use vstd::utf8::*;

verus! {

/// A creation event, with what was known at its arrival for resolving its path.
#[derive(Debug)]
pub struct CapturedEvent {
    pub ts_ns: u64,
    pub pid: u32,
    pub syscall: u32,
    pub dirfd: i32,
    pub flags: u32,
    pub truncated: bool,
    pub raw_path: String,
    /// The directory that a relative path starts from.
    pub resolved_base: Option<HostPath>,
    /// Why there is no such directory.
    pub resolve_note: Option<String>,
}

/// What a captured event holds.
pub struct CapturedView {
    pub ts_ns: u64,
    pub pid: u32,
    pub syscall: u32,
    pub dirfd: i32,
    pub flags: u32,
    pub truncated: bool,
    pub raw_path: Seq<char>,
    pub resolved_base: Option<Seq<u8>>,
    pub resolve_note: Option<Seq<char>>,
}

impl View for CapturedEvent {
    type V = CapturedView;

    open spec fn view(&self) -> CapturedView {
        CapturedView {
            ts_ns: self.ts_ns,
            pid: self.pid,
            syscall: self.syscall,
            dirfd: self.dirfd,
            flags: self.flags,
            truncated: self.truncated,
            raw_path: self.raw_path@,
            resolved_base: hostpath::opt_path(self.resolved_base),
            resolve_note: match self.resolve_note {
                Some(s) => Some(s@),
                None => None,
            },
        }
    }
}

/// What each event of a list holds.
pub open spec fn captured(list: Seq<CapturedEvent>) -> Seq<CapturedView> {
    list.map_values(|e: CapturedEvent| e@)
}

/// The bytes in front of the first zero byte, or all of them.
pub open spec fn until_nul(b: Seq<u8>) -> Seq<u8>
    decreases b.len(),
{
    if b.len() == 0 || b.first() == 0 {
        Seq::empty()
    } else {
        seq![b.first()] + until_nul(b.drop_first())
    }
}

proof fn lemma_until_nul(b: Seq<u8>, n: int)
    requires
        0 <= n <= b.len(),
        forall|k: int| 0 <= k < n ==> b[k] != 0,
        n < b.len() ==> b[n] == 0,
    ensures
        until_nul(b) == b.take(n),
    decreases n,
{
    if n > 0 {
        let rest = b.drop_first();
        assert forall|k: int| 0 <= k < n - 1 implies rest[k] != 0 by {
            assert(rest[k] == b[k + 1]);
        }
        lemma_until_nul(rest, n - 1);
        assert(seq![b.first()] + rest.take(n - 1) =~= b.take(n));
    } else {
        assert(b.take(0) =~= Seq::<u8>::empty());
    }
}

/// The bytes of a C string.
pub fn cstr_bytes(buf: &[u8]) -> (r: Vec<u8>)
    ensures
        r@ == until_nul(buf@),
{
    let mut r: Vec<u8> = Vec::new();
    let mut i: usize = 0;
    while i < buf.len() && buf[i] != 0
        invariant
            i <= buf.len(),
            r@ == buf@.take(i as int),
            forall|k: int| 0 <= k < i ==> buf@[k] != 0,
        decreases buf.len() - i,
    {
        r.push(buf[i]);
        i = i + 1;
        assert(r@ =~= buf@.take(i as int));
    }
    proof {
        lemma_until_nul(buf@, i as int);
    }
    r
}

/// The text of a C string; what is not UTF-8 is replaced.
pub fn cstr_to_string(buf: &[u8]) -> (r: String)
    ensures
        r@ == text::shown(until_nul(buf@)),
{
    let bytes = cstr_bytes(buf);
    text::show_bytes(bytes.as_slice())
}

/// The path of an event as it was written, seen from its base; nothing when it
/// is relative and has no base.
pub open spec fn located(ev: CapturedView) -> Option<Seq<u8>> {
    let raw = encode_utf8(ev.raw_path);
    if hostpath::is_absolute(raw) {
        Some(raw)
    } else {
        match ev.resolved_base {
            Some(base) => Some(hostpath::joined(base, raw)),
            None => None,
        }
    }
}

/// The path of an event in its shortest form.
pub open spec fn resolved(ev: CapturedView) -> Option<Seq<u8>> {
    match located(ev) {
        Some(p) => Some(hostpath::cleaned(p)),
        None => None,
    }
}

/// The path of an event as it was written, seen from its base.
pub fn locate(ev: &CapturedEvent) -> (r: Option<HostPath>)
    ensures
        hostpath::opt_path(r) == located(ev@),
{
    let raw = HostPath::from_text(ev.raw_path.as_str());
    if raw.absolute() {
        return Some(raw);
    }
    match &ev.resolved_base {
        Some(base) => Some(base.join(&raw)),
        None => None,
    }
}

/// The path of an event in its shortest form. There is none when the path is
/// relative and no base is known for it.
pub fn resolve(ev: &CapturedEvent) -> (r: Option<HostPath>)
    ensures
        hostpath::opt_path(r) == resolved(ev@),
        r is None == (!hostpath::is_absolute(encode_utf8(ev@.raw_path)) && ev@.resolved_base is None),
        r matches Some(p) ==> {
            &&& hostpath::is_clean(p@)
            &&& hostpath::is_absolute(p@) == hostpath::is_absolute(located(ev@)->0)
        },
{
    match locate(ev) {
        Some(p) => Some(p.clean()),
        None => None,
    }
}

/// What `statx` reported of a file.
#[derive(Clone, Copy, Debug)]
pub struct StatxReply {
    /// What the call returned.
    pub status: i32,
    /// Which fields it filled.
    pub mask: u32,
    pub btime_sec: i64,
    pub btime_nsec: u32,
}

/// The bit of a `statx` mask that stands for the birth time.
pub const STATX_BTIME: u32 = 0x800;

/// The birth time that `statx` reported, in nanoseconds since the epoch, modulo
/// 2^64.
pub open spec fn reported_btime(reply: StatxReply) -> Option<u64> {
    if reply.status != 0 || reply.mask & STATX_BTIME == 0 {
        None
    } else {
        Some(((reply.btime_sec * 1_000_000_000 + reply.btime_nsec) % 0x1_0000_0000_0000_0000) as u64)
    }
}

/// The birth time that `statx` reported, in nanoseconds since the epoch. There
/// is none when the call failed or the file system keeps no birth time.
pub fn file_btime_unix_ns(reply: &StatxReply) -> (r: Option<u64>)
    ensures
        r == reported_btime(*reply),
{
    if reply.status != 0 {
        return None;
    }
    if (reply.mask & STATX_BTIME) == 0 {
        return None;
    }
    let total: i128 = reply.btime_sec as i128 * 1_000_000_000 + reply.btime_nsec as i128;
    Some(low_word(total))
}

/// `n` modulo 2^64.
fn low_word(n: i128) -> (r: u64)
    requires
        -0x8000_0000_0000_0000_0000_0000 <= n <= 0x8000_0000_0000_0000_0000_0000,
    ensures
        r == n as int % 0x1_0000_0000_0000_0000,
{
    let m: i128 = 0x1_0000_0000_0000_0000;
    let shifted: u128 = (n + 0x1_0000_0000 * m) as u128;
    let r: u128 = shifted % 0x1_0000_0000_0000_0000u128;
    proof {
        vstd::arithmetic::div_mod::lemma_mod_multiples_vanish(
            0x1_0000_0000,
            n as int,
            0x1_0000_0000_0000_0000,
        );
    }
    r as u64
}

/// The nanoseconds of a clock reading, modulo 2^64; zero for a clock that is
/// before the epoch.
pub open spec fn clock_ns(since_epoch: Option<(u64, u32)>) -> u64 {
    match since_epoch {
        Some((secs, nanos)) => ((secs * 1_000_000_000 + nanos) % 0x1_0000_0000_0000_0000) as u64,
        None => 0,
    }
}

/// The wall clock in nanoseconds since the epoch, from the seconds and
/// nanoseconds that have passed since then.
pub fn unix_ns_now(since_epoch: Option<(u64, u32)>) -> (r: u64)
    ensures
        r == clock_ns(since_epoch),
{
    match since_epoch {
        Some((secs, nanos)) => low_word(secs as i128 * 1_000_000_000 + nanos as i128),
        None => 0,
    }
}

} // verus!
