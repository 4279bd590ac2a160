//! The records that the BPF program writes to its ring buffer.

use vstd::prelude::*;

verus! {

/// Size of the path buffer of a record.
pub const PATH_BUF_SZ: usize = 256;

/// Size of a whole record: eight words of four bytes, a time stamp of eight
/// bytes, the path buffer.
pub const EVENT_SZ: usize = 296;

/// One record.
#[derive(Clone, Copy, Debug)]
pub struct Event {
    pub etype: u32,
    pub pid: u32,
    pub ppid: u32,
    pub dirfd: i32,
    pub flags: u32,
    pub truncated: u32,
    pub result_fd: i32,
    pub _pad: u32,
    pub ts_ns: u64,
    pub path: [u8; PATH_BUF_SZ],
}

pub const EV_FORK_TRACKED: u32 = 1;

pub const EV_EXIT_TRACKED: u32 = 2;

pub const EV_OPENAT_CREATE: u32 = 3;

pub const EV_MKDIRAT: u32 = 4;

pub const EV_RENAMEAT2: u32 = 5;

pub const EV_SYMLINKAT: u32 = 6;

pub const EV_LINKAT: u32 = 7;

pub const EV_CHDIR: u32 = 8;

pub const EV_FCHDIR: u32 = 9;

pub const EV_OPENAT_DIR: u32 = 10;

pub const EV_MKNODAT: u32 = 11;

/// The directory descriptor that stands for the current directory.
pub const AT_FDCWD: i32 = -100;

/// The number that little-endian bytes stand for.
pub open spec fn le_value(b: Seq<u8>) -> nat
    decreases b.len(),
{
    if b.len() == 0 {
        0
    } else {
        b.first() as nat + 256 * le_value(b.drop_first())
    }
}

/// The unsigned word of four bytes at `at`.
pub open spec fn word_at(data: Seq<u8>, at: int) -> nat {
    le_value(data.subrange(at, at + 4))
}

/// The signed word of four bytes at `at`, in two's complement.
pub open spec fn signed_at(data: Seq<u8>, at: int) -> int {
    let w = word_at(data, at);
    if w < 0x8000_0000 {
        w as int
    } else {
        w - 0x1_0000_0000
    }
}

/// The record `ev` is laid out in `data` as the C struct is on x86_64.
pub open spec fn is_layout_of(ev: Event, data: Seq<u8>) -> bool {
    &&& ev.etype == word_at(data, 0)
    &&& ev.pid == word_at(data, 4)
    &&& ev.ppid == word_at(data, 8)
    &&& ev.dirfd == signed_at(data, 12)
    &&& ev.flags == word_at(data, 16)
    &&& ev.truncated == word_at(data, 20)
    &&& ev.result_fd == signed_at(data, 24)
    &&& ev._pad == word_at(data, 28)
    &&& ev.ts_ns == le_value(data.subrange(32, 40))
    &&& ev.path@ == data.subrange(40, 296)
}

fn read_word(data: &[u8], at: usize) -> (r: u32)
    requires
        at + 4 <= data@.len(),
    ensures
        r == word_at(data@, at as int),
{
    let a: u32 = data[at] as u32;
    let b: u32 = data[at + 1] as u32;
    let c: u32 = data[at + 2] as u32;
    let d: u32 = data[at + 3] as u32;
    proof {
        let s = data@.subrange(at as int, at + 4);
        reveal_with_fuel(le_value, 5);
        assert(s.drop_first().drop_first().drop_first().drop_first().len() == 0);
        assert(s[0] == a && s[1] == b && s[2] == c && s[3] == d);
        assert(s.drop_first().first() == s[1]);
        assert(s.drop_first().drop_first().first() == s[2]);
        assert(s.drop_first().drop_first().drop_first().first() == s[3]);
    }
    a + 256 * b + 65536 * c + 16777216 * d
}

fn read_signed(data: &[u8], at: usize) -> (r: i32)
    requires
        at + 4 <= data@.len(),
    ensures
        r == signed_at(data@, at as int),
{
    let w: u32 = read_word(data, at);
    if w < 0x8000_0000 {
        w as i32
    } else {
        (w as i64 - 0x1_0000_0000) as i32
    }
}

/// The value of bytes behind the first four counts that much more.
pub proof fn lemma_le_split(b: Seq<u8>, c: Seq<u8>)
    requires
        b.len() == 4,
    ensures
        le_value(b + c) == le_value(b) + 0x1_0000_0000 * le_value(c),
{
    reveal_with_fuel(le_value, 5);
    let s = b + c;
    assert(s.drop_first().drop_first().drop_first().drop_first() =~= c);
    assert(b.drop_first().drop_first().drop_first().drop_first().len() == 0);
}

fn read_long(data: &[u8], at: usize) -> (r: u64)
    requires
        at + 8 <= data@.len(),
    ensures
        r == le_value(data@.subrange(at as int, at + 8)),
{
    assert(at + 8 <= data.len());
    let low: u64 = read_word(data, at) as u64;
    let high: u64 = read_word(data, at + 4) as u64;
    proof {
        let b = data@.subrange(at as int, at + 4);
        let c = data@.subrange(at + 4, at + 8);
        assert(data@.subrange(at as int, at + 8) =~= b + c);
        lemma_le_split(b, c);
    }
    low + 0x1_0000_0000 * high
}

/// Reads a record. `None` when `data` is too short to hold one; bytes behind the
/// record are ignored.
pub fn decode_event(data: &[u8]) -> (r: Option<Event>)
    ensures
        r is Some == (data@.len() >= EVENT_SZ),
        r matches Some(ev) ==> is_layout_of(ev, data@),
{
    if data.len() < EVENT_SZ {
        return None;
    }
    let mut path: [u8; PATH_BUF_SZ] = [0u8; PATH_BUF_SZ];
    let mut i: usize = 0;
    while i < PATH_BUF_SZ
        invariant
            i <= PATH_BUF_SZ,
            data@.len() >= EVENT_SZ,
            forall|k: int| 0 <= k < i ==> path@[k] == data@[40 + k],
        decreases PATH_BUF_SZ - i,
    {
        path[i] = data[40 + i];
        i = i + 1;
    }
    assert(path@ =~= data@.subrange(40, 296));
    Some(
        Event {
            etype: read_word(data, 0),
            pid: read_word(data, 4),
            ppid: read_word(data, 8),
            dirfd: read_signed(data, 12),
            flags: read_word(data, 16),
            truncated: read_word(data, 20),
            result_fd: read_signed(data, 24),
            _pad: read_word(data, 28),
            ts_ns: read_long(data, 32),
            path,
        },
    )
}

/// The name under which a kind of record is reported.
pub open spec fn syscall_text(etype: u32) -> Seq<char> {
    if etype == EV_OPENAT_CREATE {
        "openat"@
    } else if etype == EV_MKDIRAT {
        "mkdir"@
    } else if etype == EV_RENAMEAT2 {
        "renameat"@
    } else if etype == EV_SYMLINKAT {
        "symlink"@
    } else if etype == EV_LINKAT {
        "link"@
    } else if etype == EV_MKNODAT {
        "mknod"@
    } else if etype == EV_FORK_TRACKED {
        "fork"@
    } else if etype == EV_EXIT_TRACKED {
        "exit"@
    } else {
        "unknown"@
    }
}

/// The name under which a kind of record is reported. The variants of a system
/// call share one name.
pub fn syscall_name(etype: u32) -> (r: &'static str)
    ensures
        r@ == syscall_text(etype),
{
    match etype {
        EV_OPENAT_CREATE => "openat",
        EV_MKDIRAT => "mkdir",
        EV_RENAMEAT2 => "renameat",
        EV_SYMLINKAT => "symlink",
        EV_LINKAT => "link",
        EV_MKNODAT => "mknod",
        EV_FORK_TRACKED => "fork",
        EV_EXIT_TRACKED => "exit",
        _ => "unknown",
    }
}

/// Whether a kind of record reports that something was created.
pub open spec fn is_creation(etype: u32) -> bool {
    ||| etype == EV_OPENAT_CREATE
    ||| etype == EV_MKDIRAT
    ||| etype == EV_RENAMEAT2
    ||| etype == EV_SYMLINKAT
    ||| etype == EV_LINKAT
    ||| etype == EV_MKNODAT
}

/// Whether a kind of record reports that something was created.
pub fn creates(etype: u32) -> (r: bool)
    ensures
        r == is_creation(etype),
{
    etype == EV_OPENAT_CREATE || etype == EV_MKDIRAT || etype == EV_RENAMEAT2 || etype
        == EV_SYMLINKAT || etype == EV_LINKAT || etype == EV_MKNODAT
}

} // verus!
