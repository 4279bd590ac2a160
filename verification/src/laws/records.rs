//! The records of the ring buffer.

use crate::bpf_events;
use crate::bpf_events::{creates, decode_event, syscall_name, Event};
use vstd::prelude::*;
use vstd::string::*;

verus! {

/// The four bytes of a word, the lowest first.
pub open spec fn word_bytes(n: nat) -> Seq<u8> {
    seq![
        (n % 256) as u8,
        (n / 256 % 256) as u8,
        (n / 65536 % 256) as u8,
        (n / 16777216 % 256) as u8,
    ]
}

/// The unsigned word with the same bits as a signed one.
pub open spec fn same_bits(n: i32) -> nat {
    if n < 0 {
        (n + 0x1_0000_0000) as nat
    } else {
        n as nat
    }
}

/// The bytes of a record, in the order in which the kernel writes its fields.
pub open spec fn record_bytes(ev: Event) -> Seq<u8> {
    word_bytes(ev.etype as nat) + word_bytes(ev.pid as nat) + word_bytes(ev.ppid as nat)
        + word_bytes(same_bits(ev.dirfd)) + word_bytes(ev.flags as nat) + word_bytes(
        ev.truncated as nat,
    ) + word_bytes(same_bits(ev.result_fd)) + word_bytes(ev._pad as nat) + word_bytes(
        ev.ts_ns as nat % 0x1_0000_0000,
    ) + word_bytes(ev.ts_ns as nat / 0x1_0000_0000) + ev.path@
}

proof fn lemma_word(n: nat)
    requires
        n < 0x1_0000_0000,
    ensures
        bpf_events::le_value(word_bytes(n)) == n,
        word_bytes(n).len() == 4,
{
    let s = word_bytes(n);
    reveal_with_fuel(bpf_events::le_value, 5);
    assert(s.drop_first().first() == s[1]);
    assert(s.drop_first().drop_first().first() == s[2]);
    assert(s.drop_first().drop_first().drop_first().first() == s[3]);
    assert(s.drop_first().drop_first().drop_first().drop_first().len() == 0);
    assert(n == n % 256 + 256 * (n / 256 % 256) + 65536 * (n / 65536 % 256) + 16777216 * (n
        / 16777216 % 256));
}

proof fn lemma_long(n: nat)
    requires
        n < 0x1_0000_0000_0000_0000,
    ensures
        bpf_events::le_value(
            word_bytes(n % 0x1_0000_0000) + word_bytes(n / 0x1_0000_0000),
        ) == n,
{
    let low = word_bytes(n % 0x1_0000_0000);
    let high = word_bytes(n / 0x1_0000_0000);
    lemma_word(n % 0x1_0000_0000);
    lemma_word(n / 0x1_0000_0000);
    bpf_events::lemma_le_split(low, high);
}

/// A record that is written to the buffer is read back field by field, whatever follows
/// it; what is shorter than a record is none.
pub proof fn law_record_reads_back(data: &[u8], ev: Event, rest: Seq<u8>, r: Option<Event>)
    requires
        call_ensures(decode_event, (data,), r),
    ensures
        r is None <==> data@.len() < 296,
        data@ == record_bytes(ev) + rest ==> {
            &&& r is Some
            &&& r->0.etype == ev.etype
            &&& r->0.pid == ev.pid
            &&& r->0.ppid == ev.ppid
            &&& r->0.dirfd == ev.dirfd
            &&& r->0.flags == ev.flags
            &&& r->0.truncated == ev.truncated
            &&& r->0.result_fd == ev.result_fd
            &&& r->0._pad == ev._pad
            &&& r->0.ts_ns == ev.ts_ns
            &&& r->0.path@ == ev.path@
        },
{
    if data@ == record_bytes(ev) + rest {
        let d = data@;
        lemma_word(ev.etype as nat);
        lemma_word(ev.pid as nat);
        lemma_word(ev.ppid as nat);
        lemma_word(same_bits(ev.dirfd));
        lemma_word(ev.flags as nat);
        lemma_word(ev.truncated as nat);
        lemma_word(same_bits(ev.result_fd));
        lemma_word(ev._pad as nat);
        lemma_long(ev.ts_ns as nat);
        let low = word_bytes(ev.ts_ns as nat % 0x1_0000_0000);
        let high = word_bytes(ev.ts_ns as nat / 0x1_0000_0000);
        assert(ev.path@.len() == 256);
        assert(record_bytes(ev).len() == 296);
        assert(d.subrange(0, 4) =~= word_bytes(ev.etype as nat));
        assert(d.subrange(4, 8) =~= word_bytes(ev.pid as nat));
        assert(d.subrange(8, 12) =~= word_bytes(ev.ppid as nat));
        assert(d.subrange(12, 16) =~= word_bytes(same_bits(ev.dirfd)));
        assert(d.subrange(16, 20) =~= word_bytes(ev.flags as nat));
        assert(d.subrange(20, 24) =~= word_bytes(ev.truncated as nat));
        assert(d.subrange(24, 28) =~= word_bytes(same_bits(ev.result_fd)));
        assert(d.subrange(28, 32) =~= word_bytes(ev._pad as nat));
        assert(d.subrange(32, 40) =~= low + high);
        assert(d.subrange(40, 296) =~= ev.path@);
    }
}

/// The kinds that report a creation, and the name of each; every other kind has a name
/// that none of them has.
pub proof fn law_kinds_of_creations(etype: u32, made: bool, name: &'static str)
    requires
        call_ensures(creates, (etype,), made),
        call_ensures(syscall_name, (etype,), name),
    ensures
        made <==> 3 <= etype <= 7 || etype == 11,
        name@ == "openat"@ <==> etype == 3,
        name@ == "mkdir"@ <==> etype == 4,
        name@ == "renameat"@ <==> etype == 5,
        name@ == "symlink"@ <==> etype == 6,
        name@ == "link"@ <==> etype == 7,
        name@ == "mknod"@ <==> etype == 11,
        name@ == "fork"@ <==> etype == 1,
        name@ == "exit"@ <==> etype == 2,
        name@ == "unknown"@ <==> etype == 0 || 8 <= etype <= 10 || etype > 11,
{
    reveal_strlit("openat");
    reveal_strlit("mkdir");
    reveal_strlit("renameat");
    reveal_strlit("symlink");
    reveal_strlit("link");
    reveal_strlit("mknod");
    reveal_strlit("fork");
    reveal_strlit("exit");
    reveal_strlit("unknown");
    assert("openat"@.len() == 6 && "renameat"@.len() == 8);
    assert("mkdir"@.len() == 5 && "mknod"@.len() == 5);
    assert("symlink"@.len() == 7 && "unknown"@.len() == 7);
    assert("link"@.len() == 4 && "fork"@.len() == 4 && "exit"@.len() == 4);
    assert("mkdir"@[1] == 'k' && "mknod"@[2] == 'n' && "mkdir"@[2] == 'd');
    assert("symlink"@[0] == 's' && "unknown"@[0] == 'u');
    assert("link"@[0] == 'l' && "fork"@[0] == 'f' && "exit"@[0] == 'e');
}

} // verus!
