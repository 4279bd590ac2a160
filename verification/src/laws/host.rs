//! Clocks, birth times and the privileges of the process.

use crate::caps;
use crate::caps::{
    bool_int, check_bpf_privileges, check_kernel_btf, kernel_btf_path, read_effective_caps,
    MissingPrivileges,
};
use crate::pathres::{file_btime_unix_ns, unix_ns_now, StatxReply};
use crate::text;
use vstd::prelude::*;
use vstd::string::*;

verus! {

/// There is a birth time where the call went through and says that it gives one; its
/// seconds and nanoseconds can be read off it as long as 64 bits hold it, and otherwise
/// the lowest 64 bits are right.
pub proof fn law_birth_time_is_in_nanoseconds(reply: &StatxReply, r: Option<u64>)
    requires
        call_ensures(file_btime_unix_ns, (reply,), r),
    ensures
        r is Some <==> reply.status == 0 && reply.mask & 0x800u32 != 0,
        r is Some && reply.btime_sec >= 0 && reply.btime_nsec < 1_000_000_000 && reply.btime_sec
            * 1_000_000_000 + reply.btime_nsec <= u64::MAX ==> r->0 / 1_000_000_000
            == reply.btime_sec && r->0 % 1_000_000_000 == reply.btime_nsec,
        r is Some ==> (reply.btime_sec * 1_000_000_000 + reply.btime_nsec - r->0)
            % 0x1_0000_0000_0000_0000 == 0,
{
    let total = reply.btime_sec * 1_000_000_000 + reply.btime_nsec;
    vstd::arithmetic::div_mod::lemma_fundamental_div_mod(total, 0x1_0000_0000_0000_0000);
}

/// The clock gives nanoseconds from which the seconds can be read off, and zero where it
/// stands before the epoch.
pub proof fn law_clock_is_in_nanoseconds(since_epoch: Option<(u64, u32)>, r: u64)
    requires
        call_ensures(unix_ns_now, (since_epoch,), r),
    ensures
        since_epoch is None ==> r == 0,
        since_epoch matches Some((secs, nanos)) ==> (nanos < 1_000_000_000 && secs * 1_000_000_000
            + nanos <= u64::MAX ==> r / 1_000_000_000 == secs && r % 1_000_000_000 == nanos),
{
}

/// Births and the start are measured alike: a file that is born at the very moment at
/// which the clock is read has the time that the clock gives.
pub proof fn law_births_and_clock_agree(
    reply: &StatxReply,
    secs: u64,
    nanos: u32,
    born: Option<u64>,
    now: u64,
)
    requires
        call_ensures(file_btime_unix_ns, (reply,), born),
        call_ensures(unix_ns_now, (Some((secs, nanos)),), now),
        born is Some,
        reply.btime_sec == secs,
        reply.btime_nsec == nanos,
    ensures
        born == Some(now),
{
}

/// Either the one capability that stands for all, or both of the others, are needed; what
/// is there and what is not is told apart.
pub proof fn law_privileges_that_suffice(status: &str, r: Result<(), MissingPrivileges>)
    requires
        call_ensures(check_bpf_privileges, (status,), r),
    ensures
        ({
            let held = caps::effective_caps(status@);
            let admin = (held >> 21u32) & 1 == 1;
            let perfmon = (held >> 38u32) & 1 == 1;
            let bpf = (held >> 39u32) & 1 == 1;
            &&& r is Ok <==> admin || (bpf && perfmon)
            &&& r matches Err(e) ==> e.bpf == bpf && e.perfmon == perfmon && e.sys_admin == admin
        }),
{
}

proof fn lemma_lines(line: Seq<char>, rest: Seq<char>)
    requires
        forall|i: int| 0 <= i < line.len() ==> #[trigger] line[i] != '\n',
    ensures
        text::split_on(line, '\n') == seq![line],
        text::split_on(line.push('\n') + rest, '\n') == seq![line] + text::split_on(rest, '\n'),
    decreases line.len() + rest.len(),
{
    if line.len() == 0 {
        assert(line =~= Seq::empty());
    } else {
        let front = line.drop_last();
        assert forall|i: int| 0 <= i < front.len() implies #[trigger] front[i] != '\n' by {
            assert(front[i] == line[i]);
        }
        lemma_lines(front, Seq::empty());
        assert(line.last() == line[line.len() - 1]);
        assert(front.push(line.last()) =~= line);
        assert(seq![front].drop_last() =~= Seq::empty());
        assert(Seq::<Seq<char>>::empty().push(line) =~= seq![line]);
    }
    let whole = line.push('\n') + rest;
    if rest.len() == 0 {
        assert(whole =~= line.push('\n'));
        assert(whole.drop_last() =~= line);
        assert(text::split_on(rest, '\n') =~= seq![Seq::<char>::empty()]);
        assert(seq![line].push(Seq::<char>::empty()) =~= seq![line] + seq![Seq::<char>::empty()]);
    } else {
        let less = rest.drop_last();
        lemma_lines(line, less);
        text::lemma_split_nonempty(less, '\n');
        assert(whole.drop_last() =~= line.push('\n') + less);
        assert(whole.last() == rest.last());
        let back = text::split_on(less, '\n');
        let head = seq![line] + back;
        if rest.last() == '\n' {
            assert(head.push(Seq::<char>::empty()) =~= seq![line] + back.push(
                Seq::<char>::empty(),
            ));
        } else {
            assert(head.last() == back.last());
            assert(head.drop_last().push(back.last().push(rest.last())) =~= seq![line]
                + back.drop_last().push(back.last().push(rest.last())));
        }
    }
}

/// The capabilities are those of the first line that lists the effective ones: lines in
/// front of it do not matter, and neither do lines behind it.
pub proof fn law_first_line_of_capabilities_counts(
    line: Seq<char>,
    field: Seq<char>,
    rest: Seq<char>,
)
    requires
        forall|i: int| 0 <= i < line.len() ==> #[trigger] line[i] != '\n',
    ensures
        !"CapEff:\t"@.is_prefix_of(line) ==> caps::effective_caps(line.push('\n') + rest)
            == caps::effective_caps(rest),
        line == "CapEff:\t"@ + field ==> caps::effective_caps(line.push('\n') + rest)
            == caps::effective_caps(line) && caps::effective_caps(line) == (match caps::hex_number(
            text::trimmed(field),
        ) {
            Some(n) => n,
            None => 0u64,
        }),
{
    lemma_lines(line, rest);
    let lines = seq![line] + text::split_on(rest, '\n');
    assert(lines[0] == line);
    assert(lines.skip(1) =~= text::split_on(rest, '\n'));
    if line == "CapEff:\t"@ + field {
        reveal_strlit("CapEff:\t");
        assert("CapEff:\t"@ =~= line.subrange(0, 8));
        assert(line.skip(8) =~= field);
        assert(seq![line][0] == line);
    }
}

/// What is read is what the status lists.
pub proof fn law_capabilities_are_read_from_the_status(status: &str, r: u64)
    requires
        call_ensures(read_effective_caps, (status,), r),
    ensures
        r == caps::effective_caps(status@),
{
}

/// Digits in front of others count sixteen times as much for each of them, and a letter
/// counts the same in either case.
pub proof fn law_hex_digits_have_their_place(a: Seq<char>, c: char)
    ensures
        caps::hex_value(a.push(c)) == 16 * caps::hex_value(a) + caps::hex_digit(c)->0,
        forall|d: char, e: char|
            'a' <= d <= 'f' && 'A' <= e <= 'F' && d as u32 - 'a' as u32 == e as u32 - 'A' as u32
                ==> (#[trigger] caps::hex_digit(d))
                == #[trigger] caps::hex_digit(e),
        caps::hex_digit('0') == Some(0nat) && caps::hex_digit('9') == Some(9nat)
            && caps::hex_digit('a') == Some(10nat) && caps::hex_digit('f') == Some(15nat),
        caps::hex_digit('g') is None && caps::hex_digit('-') is None,
{
    assert(a.push(c).drop_last() =~= a);
}

/// A field is a number when it is digits, at least one, that fit in 64 bits, with a plus
/// sign in front or without.
pub proof fn law_numbers_are_digits(digits: Seq<char>)
    requires
        digits.len() > 0 ==> digits[0] != '+',
    ensures
        ({
            let good = digits.len() > 0 && (forall|i: int|
                0 <= i < digits.len() ==> caps::hex_digit(#[trigger] digits[i]) is Some)
                && caps::hex_value(digits) <= u64::MAX;
            &&& caps::hex_number(digits) is Some <==> good
            &&& good ==> caps::hex_number(digits) == Some(caps::hex_value(digits) as u64)
            &&& caps::hex_number(seq!['+'] + digits) == caps::hex_number(digits)
        }),
{
    assert((seq!['+'] + digits).skip(1) =~= digits);
}

/// `1` for true, `0` for false.
pub open spec fn as_digit(b: bool) -> Seq<char> {
    if b {
        seq!['1']
    } else {
        seq!['0']
    }
}

/// `s` is `middle` with `front` before and `back` behind it.
pub open spec fn stands_between(
    s: Seq<char>,
    front: Seq<char>,
    middle: Seq<char>,
    back: Seq<char>,
) -> bool {
    s == front + middle + back
}

/// What is said of missing privileges gives each capability its own digit.
pub proof fn law_missing_privileges_are_listed(e: &MissingPrivileges, r: String)
    requires
        call_ensures(MissingPrivileges::message, (e,), r),
    ensures
        exists|a: Seq<char>, b: Seq<char>| #[trigger]
            stands_between(
                r@,
                a,
                "CAP_BPF="@ + as_digit(e.bpf) + " CAP_PERFMON="@ + as_digit(e.perfmon)
                    + " CAP_SYS_ADMIN="@ + as_digit(e.sys_admin),
                b,
            ),
{
    let front =
        "insufficient privileges to load BPF programs.\n\nnocruft needs CAP_BPF + CAP_PERFMON (or CAP_SYS_ADMIN as a fallback).\nDetected effective caps: CAP_BPF="@;
    reveal_strlit(
        "insufficient privileges to load BPF programs.\n\nnocruft needs CAP_BPF + CAP_PERFMON (or CAP_SYS_ADMIN as a fallback).\nDetected effective caps: CAP_BPF=",
    );
    reveal_strlit("CAP_BPF=");
    let a = front.take(front.len() - 8);
    assert(a + "CAP_BPF="@ =~= front);
    let b =
        ".\n\nFix one of:\n  - NixOS:  add the flake module and `programs.nocruft.enable = true;`\n  then run `nocruft` (already at /run/wrappers/bin/nocruft).\n  - setcap: sudo setcap cap_bpf,cap_perfmon+ep $(realpath $(command -v nocruft))\n  - sudo:   sudo -E nocruft ..."@;
    assert(text::decimal(0) =~= seq!['0']);
    assert(text::decimal(1) =~= seq!['1']);
    let middle = "CAP_BPF="@ + as_digit(e.bpf) + " CAP_PERFMON="@ + as_digit(e.perfmon)
        + " CAP_SYS_ADMIN="@ + as_digit(e.sys_admin);
    assert(r@ =~= a + middle + b);
    assert(stands_between(r@, a, middle, b));
}

/// The check fails exactly where the file is missing that the kernel publishes.
pub proof fn law_type_information_is_needed(
    is_there: bool,
    r: Result<(), String>,
    path: &'static str,
)
    requires
        call_ensures(check_kernel_btf, (is_there,), r),
        call_ensures(kernel_btf_path, (), path),
    ensures
        r is Ok <==> is_there,
        path@ == "/sys/kernel/btf/vmlinux"@,
        r matches Err(e) ==> ("kernel BTF info not available at "@ + path@).is_prefix_of(e@),
{
    if let Err(e) = r {
        let front = "kernel BTF info not available at "@ + path@;
        assert(front =~= e@.subrange(0, front.len() as int));
    }
}

/// A flag is written as one or zero.
pub proof fn law_flags_are_written_as_digits(b: bool, r: u8)
    requires
        call_ensures(bool_int, (b,), r),
    ensures
        r == 1 <==> b,
        r == 0 <==> !b,
{
}

} // verus!
