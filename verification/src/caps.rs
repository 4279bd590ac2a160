//! Whether the process may load BPF programs.

use crate::text;
use crate::text::{chars_start_with, split_chars, text_chars, trim_chars};
use vstd::prelude::*;
use vstd::string::*;

verus! {

pub const CAP_SYS_ADMIN: u32 = 21;

pub const CAP_PERFMON: u32 = 38;

pub const CAP_BPF: u32 = 39;

/// The value of a hexadecimal digit.
pub open spec fn hex_digit(c: char) -> Option<nat> {
    if '0' <= c <= '9' {
        Some((c as u32 - '0' as u32) as nat)
    } else if 'a' <= c <= 'f' {
        Some((c as u32 - 'a' as u32 + 10) as nat)
    } else if 'A' <= c <= 'F' {
        Some((c as u32 - 'A' as u32 + 10) as nat)
    } else {
        None
    }
}

/// All of `s` are hexadecimal digits.
pub open spec fn all_hex(s: Seq<char>) -> bool {
    forall|i: int| 0 <= i < s.len() ==> hex_digit(#[trigger] s[i]) is Some
}

/// The number that hexadecimal digits stand for.
pub open spec fn hex_value(s: Seq<char>) -> nat
    decreases s.len(),
{
    if s.len() == 0 {
        0
    } else {
        16 * hex_value(s.drop_last()) + hex_digit(s.last())->0
    }
}

/// `s` without a leading plus sign.
pub open spec fn unsigned_part(s: Seq<char>) -> Seq<char> {
    if s.len() > 0 && s[0] == '+' {
        s.skip(1)
    } else {
        s
    }
}

/// The hexadecimal number that `s` holds, if it holds one of 64 bits: digits, at
/// least one, behind an optional plus sign.
pub open spec fn hex_number(s: Seq<char>) -> Option<u64> {
    let digits = unsigned_part(s);
    if digits.len() > 0 && all_hex(digits) && hex_value(digits) <= u64::MAX {
        Some(hex_value(digits) as u64)
    } else {
        None
    }
}

/// What stands behind `CapEff:` and a tab on the first line that starts so.
pub open spec fn field_of(lines: Seq<Seq<char>>) -> Option<Seq<char>>
    decreases lines.len(),
{
    if lines.len() == 0 {
        None
    } else if "CapEff:\t"@.is_prefix_of(lines[0]) {
        Some(lines[0].skip(8))
    } else {
        field_of(lines.skip(1))
    }
}

/// The effective capabilities that a process status lists, one bit for each;
/// none where it lists no readable ones.
pub open spec fn effective_caps(status: Seq<char>) -> u64 {
    match field_of(text::split_on(status, '\n')) {
        Some(field) => match hex_number(text::trimmed(field)) {
            Some(n) => n,
            None => 0,
        },
        None => 0,
    }
}

/// Whether a set of capabilities holds the one with this number.
pub open spec fn has_cap(caps: u64, bit: u32) -> bool {
    (caps >> bit) & 1 == 1
}

/// Which of the capabilities that matter are missing or there.
#[derive(Clone, Copy, Debug, PartialEq, Eq, Structural)]
pub struct MissingPrivileges {
    pub bpf: bool,
    pub perfmon: bool,
    pub sys_admin: bool,
}

fn hex_digit_of(c: char) -> (r: Option<u64>)
    ensures
        match r {
            Some(d) => hex_digit(c) == Some(d as nat) && d < 16,
            None => hex_digit(c) is None,
        },
{
    let u: u32 = c as u32;
    if 0x30 <= u && u <= 0x39 {
        Some((u - 0x30) as u64)
    } else if 0x61 <= u && u <= 0x66 {
        Some((u - 0x61 + 10) as u64)
    } else if 0x41 <= u && u <= 0x46 {
        Some((u - 0x41 + 10) as u64)
    } else {
        None
    }
}

proof fn lemma_hex_prefix(s: Seq<char>, n: int)
    requires
        0 <= n <= s.len(),
    ensures
        hex_value(s.take(n)) <= hex_value(s),
    decreases s.len() - n,
{
    if n < s.len() {
        assert(s.take(n + 1).drop_last() =~= s.take(n));
        lemma_hex_prefix(s, n + 1);
    } else {
        assert(s.take(n) =~= s);
    }
}

/// The hexadecimal number that `s` holds, if it holds one of 64 bits.
pub fn parse_hex(s: &Vec<char>) -> (r: Option<u64>)
    ensures
        r == hex_number(s@),
{
    let start: usize = if s.len() > 0 && s[0] == '+' {
        1
    } else {
        0
    };
    let ghost digits = unsigned_part(s@);
    assert(digits =~= s@.skip(start as int));
    if s.len() == start {
        return None;
    }
    let mut value: u64 = 0;
    let mut i: usize = start;
    while i < s.len()
        invariant
            start <= i <= s.len(),
            digits == s@.skip(start as int),
            forall|k: int| 0 <= k < i - start ==> hex_digit(#[trigger] digits[k]) is Some,
            value == hex_value(digits.take(i - start)),
            digits == unsigned_part(s@),
            digits.len() > 0,
        decreases s.len() - i,
    {
        let ghost k = i - start;
        proof {
            assert(digits[k] == s@[i as int]);
            assert(digits.take(k + 1).drop_last() =~= digits.take(k));
            assert(digits.take(k + 1).last() == digits[k]);
        }
        match hex_digit_of(s[i]) {
            Some(d) => {
                if value > 0x0fff_ffff_ffff_ffff {
                    proof {
                        lemma_hex_prefix(digits, k + 1);
                    }
                    return None;
                }
                value = 16 * value + d;
            },
            None => {
                return None;
            },
        }
        i = i + 1;
    }
    assert(digits.take(digits.len() as int) =~= digits);
    Some(value)
}

/// The effective capabilities that a process status lists.
pub fn read_effective_caps(status: &str) -> (r: u64)
    ensures
        r == effective_caps(status@),
{
    let lines = split_chars(&text_chars(status), '\n');
    let prefix = text_chars("CapEff:\t");
    let ghost all = text::split_on(status@, '\n');
    proof {
        reveal_strlit("CapEff:\t");
        assert(all.skip(0) =~= all);
    }
    let mut i: usize = 0;
    while i < lines.len()
        invariant
            i <= lines.len(),
            text::contents(lines@) == all,
            all.len() == lines.len(),
            prefix@ == "CapEff:\t"@,
            prefix@.len() == 8,
            all == text::split_on(status@, '\n'),
            field_of(all) == field_of(all.skip(i as int)),
        decreases lines.len() - i,
    {
        proof {
            assert(all[i as int] == lines@[i as int]@);
            assert(all.skip(i as int)[0] == lines@[i as int]@);
            assert(all.skip(i as int).skip(1) =~= all.skip(i + 1));
        }
        if chars_start_with(&lines[i], &prefix) {
            let mut field: Vec<char> = Vec::new();
            let mut k: usize = 8;
            let line = &lines[i];
            while k < line.len()
                invariant
                    8 <= k <= line.len(),
                    field@ == line@.subrange(8, k as int),
                decreases line.len() - k,
            {
                field.push(line[k]);
                k = k + 1;
                assert(field@ =~= line@.subrange(8, k as int));
            }
            assert(field@ =~= line@.skip(8));
            return match parse_hex(&trim_chars(&field)) {
                Some(n) => n,
                None => 0,
            };
        }
        i = i + 1;
    }
    assert(all.skip(i as int) =~= Seq::empty());
    0
}

/// Whether a process with this status may load BPF programs: it needs
/// `CAP_SYS_ADMIN`, or both `CAP_BPF` and `CAP_PERFMON`.
pub fn check_bpf_privileges(status: &str) -> (r: Result<(), MissingPrivileges>)
    ensures
        ({
            let caps = effective_caps(status@);
            &&& r is Ok == (has_cap(caps, CAP_SYS_ADMIN) || (has_cap(caps, CAP_BPF) && has_cap(
                caps,
                CAP_PERFMON,
            )))
            &&& r matches Err(e) ==> e.bpf == has_cap(caps, CAP_BPF) && e.perfmon == has_cap(
                caps,
                CAP_PERFMON,
            ) && e.sys_admin == has_cap(caps, CAP_SYS_ADMIN)
        }),
{
    let caps: u64 = read_effective_caps(status);
    let sys_admin = (caps >> CAP_SYS_ADMIN) & 1 == 1;
    let bpf = (caps >> CAP_BPF) & 1 == 1;
    let perfmon = (caps >> CAP_PERFMON) & 1 == 1;
    if sys_admin || (bpf && perfmon) {
        return Ok(());
    }
    Err(MissingPrivileges { bpf, perfmon, sys_admin })
}

/// 1 for true, 0 for false.
pub fn bool_int(b: bool) -> (r: u8)
    ensures
        r == (if b {
            1u8
        } else {
            0u8
        }),
{
    if b {
        1
    } else {
        0
    }
}

/// `1` for true, `0` for false.
pub open spec fn flag_digit(b: bool) -> Seq<char> {
    text::decimal(if b {
        1nat
    } else {
        0nat
    })
}

/// What is said when privileges are missing.
pub open spec fn privileges_text(e: MissingPrivileges) -> Seq<char> {
    "insufficient privileges to load BPF programs.\n\nnocruft needs CAP_BPF + CAP_PERFMON (or CAP_SYS_ADMIN as a fallback).\nDetected effective caps: CAP_BPF="@
        + flag_digit(e.bpf) + " CAP_PERFMON="@ + flag_digit(e.perfmon) + " CAP_SYS_ADMIN="@
        + flag_digit(e.sys_admin)
        + ".\n\nFix one of:\n  - NixOS:  add the flake module and `programs.nocruft.enable = true;`\n  then run `nocruft` (already at /run/wrappers/bin/nocruft).\n  - setcap: sudo setcap cap_bpf,cap_perfmon+ep $(realpath $(command -v nocruft))\n  - sudo:   sudo -E nocruft ..."@
}

impl MissingPrivileges {
    /// What is said about it, and how it can be mended.
    pub fn message(&self) -> (r: String)
        ensures
            r@ == privileges_text(*self),
    {
        let mut r =
            "insufficient privileges to load BPF programs.\n\nnocruft needs CAP_BPF + CAP_PERFMON (or CAP_SYS_ADMIN as a fallback).\nDetected effective caps: CAP_BPF=".to_string();
        r.append(text::decimal_text(bool_int(self.bpf) as u64).as_str());
        r.append(" CAP_PERFMON=");
        r.append(text::decimal_text(bool_int(self.perfmon) as u64).as_str());
        r.append(" CAP_SYS_ADMIN=");
        r.append(text::decimal_text(bool_int(self.sys_admin) as u64).as_str());
        r.append(
            ".\n\nFix one of:\n  - NixOS:  add the flake module and `programs.nocruft.enable = true;`\n  then run `nocruft` (already at /run/wrappers/bin/nocruft).\n  - setcap: sudo setcap cap_bpf,cap_perfmon+ep $(realpath $(command -v nocruft))\n  - sudo:   sudo -E nocruft ...",
        );
        r
    }
}

/// Where the kernel publishes its type information.
pub open spec fn btf_path() -> Seq<char> {
    "/sys/kernel/btf/vmlinux"@
}

/// What is said when the kernel publishes no type information.
pub open spec fn btf_text() -> Seq<char> {
    "kernel BTF info not available at "@ + btf_path()
        + ".\n\nnocruft uses CO-RE BPF programs which require the running\nkernel to expose its type info there. Recent NixOS, Debian\nbookworm+, Fedora 38+, etc. ship with CONFIG_DEBUG_INFO_BTF=y\nby default. If you built your own kernel, enable it and\nrebuild."@
}

/// Where the kernel publishes its type information.
pub fn kernel_btf_path() -> (r: &'static str)
    ensures
        r@ == btf_path(),
{
    "/sys/kernel/btf/vmlinux"
}

/// Whether the kernel publishes its type information, told by whether the file
/// at `kernel_btf_path` is there; the error says how to mend it.
pub fn check_kernel_btf(is_there: bool) -> (r: Result<(), String>)
    ensures
        r is Ok == is_there,
        r matches Err(e) ==> e@ == btf_text(),
{
    if is_there {
        return Ok(());
    }
    let mut r = "kernel BTF info not available at ".to_string();
    r.append(kernel_btf_path());
    r.append(
        ".\n\nnocruft uses CO-RE BPF programs which require the running\nkernel to expose its type info there. Recent NixOS, Debian\nbookworm+, Fedora 38+, etc. ship with CONFIG_DEBUG_INFO_BTF=y\nby default. If you built your own kernel, enable it and\nrebuild.",
    );
    Err(r)
}

} // verus!
