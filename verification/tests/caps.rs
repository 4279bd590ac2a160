use nocruft::caps::{
    bool_int, check_bpf_privileges, check_kernel_btf, kernel_btf_path, parse_hex,
    read_effective_caps, MissingPrivileges,
};

const BPF: u64 = 1 << 39;
const PERFMON: u64 = 1 << 38;
const SYS_ADMIN: u64 = 1 << 21;

fn status(caps: u64) -> String {
    format!("Name:\tnocruft\nCapPrm:\t{:016x}\nCapEff:\t{:016x}\nCapBnd:\t0\n", u64::MAX, caps)
}

#[test]
fn both_bpf_capabilities_suffice() {
    assert!(check_bpf_privileges(&status(BPF | PERFMON)).is_ok());
}

#[test]
fn sys_admin_suffices() {
    assert!(check_bpf_privileges(&status(SYS_ADMIN)).is_ok());
}

#[test]
fn one_bpf_capability_does_not_suffice() {
    let e = check_bpf_privileges(&status(BPF)).unwrap_err();
    assert_eq!(e, MissingPrivileges { bpf: true, perfmon: false, sys_admin: false });
    let e = check_bpf_privileges(&status(PERFMON)).unwrap_err();
    assert_eq!(e, MissingPrivileges { bpf: false, perfmon: true, sys_admin: false });
}

#[test]
fn unreadable_status_means_no_capabilities() {
    for s in ["", "CapEff: ff\n", "CapEff:\tzz\n", "CapEff:\t\n", "xCapEff:\tff\n"] {
        assert_eq!(read_effective_caps(s), 0);
        assert!(check_bpf_privileges(s).is_err());
    }
}

#[test]
fn first_line_counts() {
    assert_eq!(read_effective_caps("CapEff:\t1\nCapEff:\t2\n"), 1);
    assert_eq!(read_effective_caps("CapEff:\tq\nCapEff:\t2\n"), 0);
    assert_eq!(read_effective_caps("a\n\nCapEff:\t  fF \r\n"), 0xff);
}

fn hex(s: &str) -> Option<u64> {
    parse_hex(&s.chars().collect())
}

#[test]
fn hex_agrees_with_std() {
    let samples = [
        "", "+", "-1", "0", "+0", "ff", "FF", "fF", "g", "0x1", "ffffffffffffffff",
        "10000000000000000", "00000000000000000001", "+ffffffffffffffff", "++1", " 1", "1 ",
        "0ffffffffffffffff", "1ffffffffffffffff",
    ];
    for s in samples {
        assert_eq!(hex(s), u64::from_str_radix(s, 16).ok(), "{:?}", s);
    }
}

#[test]
fn digits_of_flags() {
    assert_eq!(bool_int(true), 1);
    assert_eq!(bool_int(false), 0);
}

#[test]
fn message_lists_the_capabilities() {
    let e = MissingPrivileges { bpf: true, perfmon: false, sys_admin: false };
    assert_eq!(
        e.message(),
        "insufficient privileges to load BPF programs.\n\
         \n\
         nocruft needs CAP_BPF + CAP_PERFMON (or CAP_SYS_ADMIN as a fallback).\n\
         Detected effective caps: CAP_BPF=1 CAP_PERFMON=0 CAP_SYS_ADMIN=0.\n\
         \n\
         Fix one of:\n  \
           - NixOS:  add the flake module and `programs.nocruft.enable = true;`\n  \
                     then run `nocruft` (already at /run/wrappers/bin/nocruft).\n  \
           - setcap: sudo setcap cap_bpf,cap_perfmon+ep $(realpath $(command -v nocruft))\n  \
           - sudo:   sudo -E nocruft ..."
    );
}

#[test]
fn kernel_btf() {
    assert_eq!(kernel_btf_path(), "/sys/kernel/btf/vmlinux");
    assert!(check_kernel_btf(true).is_ok());
    let e = check_kernel_btf(false).unwrap_err();
    assert_eq!(
        e,
        "kernel BTF info not available at /sys/kernel/btf/vmlinux.\n\
         \n\
         nocruft uses CO-RE BPF programs which require the running\n\
         kernel to expose its type info there. Recent NixOS, Debian\n\
         bookworm+, Fedora 38+, etc. ship with CONFIG_DEBUG_INFO_BTF=y\n\
         by default. If you built your own kernel, enable it and\n\
         rebuild."
    );
}
