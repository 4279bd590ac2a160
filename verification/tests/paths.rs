use nocruft::hostpath::{HostPath, PathComponent};
use nocruft::order::Comparison;
use nocruft::pathres::{
    cstr_to_string, file_btime_unix_ns, locate, resolve, unix_ns_now, CapturedEvent, StatxReply,
    STATX_BTIME,
};

fn path(s: &str) -> HostPath {
    HostPath::from_text(s)
}

fn text(p: &HostPath) -> String {
    p.display()
}

fn event(raw: &str, base: Option<&str>) -> CapturedEvent {
    CapturedEvent {
        ts_ns: 1,
        pid: 2,
        syscall: 4,
        dirfd: -100,
        flags: 0,
        truncated: false,
        raw_path: raw.to_string(),
        resolved_base: base.map(path),
        resolve_note: None,
    }
}

fn names(p: &str) -> Vec<String> {
    path(p)
        .components()
        .iter()
        .map(|c| match c {
            PathComponent::RootDir => "/".to_string(),
            PathComponent::CurDir => ".".to_string(),
            PathComponent::ParentDir => "..".to_string(),
            PathComponent::Normal(b) => String::from_utf8(b.clone()).unwrap(),
        })
        .collect()
}

fn std_names(p: &str) -> Vec<String> {
    std::path::Path::new(p)
        .components()
        .map(|c| c.as_os_str().to_str().unwrap().to_string())
        .collect()
}

const SAMPLES: [&str; 26] = [
    "", "/", "//", ".", "..", "./", "../", "/.", "/..", "a", "a/", "/a", "/a/", "a//b", "/a/./b",
    "./a", "./a/.", "././a", "a/../b", "../a", "/a/b/c", "/a-b", "/a/b", ".bashrc", "x.tar.gz",
    "..a/...",
];

#[test]
fn components_agree_with_std() {
    for s in SAMPLES {
        assert_eq!(names(s), std_names(s), "{:?}", s);
        assert_eq!(path(s).depth(), std_names(s).len());
    }
}

#[test]
fn join_agrees_with_std() {
    for a in SAMPLES {
        for b in SAMPLES {
            let expected = std::path::Path::new(a).join(b);
            assert_eq!(text(&path(a).join(&path(b))), expected.to_str().unwrap());
        }
    }
}

#[test]
fn order_agrees_with_std() {
    for a in SAMPLES {
        for b in SAMPLES {
            let x = std::path::Path::new(a);
            let y = std::path::Path::new(b);
            let expected = if x < y {
                Comparison::Less
            } else if y < x {
                Comparison::Greater
            } else {
                Comparison::Equal
            };
            assert_eq!(path(a).compare(&path(b)), expected, "{:?} {:?}", a, b);
        }
    }
}

#[test]
fn order_goes_part_by_part() {
    assert_eq!(path("/a/b").compare(&path("/a-b")), Comparison::Less);
    assert_eq!(path("/a//b/").compare(&path("/a/b")), Comparison::Equal);
}

#[test]
fn directory_comes_before_its_entries() {
    assert_eq!(path("/tmp").compare(&path("/tmp/a")), Comparison::Less);
}

#[test]
fn file_name_and_extension_agree_with_std() {
    for s in SAMPLES {
        let p = std::path::Path::new(s);
        let name = path(s).file_name().map(|b| String::from_utf8(b).unwrap());
        assert_eq!(name.as_deref(), p.file_name().and_then(|n| n.to_str()), "{:?}", s);
        let ext = path(s).extension().map(|b| String::from_utf8(b).unwrap());
        assert_eq!(ext.as_deref(), p.extension().and_then(|n| n.to_str()), "{:?}", s);
    }
}

#[test]
fn extension_edge_cases() {
    assert_eq!(path("/x/foo.pyc").extension(), Some(b"pyc".to_vec()));
    assert_eq!(path("/x/.pyc").extension(), None);
    assert_eq!(path("/x/foo.").extension(), Some(Vec::new()));
    assert_eq!(path("/x/foo").extension(), None);
    assert_eq!(path("/x/..").extension(), None);
}

#[test]
fn clean_shortens() {
    assert_eq!(text(&path("/tmp//a/./b/../c/").clean()), "/tmp/a/c");
    assert_eq!(text(&path("/../x").clean()), "/x");
    assert_eq!(text(&path("").clean()), ".");
    assert_eq!(text(&path("../../a").clean()), "../../a");
    assert_eq!(text(&path("a/..").clean()), ".");
}

#[test]
fn clean_keeps_short_paths() {
    for s in ["/", ".", "..", "/tmp/zonk/a", "a/b", "../a"] {
        assert_eq!(text(&path(s).clean()), s);
    }
}

#[test]
fn clean_is_idempotent() {
    for s in SAMPLES {
        let once = path(s).clean();
        assert_eq!(once.clean().bytes, once.bytes, "{:?}", s);
    }
}

#[test]
fn clean_drops_dots_and_parents() {
    let cases = [
        ("//..", "/"),
        ("..//", ".."),
        ("././/./", "."),
        ("/a/../../b", "/b"),
        ("a/../../b", "../b"),
        ("../a/..", ".."),
        ("/a/b/..", "/a"),
    ];
    for (p, expected) in cases {
        assert_eq!(text(&path(p).clean()), expected, "{:?}", p);
    }
}

#[test]
fn parent_undoes_entry() {
    for dir in ["/", "/a", "/a/b"] {
        let entry = path(dir).join(&path("x"));
        assert_eq!(text(&entry.join(&path("..")).clean()), dir);
    }
}

#[test]
fn clean_keeps_bytes_that_are_not_utf8() {
    let p = HostPath { bytes: b"/x/\xff\xfe//./y\x80".to_vec() };
    assert_eq!(p.clean().bytes, b"/x/\xff\xfe/y\x80".to_vec());
}

#[test]
fn clean_keeps_characters_of_several_bytes() {
    assert_eq!(text(&path("/tmp/./h\u{e4}\u{20ac}\u{1f600}/x").clean()), "/tmp/h\u{e4}\u{20ac}\u{1f600}/x");
}

#[test]
fn text_of_a_path() {
    assert_eq!(path("/a\u{e9}").to_text(), Some("/a\u{e9}"));
    let bad = HostPath { bytes: b"/a\xff".to_vec() };
    assert_eq!(bad.to_text(), None);
    assert_eq!(bad.display(), "/a\u{fffd}");
}

#[test]
fn cstr_stops_at_the_first_zero() {
    assert_eq!(cstr_to_string(b"abc\0def\0"), "abc");
    assert_eq!(cstr_to_string(b"abc"), "abc");
    assert_eq!(cstr_to_string(b"\0abc"), "");
    assert_eq!(cstr_to_string(b""), "");
}

#[test]
fn cstr_replaces_what_is_not_utf8() {
    assert_eq!(cstr_to_string(b"a\xffb\0"), "a\u{fffd}b");
    assert_eq!(cstr_to_string(b"h\xc3\xa9\0"), "h\u{e9}");
}

#[test]
fn resolve_absolute_path_ignores_base() {
    let a = resolve(&event("/tmp/../x/./y", Some("/base"))).unwrap();
    let b = resolve(&event("/tmp/../x/./y", None)).unwrap();
    assert_eq!(a.bytes, b.bytes);
    assert_eq!(text(&a), "/x/y");
}

#[test]
fn resolve_relative_path_against_base() {
    assert_eq!(text(&resolve(&event("b/c", Some("/a"))).unwrap()), "/a/b/c");
    assert_eq!(text(&resolve(&event("../c", Some("/a/b"))).unwrap()), "/a/c");
    assert_eq!(text(&resolve(&event("", Some("/a"))).unwrap()), "/a");
}

#[test]
fn resolve_without_base_fails() {
    assert!(resolve(&event("b/c", None)).is_none());
    assert!(locate(&event("b/c", None)).is_none());
}

#[test]
fn locate_does_not_clean() {
    assert_eq!(text(&locate(&event("./b", Some("/a"))).unwrap()), "/a/./b");
    assert_eq!(text(&locate(&event("/a/../b", None)).unwrap()), "/a/../b");
}

fn reply(status: i32, mask: u32, sec: i64, nsec: u32) -> StatxReply {
    StatxReply { status, mask, btime_sec: sec, btime_nsec: nsec }
}

#[test]
fn btime_in_nanoseconds() {
    let r = reply(0, STATX_BTIME, 1_700_000_000, 5);
    assert_eq!(file_btime_unix_ns(&r), Some(1_700_000_000_000_000_005));
    assert_eq!(file_btime_unix_ns(&reply(0, 0xfff, 2, 3)), Some(2_000_000_003));
}

#[test]
fn btime_is_missing() {
    assert_eq!(file_btime_unix_ns(&reply(-1, STATX_BTIME, 1, 1)), None);
    assert_eq!(file_btime_unix_ns(&reply(0, 0x7ff, 1, 1)), None);
}

#[test]
fn btime_wraps() {
    let r = reply(0, STATX_BTIME, -1, 7);
    let expected = (-1i64 as u64).wrapping_mul(1_000_000_000).wrapping_add(7);
    assert_eq!(file_btime_unix_ns(&r), Some(expected));
}

#[test]
fn clock_in_nanoseconds() {
    assert_eq!(unix_ns_now(Some((3, 4))), 3_000_000_004);
    assert_eq!(unix_ns_now(None), 0);
    let big = std::time::Duration::new(u64::MAX, 999_999_999);
    assert_eq!(unix_ns_now(Some((u64::MAX, 999_999_999))), big.as_nanos() as u64);
}
