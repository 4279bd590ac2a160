//! Kinds of paths that are left out by default.

use crate::bpf_events::EV_OPENAT_CREATE;
use crate::hostpath;
use crate::hostpath::{HostPath, PathComponent};
use crate::pathres::CapturedEvent;
use crate::text;
use crate::text::bytes_eq;
use vstd::prelude::*;
use vstd::string::*;
use vstd::utf8::*;

verus! {

/// The text of each literal of a list.
pub open spec fn literals(list: Seq<&'static str>) -> Seq<Seq<char>> {
    list.map_values(|s: &'static str| s@)
}

/// `b` is the UTF-8 form of one of the texts.
pub open spec fn is_one_of(b: Seq<u8>, list: Seq<Seq<char>>) -> bool {
    exists|i: int| 0 <= i < list.len() && b == encode_utf8(#[trigger] list[i])
}

/// One of the texts stands at the front of `p`.
pub open spec fn starts_with_one_of(p: Seq<u8>, list: Seq<Seq<char>>) -> bool {
    exists|i: int| 0 <= i < list.len() && encode_utf8(#[trigger] list[i]).is_prefix_of(p)
}

/// `needle` stands in `p` at position `k`.
pub open spec fn occurs_at(p: Seq<u8>, needle: Seq<u8>, k: int) -> bool {
    0 <= k && k + needle.len() <= p.len() && p.subrange(k, k + needle.len()) == needle
}

/// `needle` stands somewhere in `p`.
pub open spec fn occurs_in(p: Seq<u8>, needle: Seq<u8>) -> bool {
    exists|k: int| occurs_at(p, needle, k)
}

/// One of the texts stands somewhere in `p`.
pub open spec fn holds_one_of(p: Seq<u8>, list: Seq<Seq<char>>) -> bool {
    exists|i: int| 0 <= i < list.len() && occurs_in(p, encode_utf8(#[trigger] list[i]))
}

/// What the paths of pseudo file systems and sockets of the desktop start with.
pub open spec fn system_prefixes() -> Seq<Seq<char>> {
    seq![
        "/dev/"@,
        "/proc/"@,
        "/sys/"@,
        "/run/"@,
        "/var/run/"@,
        "/tmp/.ICE-unix/"@,
    ]
}

/// A path under a directory `/tmp/.X*-unix`, with anything but a separator for
/// the star.
pub open spec fn under_x_sockets(p: Seq<u8>) -> bool {
    let pieces = text::split_on(p, hostpath::SLASH);
    &&& pieces.len() >= 4
    &&& pieces[0] == Seq::<u8>::empty()
    &&& pieces[1] == encode_utf8("tmp"@)
    &&& pieces[2].len() >= encode_utf8(".X"@).len() + encode_utf8("-unix"@).len()
    &&& encode_utf8(".X"@).is_prefix_of(pieces[2])
    &&& encode_utf8("-unix"@).is_suffix_of(pieces[2])
}

/// A path of a pseudo file system or of a socket of the desktop.
pub open spec fn system_path(p: Seq<u8>) -> bool {
    valid_utf8(p) && (starts_with_one_of(p, system_prefixes()) || under_x_sockets(p))
}

/// The names of history files.
pub open spec fn history_names() -> Seq<Seq<char>> {
    seq![
        ".bash_history"@,
        ".zsh_history"@,
        ".zhistory"@,
        ".python_history"@,
        ".node_repl_history"@,
        ".mysql_history"@,
        ".psql_history"@,
        ".rediscli_history"@,
        ".sqlite_history"@,
        ".lesshst"@,
        ".viminfo"@,
        ".lua_history"@,
        ".gdb_history"@,
    ]
}

/// A file with the name of a history file.
pub open spec fn history_file(p: Seq<u8>) -> bool {
    hostpath::file_name(p) matches Some(name) && is_one_of(name, history_names())
}

/// Directories that hold nothing but what tools generate.
pub open spec fn build_dirs() -> Seq<Seq<char>> {
    seq![
        ".git"@,
        "node_modules"@,
        "__pycache__"@,
        ".next"@,
        ".pytest_cache"@,
        ".mypy_cache"@,
        ".ruff_cache"@,
        ".tox"@,
    ]
}

/// Runs of directories under which cargo keeps what it builds.
pub open spec fn build_infixes() -> Seq<Seq<char>> {
    seq![
        "/target/debug/"@,
        "/target/release/"@,
        "/target/wasm32-"@,
        "/target/aarch64-"@,
        "/target/x86_64-"@,
    ]
}

/// Extensions of compiled files.
pub open spec fn build_extensions() -> Seq<Seq<char>> {
    seq!["pyc"@, "pyo"@]
}

/// One of the parts of a path is the name of a build directory.
pub open spec fn passes_build_dir(p: Seq<u8>) -> bool {
    exists|i: int|
        0 <= i < hostpath::components(p).len() && (#[trigger] hostpath::components(p)[i] matches
            hostpath::Part::Name(name) && is_one_of(name, build_dirs()))
}

/// A build artifact: below a directory that tools generate, below a build
/// directory of cargo, or with the extension of a compiled file.
pub open spec fn build_artifact(p: Seq<u8>) -> bool {
    ||| passes_build_dir(p)
    ||| valid_utf8(p) && holds_one_of(p, build_infixes())
    ||| hostpath::extension(p) matches Some(e) && is_one_of(e, build_extensions())
}

/// What was opened for creation is new when its birth is not before `start`, or
/// cannot be told; everything else is new.
pub open spec fn genuine_creation(syscall: u32, btime: Option<u64>, start: u64) -> bool {
    syscall == EV_OPENAT_CREATE ==> (btime matches Some(b) ==> b >= start)
}

fn equals_one_of(b: &[u8], list: &Vec<&'static str>) -> (r: bool)
    ensures
        r == is_one_of(b@, literals(list@)),
{
    let mut i: usize = 0;
    while i < list.len()
        invariant
            i <= list.len(),
            forall|k: int| 0 <= k < i ==> b@ != encode_utf8(#[trigger] literals(list@)[k]),
        decreases list.len() - i,
    {
        assert(literals(list@)[i as int] == list@[i as int]@);
        if bytes_eq(b, list[i].as_bytes()) {
            return true;
        }
        i = i + 1;
    }
    false
}

fn equals_at(p: &Vec<u8>, needle: &[u8], k: usize) -> (r: bool)
    ensures
        r == occurs_at(p@, needle@, k as int),
{
    if k > p.len() || needle.len() > p.len() - k {
        return false;
    }
    let mut i: usize = 0;
    while i < needle.len()
        invariant
            i <= needle.len(),
            k + needle.len() <= p.len(),
            forall|j: int| 0 <= j < i ==> p@[k + j] == needle@[j],
        decreases needle.len() - i,
    {
        if p[k + i] != needle[i] {
            assert(p@.subrange(k as int, k + needle@.len())[i as int] != needle@[i as int]);
            return false;
        }
        i = i + 1;
    }
    assert(p@.subrange(k as int, k + needle@.len()) =~= needle@);
    true
}

fn starts_with(p: &Vec<u8>, needle: &[u8]) -> (r: bool)
    ensures
        r == needle@.is_prefix_of(p@),
{
    equals_at(p, needle, 0)
}

fn contains_bytes(p: &Vec<u8>, needle: &[u8]) -> (r: bool)
    ensures
        r == occurs_in(p@, needle@),
{
    let mut k: usize = 0;
    while k < p.len()
        invariant
            k <= p.len(),
            forall|j: int| 0 <= j < k ==> !occurs_at(p@, needle@, j),
        decreases p.len() - k,
    {
        if equals_at(p, needle, k) {
            return true;
        }
        k = k + 1;
    }
    equals_at(p, needle, k)
}

fn starts_with_any(p: &Vec<u8>, list: &Vec<&'static str>) -> (r: bool)
    ensures
        r == starts_with_one_of(p@, literals(list@)),
{
    let mut i: usize = 0;
    while i < list.len()
        invariant
            i <= list.len(),
            forall|k: int|
                0 <= k < i ==> !encode_utf8(#[trigger] literals(list@)[k]).is_prefix_of(p@),
        decreases list.len() - i,
    {
        assert(literals(list@)[i as int] == list@[i as int]@);
        if starts_with(p, list[i].as_bytes()) {
            return true;
        }
        i = i + 1;
    }
    false
}

fn contains_any(p: &Vec<u8>, list: &Vec<&'static str>) -> (r: bool)
    ensures
        r == holds_one_of(p@, literals(list@)),
{
    let mut i: usize = 0;
    while i < list.len()
        invariant
            i <= list.len(),
            forall|k: int| 0 <= k < i ==> !occurs_in(p@, encode_utf8(#[trigger] literals(list@)[k])),
        decreases list.len() - i,
    {
        assert(literals(list@)[i as int] == list@[i as int]@);
        if contains_bytes(p, list[i].as_bytes()) {
            return true;
        }
        i = i + 1;
    }
    false
}

fn is_under_x_sockets(p: &HostPath) -> (r: bool)
    ensures
        r == under_x_sockets(p@),
{
    let pieces = hostpath::split_bytes(&p.bytes, hostpath::SLASH);
    let ghost all = text::split_on(p@, hostpath::SLASH);
    assert(text::contents(pieces@).len() == pieces@.len());
    if pieces.len() < 4 {
        return false;
    }
    proof {
        assert(all[0] == pieces@[0]@);
        assert(all[1] == pieces@[1]@);
        assert(all[2] == pieces@[2]@);
    }
    let front = ".X".as_bytes();
    let back = "-unix".as_bytes();
    let dir = &pieces[2];
    if pieces[0].len() != 0 || !bytes_eq(pieces[1].as_slice(), "tmp".as_bytes()) {
        return false;
    }
    assert(pieces@[0]@ =~= Seq::<u8>::empty());
    if dir.len() < back.len() || dir.len() - back.len() < front.len() {
        return false;
    }
    starts_with(dir, front) && equals_at(dir, back, dir.len() - back.len())
}

/// Whether a path belongs to a pseudo file system or a socket of the desktop.
pub fn is_system_path(p: &HostPath) -> (r: bool)
    ensures
        r == system_path(p@),
{
    if p.to_text().is_none() {
        return false;
    }
    let list: Vec<&'static str> = vec![
        "/dev/",
        "/proc/",
        "/sys/",
        "/run/",
        "/var/run/",
        "/tmp/.ICE-unix/",
    ];
    assert(literals(list@) =~= system_prefixes());
    starts_with_any(&p.bytes, &list) || is_under_x_sockets(p)
}

/// Whether a path is that of a history file of a shell or an interpreter. Such
/// files are replaced by new ones, so their birth says nothing.
pub fn is_history_file(p: &HostPath) -> (r: bool)
    ensures
        r == history_file(p@),
{
    let list: Vec<&'static str> = vec![
        ".bash_history",
        ".zsh_history",
        ".zhistory",
        ".python_history",
        ".node_repl_history",
        ".mysql_history",
        ".psql_history",
        ".rediscli_history",
        ".sqlite_history",
        ".lesshst",
        ".viminfo",
        ".lua_history",
        ".gdb_history",
    ];
    assert(literals(list@) =~= history_names());
    match p.file_name() {
        Some(name) => equals_one_of(name.as_slice(), &list),
        None => false,
    }
}

fn has_build_dir(p: &HostPath) -> (r: bool)
    ensures
        r == passes_build_dir(p@),
{
    let list: Vec<&'static str> = vec![
        ".git",
        "node_modules",
        "__pycache__",
        ".next",
        ".pytest_cache",
        ".mypy_cache",
        ".ruff_cache",
        ".tox",
    ];
    assert(literals(list@) =~= build_dirs());
    let comps = p.components();
    let ghost all = hostpath::components(p@);
    assert(hostpath::parts(comps@).len() == comps@.len());
    let mut i: usize = 0;
    while i < comps.len()
        invariant
            i <= comps.len(),
            comps@.len() == all.len(),
            all == hostpath::components(p@),
            hostpath::parts(comps@) == all,
            literals(list@) == build_dirs(),
            forall|k: int|
                0 <= k < i ==> !(#[trigger] all[k] matches hostpath::Part::Name(name) && is_one_of(
                    name,
                    build_dirs(),
                )),
        decreases comps.len() - i,
    {
        assert(all[i as int] == comps@[i as int]@);
        if let PathComponent::Normal(name) = &comps[i] {
            if equals_one_of(name.as_slice(), &list) {
                assert(hostpath::components(p@)[i as int] == hostpath::Part::Name(name@));
                return true;
            }
        }
        i = i + 1;
    }
    false
}

/// Whether a path is that of a build artifact.
pub fn is_build_artifact(p: &HostPath) -> (r: bool)
    ensures
        r == build_artifact(p@),
{
    if has_build_dir(p) {
        return true;
    }
    let infixes: Vec<&'static str> = vec![
        "/target/debug/",
        "/target/release/",
        "/target/wasm32-",
        "/target/aarch64-",
        "/target/x86_64-",
    ];
    assert(literals(infixes@) =~= build_infixes());
    if p.to_text().is_some() && contains_any(&p.bytes, &infixes) {
        return true;
    }
    let extensions: Vec<&'static str> = vec!["pyc", "pyo"];
    assert(literals(extensions@) =~= build_extensions());
    match p.extension() {
        Some(e) => equals_one_of(e.as_slice(), &extensions),
        None => false,
    }
}

/// Whether an event created its file rather than modified one that was there:
/// `btime` is the file's birth time, where it can be told, `start` the time at
/// which tracing began.
pub fn is_genuine_creation(ev: &CapturedEvent, btime: Option<u64>, start: u64) -> (r: bool)
    ensures
        r == genuine_creation(ev.syscall, btime, start),
{
    if ev.syscall != EV_OPENAT_CREATE {
        return true;
    }
    match btime {
        Some(b) => b >= start,
        None => true,
    }
}

} // verus!
