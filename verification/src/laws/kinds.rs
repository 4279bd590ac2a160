//! The kinds of paths that are left out by default.

use crate::classify;
use crate::classify::{is_build_artifact, is_genuine_creation, is_history_file, is_system_path};
use crate::cli::NocruftFlags;
use crate::hostpath;
use crate::hostpath::{HostPath, Part, SLASH};
use crate::laws::paths;
use crate::output::{keeps, PathFacts};
use crate::pathres::CapturedEvent;
use crate::text;
use vstd::prelude::*;
use vstd::string::*;
use vstd::utf8::*;

verus! {

/// The name is that of a history file of a shell, an interpreter or a pager.
pub open spec fn names_a_history(n: Seq<u8>) -> bool {
    ||| n == encode_utf8(".bash_history"@)
    ||| n == encode_utf8(".zsh_history"@)
    ||| n == encode_utf8(".zhistory"@)
    ||| n == encode_utf8(".python_history"@)
    ||| n == encode_utf8(".node_repl_history"@)
    ||| n == encode_utf8(".mysql_history"@)
    ||| n == encode_utf8(".psql_history"@)
    ||| n == encode_utf8(".rediscli_history"@)
    ||| n == encode_utf8(".sqlite_history"@)
    ||| n == encode_utf8(".lesshst"@)
    ||| n == encode_utf8(".viminfo"@)
    ||| n == encode_utf8(".lua_history"@)
    ||| n == encode_utf8(".gdb_history"@)
}

/// The name is that of a directory that tools fill.
pub open spec fn names_a_build_dir(n: Seq<u8>) -> bool {
    ||| n == encode_utf8(".git"@)
    ||| n == encode_utf8("node_modules"@)
    ||| n == encode_utf8("__pycache__"@)
    ||| n == encode_utf8(".next"@)
    ||| n == encode_utf8(".pytest_cache"@)
    ||| n == encode_utf8(".mypy_cache"@)
    ||| n == encode_utf8(".ruff_cache"@)
    ||| n == encode_utf8(".tox"@)
}

proof fn lemma_history(n: Seq<u8>)
    ensures
        classify::is_one_of(n, classify::history_names()) <==> names_a_history(n),
{
    let list = classify::history_names();
    assert(list.len() == 13);
    assert(list[0] == ".bash_history"@ && list[1] == ".zsh_history"@ && list[2] == ".zhistory"@);
    assert(list[3] == ".python_history"@ && list[4] == ".node_repl_history"@);
    assert(list[5] == ".mysql_history"@ && list[6] == ".psql_history"@);
    assert(list[7] == ".rediscli_history"@ && list[8] == ".sqlite_history"@);
    assert(list[9] == ".lesshst"@ && list[10] == ".viminfo"@);
    assert(list[11] == ".lua_history"@ && list[12] == ".gdb_history"@);
}

proof fn lemma_build_dir(n: Seq<u8>)
    ensures
        classify::is_one_of(n, classify::build_dirs()) <==> names_a_build_dir(n),
{
    let list = classify::build_dirs();
    assert(list.len() == 8);
    assert(list[0] == ".git"@ && list[1] == "node_modules"@ && list[2] == "__pycache__"@);
    assert(list[3] == ".next"@ && list[4] == ".pytest_cache"@ && list[5] == ".mypy_cache"@);
    assert(list[6] == ".ruff_cache"@ && list[7] == ".tox"@);
}

/// A history file is known by its name, wherever it lies.
pub proof fn law_history_files_go_by_name(dir: Seq<u8>, name: Seq<u8>, p: &HostPath, r: bool)
    requires
        dir.len() > 0,
        hostpath::is_plain_name(name),
        p@ == hostpath::joined(dir, name),
        call_ensures(is_history_file, (p,), r),
    ensures
        r <==> names_a_history(name),
        r == classify::history_file(p@),
{
    paths::law_entry_has_its_name(dir, name);
    lemma_history(name);
}

/// What has no file name is no history file.
pub proof fn law_nameless_path_is_no_history(p: Seq<u8>)
    requires
        hostpath::components(p).len() == 0 || !(hostpath::components(p).last() is Name),
    ensures
        !classify::history_file(p),
{
}

/// Everything at or below a directory that tools fill is a build artifact.
pub proof fn law_below_build_dir_is_build(dir: Seq<u8>, name: Seq<u8>, rel: Seq<u8>)
    requires
        dir.len() > 0,
        names_a_build_dir(name),
        hostpath::is_plain_name(name),
        !hostpath::is_absolute(rel),
    ensures
        classify::build_artifact(hostpath::joined(dir, name)),
        classify::build_artifact(hostpath::joined(hostpath::joined(dir, name), rel)),
{
    let entry = hostpath::joined(dir, name);
    let p = hostpath::joined(entry, rel);
    let k = hostpath::components(dir).len() as int;
    lemma_build_dir(name);
    hostpath::lemma_joined_part(dir, Part::Name(name));
    paths::law_joined_path_continues_the_directory(entry, rel);
    assert(hostpath::components(entry)[k] == Part::Name(name));
    assert(hostpath::components(p)[k] == Part::Name(name));
}

/// A text occurs in a path wherever it stands in it, and nowhere else.
pub proof fn law_what_stands_in_a_path_occurs_in_it(p: Seq<u8>, needle: Seq<u8>)
    ensures
        forall|a: Seq<u8>, b: Seq<u8>| p == #[trigger] (a + needle + b) ==> classify::occurs_in(p, needle),
        classify::occurs_in(p, needle) ==> exists|a: Seq<u8>, b: Seq<u8>| p
            == #[trigger] (a + needle + b),
{
    assert forall|a: Seq<u8>, b: Seq<u8>| p == #[trigger] (a + needle
        + b) implies classify::occurs_in(p, needle) by {
        let k = a.len() as int;
        assert(p.subrange(k, k + needle.len()) =~= needle);
        assert(classify::occurs_at(p, needle, k));
    }
    if classify::occurs_in(p, needle) {
        let k = choose|k: int| classify::occurs_at(p, needle, k);
        let a = p.take(k);
        let b = p.skip(k + needle.len());
        assert(p =~= a + needle + b);
    }
}

/// The path leads through a build directory of cargo.
pub open spec fn leads_through_cargo_target(p: Seq<u8>) -> bool {
    ||| classify::occurs_in(p, encode_utf8("/target/debug/"@))
    ||| classify::occurs_in(p, encode_utf8("/target/release/"@))
    ||| classify::occurs_in(p, encode_utf8("/target/wasm32-"@))
    ||| classify::occurs_in(p, encode_utf8("/target/aarch64-"@))
    ||| classify::occurs_in(p, encode_utf8("/target/x86_64-"@))
}

/// A build artifact is known by a directory on its way, by a build directory of cargo, or
/// by the extension of a compiled file, and by nothing else.
pub proof fn law_build_artifacts_are_known_by_their_path(p: &HostPath, r: bool)
    requires
        call_ensures(is_build_artifact, (p,), r),
    ensures
        r == classify::build_artifact(p@),
        r <==> (exists|i: int|
            0 <= i < hostpath::components(p@).len() && (#[trigger] hostpath::components(p@)[i]
                matches Part::Name(n) && names_a_build_dir(n))) || (valid_utf8(p@)
            && leads_through_cargo_target(p@)) || hostpath::extension(p@) == Some(
            encode_utf8("pyc"@),
        ) || hostpath::extension(p@) == Some(encode_utf8("pyo"@)),
{
    assert forall|n: Seq<u8>| classify::is_one_of(n, classify::build_dirs())
        <==> #[trigger] names_a_build_dir(n) by {
        lemma_build_dir(n);
    }
    let infixes = classify::build_infixes();
    assert(infixes.len() == 5);
    assert(infixes[0] == "/target/debug/"@ && infixes[1] == "/target/release/"@);
    assert(infixes[2] == "/target/wasm32-"@ && infixes[3] == "/target/aarch64-"@);
    assert(infixes[4] == "/target/x86_64-"@);
    let extensions = classify::build_extensions();
    assert(extensions.len() == 2);
    assert(extensions[0] == "pyc"@ && extensions[1] == "pyo"@);
    if classify::passes_build_dir(p@) {
        let i = choose|i: int|
            0 <= i < hostpath::components(p@).len() && (#[trigger] hostpath::components(p@)[i]
                matches Part::Name(name) && classify::is_one_of(name, classify::build_dirs()));
        assert(names_a_build_dir(hostpath::components(p@)[i]->Name_0));
    }
    if exists|i: int|
        0 <= i < hostpath::components(p@).len() && (#[trigger] hostpath::components(p@)[i] matches
            Part::Name(n) && names_a_build_dir(n)) {
        let i = choose|i: int|
            0 <= i < hostpath::components(p@).len() && (#[trigger] hostpath::components(p@)[i]
                matches Part::Name(n) && names_a_build_dir(n));
        assert(classify::is_one_of(
            hostpath::components(p@)[i]->Name_0,
            classify::build_dirs(),
        ));
    }
}

/// A path of a pseudo file system, of the run-time directories or of the sockets of the
/// desktop is known by how it starts.
pub proof fn law_system_paths_are_known_by_their_front(p: &HostPath, r: bool)
    requires
        call_ensures(is_system_path, (p,), r),
    ensures
        r == classify::system_path(p@),
        r <==> valid_utf8(p@) && (encode_utf8("/dev/"@).is_prefix_of(p@) || encode_utf8(
            "/proc/"@,
        ).is_prefix_of(p@) || encode_utf8("/sys/"@).is_prefix_of(p@) || encode_utf8(
            "/run/"@,
        ).is_prefix_of(p@) || encode_utf8("/var/run/"@).is_prefix_of(p@) || encode_utf8(
            "/tmp/.ICE-unix/"@,
        ).is_prefix_of(p@) || classify::under_x_sockets(p@)),
{
    let list = classify::system_prefixes();
    assert(list.len() == 6);
    assert(list[0] == "/dev/"@ && list[1] == "/proc/"@ && list[2] == "/sys/"@);
    assert(list[3] == "/run/"@ && list[4] == "/var/run/"@ && list[5] == "/tmp/.ICE-unix/"@);
}

proof fn lemma_pieces_stay(p: Seq<u8>, q: Seq<u8>, i: int)
    requires
        0 <= i < text::split_on(p, SLASH).len() - 1,
    ensures
        text::split_on(p + q, SLASH).len() >= text::split_on(p, SLASH).len(),
        text::split_on(p + q, SLASH)[i] == text::split_on(p, SLASH)[i],
    decreases q.len(),
{
    if q.len() == 0 {
        assert(p + q =~= p);
    } else {
        lemma_pieces_stay(p, q.drop_last(), i);
        assert((p + q).drop_last() =~= p + q.drop_last());
    }
}

/// What lies below a system path is one too.
pub proof fn law_below_system_path_is_system(p: Seq<u8>, q: Seq<u8>)
    requires
        classify::system_path(p),
        valid_utf8(p + q),
    ensures
        classify::system_path(p + q),
{
    let list = classify::system_prefixes();
    if classify::starts_with_one_of(p, list) {
        let i = choose|i: int|
            0 <= i < list.len() && encode_utf8(#[trigger] list[i]).is_prefix_of(p);
        let front = encode_utf8(list[i]);
        assert(front =~= (p + q).subrange(0, front.len() as int));
        assert(encode_utf8(list[i]).is_prefix_of(p + q));
    } else {
        lemma_pieces_stay(p, q, 0);
        lemma_pieces_stay(p, q, 1);
        lemma_pieces_stay(p, q, 2);
    }
}

/// The sockets of every display server are system paths: the directory is named `.X`,
/// anything, `-unix`.
pub proof fn law_display_sockets_are_system_paths(any: Seq<u8>, rest: Seq<u8>)
    requires
        forall|i: int| 0 <= i < any.len() ==> #[trigger] any[i] != SLASH,
        valid_utf8(encode_utf8("/tmp/.X"@) + any + encode_utf8("-unix/"@) + rest),
    ensures
        classify::system_path(encode_utf8("/tmp/.X"@) + any + encode_utf8("-unix/"@) + rest),
{
    reveal_strlit("/tmp/.X");
    reveal_strlit("-unix/");
    reveal_strlit("tmp");
    reveal_strlit(".X");
    reveal_strlit("-unix");
    is_ascii_chars_encode_utf8("/tmp/.X"@);
    is_ascii_chars_encode_utf8("-unix/"@);
    is_ascii_chars_encode_utf8("tmp"@);
    is_ascii_chars_encode_utf8(".X"@);
    is_ascii_chars_encode_utf8("-unix"@);
    let tmp = encode_utf8("tmp"@);
    let front = encode_utf8(".X"@);
    let back = encode_utf8("-unix"@);
    let dir = front + any + back;
    let whole = encode_utf8("/tmp/.X"@) + any + encode_utf8("-unix/"@) + rest;
    let none = Seq::<u8>::empty();
    let from_dir = dir.push(SLASH) + rest;
    let from_tmp = tmp.push(SLASH) + from_dir;
    assert(tmp =~= seq![0x74u8, 0x6du8, 0x70u8]);
    assert(front =~= seq![0x2eu8, 0x58u8]);
    assert(back =~= seq![0x2du8, 0x75u8, 0x6eu8, 0x69u8, 0x78u8]);
    assert(encode_utf8("/tmp/.X"@) =~= seq![0x2fu8] + tmp + seq![0x2fu8] + front);
    assert(encode_utf8("-unix/"@) =~= back + seq![0x2fu8]);
    assert(whole =~= none.push(SLASH) + from_tmp);
    paths::lemma_split_in_two(none, from_tmp);
    paths::lemma_split_in_two(tmp, from_dir);
    paths::lemma_split_in_two(dir, rest);
    assert forall|i: int| 0 <= i < dir.len() implies #[trigger] dir[i] != SLASH by {
        if i < 2 {
            assert(dir[i] == front[i]);
        } else if i < 2 + any.len() {
            assert(dir[i] == any[i - 2]);
        } else {
            assert(dir[i] == back[i - 2 - any.len()]);
        }
    }
    hostpath::lemma_split_single(none);
    hostpath::lemma_split_single(tmp);
    hostpath::lemma_split_single(dir);
    text::lemma_split_nonempty(rest, SLASH);
    let pieces = text::split_on(whole, SLASH);
    assert(pieces =~= seq![none, tmp, dir] + text::split_on(rest, SLASH));
    assert(front =~= dir.subrange(0, 2));
    assert(back =~= dir.subrange(dir.len() - 5, dir.len() as int));
    assert(pieces[2] == dir);
}

/// Pieces with a separator between each two.
pub open spec fn pieced_together(list: Seq<Seq<u8>>) -> Seq<u8>
    decreases list.len(),
{
    if list.len() == 0 {
        Seq::empty()
    } else if list.len() == 1 {
        list[0]
    } else {
        pieced_together(list.drop_last()).push(SLASH) + list.last()
    }
}

proof fn lemma_pieced_together(p: Seq<u8>)
    ensures
        pieced_together(text::split_on(p, SLASH)) == p,
    decreases p.len(),
{
    let list = text::split_on(p, SLASH);
    text::lemma_split_nonempty(p, SLASH);
    if p.len() == 0 {
        assert(list[0] =~= p);
    } else {
        let front = p.drop_last();
        let head = text::split_on(front, SLASH);
        lemma_pieced_together(front);
        text::lemma_split_nonempty(front, SLASH);
        if p.last() == SLASH {
            assert(list.drop_last() =~= head);
            assert(front.push(SLASH) + Seq::<u8>::empty() =~= p);
        } else if head.len() == 1 {
            assert(list[0] =~= p);
        } else {
            assert(list.drop_last() =~= head.drop_last());
            let before = pieced_together(head.drop_last()).push(SLASH);
            assert(front == before + head.last());
            assert(p =~= front.push(p.last()));
            assert(before + head.last().push(p.last()) =~= p);
        }
    }
}

proof fn lemma_pieced_in_two(a: Seq<Seq<u8>>, b: Seq<Seq<u8>>)
    requires
        a.len() > 0,
        b.len() > 0,
    ensures
        pieced_together(a + b) == pieced_together(a).push(SLASH) + pieced_together(b),
    decreases b.len(),
{
    let all = a + b;
    if b.len() == 1 {
        assert(all.drop_last() =~= a);
        assert(all.last() == b[0]);
    } else {
        lemma_pieced_in_two(a, b.drop_last());
        assert(all.drop_last() =~= a + b.drop_last());
        assert(all.last() == b.last());
        assert(pieced_together(all) =~= pieced_together(a).push(SLASH) + pieced_together(b));
    }
}

/// `p` lies below a directory `/tmp/.X`, anything, `-unix`.
pub open spec fn below_display_sockets(p: Seq<u8>, any: Seq<u8>, rest: Seq<u8>) -> bool {
    p == encode_utf8("/tmp/.X"@) + any + encode_utf8("-unix/"@) + rest
}

/// Of the paths below `/tmp` only those below such a directory count as sockets of a
/// display server.
pub proof fn law_only_display_sockets_count_as_such(p: Seq<u8>)
    requires
        classify::under_x_sockets(p),
    ensures
        exists|any: Seq<u8>, rest: Seq<u8>| #[trigger] below_display_sockets(p, any, rest),
{
    reveal_strlit("/tmp/.X");
    reveal_strlit("-unix/");
    reveal_strlit("tmp");
    reveal_strlit(".X");
    reveal_strlit("-unix");
    is_ascii_chars_encode_utf8("/tmp/.X"@);
    is_ascii_chars_encode_utf8("-unix/"@);
    is_ascii_chars_encode_utf8("tmp"@);
    is_ascii_chars_encode_utf8(".X"@);
    is_ascii_chars_encode_utf8("-unix"@);
    let tmp = encode_utf8("tmp"@);
    let front = encode_utf8(".X"@);
    let back = encode_utf8("-unix"@);
    assert(tmp =~= seq![0x74u8, 0x6du8, 0x70u8]);
    assert(front =~= seq![0x2eu8, 0x58u8]);
    assert(back =~= seq![0x2du8, 0x75u8, 0x6eu8, 0x69u8, 0x78u8]);
    assert(encode_utf8("/tmp/.X"@) =~= seq![0x2fu8] + tmp + seq![0x2fu8] + front);
    assert(encode_utf8("-unix/"@) =~= back + seq![0x2fu8]);
    let list = text::split_on(p, SLASH);
    let dir = list[2];
    let any = dir.subrange(2, dir.len() - 5);
    assert(dir.subrange(0, 2) =~= front);
    assert(dir.subrange(dir.len() - 5, dir.len() as int) =~= back);
    assert(dir =~= front + any + back);
    let head = list.take(3);
    let tail = list.skip(3);
    let rest = pieced_together(tail);
    lemma_pieced_together(p);
    assert(list =~= head + tail);
    lemma_pieced_in_two(head, tail);
    assert(head.drop_last() =~= list.take(2));
    assert(list.take(2).drop_last() =~= list.take(1));
    assert(pieced_together(list.take(1)) == list[0]);
    assert(pieced_together(list.take(2)) =~= seq![0x2fu8] + tmp);
    assert(pieced_together(head) =~= seq![0x2fu8] + tmp + seq![0x2fu8] + dir);
    assert(p =~= encode_utf8("/tmp/.X"@) + any + encode_utf8("-unix/"@) + rest);
    assert(below_display_sockets(p, any, rest));
}

/// Only what was opened for creation can be old: it is when its birth lies before the
/// start.
pub proof fn law_only_opened_files_can_be_old(
    ev: &CapturedEvent,
    btime: Option<u64>,
    start: u64,
    r: bool,
)
    requires
        call_ensures(is_genuine_creation, (ev, btime, start), r),
    ensures
        !r <==> ev.syscall == 3 && btime is Some && btime->0 < start,
        r == classify::genuine_creation(ev.syscall, btime, start),
{
}

/// The rules in their order: a path that is gone goes unless its flag is set; one that
/// is wanted stays; one that is unwanted goes; and so does one of a kind whose flag is
/// not set.
pub proof fn law_rules_come_in_order(
    p: &HostPath,
    ev: &CapturedEvent,
    facts: &PathFacts,
    flags: &NocruftFlags,
    start: u64,
    wanted: bool,
    unwanted: bool,
    r: bool,
)
    requires
        call_ensures(keeps, (p, ev, facts, flags, start, wanted, unwanted), r),
    ensures
        !facts.exists && !flags.include_deleted ==> !r,
        (facts.exists || flags.include_deleted) && wanted ==> r,
        !wanted && unwanted ==> !r,
        !wanted && !flags.include_system && classify::system_path(p@) ==> !r,
        !wanted && !flags.include_history && classify::history_file(p@) ==> !r,
        !wanted && !flags.include_build && classify::build_artifact(p@) ==> !r,
        !wanted && !flags.include_modified && ev.syscall == 3 && facts.btime_ns is Some
            && facts.btime_ns->0 < start ==> !r,
        (facts.exists || flags.include_deleted) && !unwanted && (flags.include_system
            || !classify::system_path(p@)) && (flags.include_history || !classify::history_file(p@))
            && (flags.include_build || !classify::build_artifact(p@)) && (flags.include_modified
            || ev.syscall != 3 || facts.btime_ns is None || facts.btime_ns->0 >= start) ==> r,
{
}

} // verus!
