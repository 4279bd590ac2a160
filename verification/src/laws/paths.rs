//! How paths are put together, taken apart, named and ordered.

use crate::hostpath;
use crate::hostpath::{HostPath, Part, DOT, SLASH};
use crate::order;
use crate::order::Comparison;
use crate::pathres::{resolve, CapturedEvent};
use crate::text;
use vstd::prelude::*;
use vstd::utf8::*;

verus! {

/// A path is split at each of its separators.
pub proof fn lemma_split_in_two(x: Seq<u8>, y: Seq<u8>)
    ensures
        text::split_on(x.push(SLASH) + y, SLASH) == text::split_on(x, SLASH) + text::split_on(
            y,
            SLASH,
        ),
    decreases y.len(),
{
    let whole = x.push(SLASH) + y;
    let front = text::split_on(x, SLASH);
    if y.len() == 0 {
        assert(whole =~= x.push(SLASH));
        assert(whole.drop_last() =~= x);
        assert(text::split_on(y, SLASH) =~= seq![Seq::<u8>::empty()]);
        assert(front.push(Seq::<u8>::empty()) =~= front + seq![Seq::<u8>::empty()]);
    } else {
        let rest = y.drop_last();
        lemma_split_in_two(x, rest);
        text::lemma_split_nonempty(rest, SLASH);
        assert(whole.drop_last() =~= x.push(SLASH) + rest);
        assert(whole.last() == y.last());
        let back = text::split_on(rest, SLASH);
        let head = front + back;
        if y.last() == SLASH {
            assert(head.push(Seq::<u8>::empty()) =~= front + back.push(Seq::<u8>::empty()));
        } else {
            assert(head.last() == back.last());
            assert(head.drop_last().push(back.last().push(y.last())) =~= front
                + back.drop_last().push(back.last().push(y.last())));
        }
    }
}

proof fn lemma_parts_in_two(a: Seq<Seq<u8>>, b: Seq<Seq<u8>>)
    ensures
        hostpath::named_parts(a + b) == hostpath::named_parts(a) + hostpath::named_parts(b),
    decreases b.len(),
{
    if b.len() == 0 {
        assert(a + b =~= a);
        assert(hostpath::named_parts(a) + Seq::<Part>::empty() =~= hostpath::named_parts(a));
    } else {
        lemma_parts_in_two(a, b.drop_last());
        assert((a + b).drop_last() =~= a + b.drop_last());
        assert((a + b).last() == b.last());
        assert(hostpath::named_parts(a + b) =~= hostpath::named_parts(a) + hostpath::named_parts(
            b,
        ));
    }
}

/// The parts of a relative path without a `.` in front.
pub open spec fn steps(rel: Seq<u8>) -> Seq<Part> {
    let list = hostpath::components(rel);
    if list.len() > 0 && list[0] is Current {
        list.skip(1)
    } else {
        list
    }
}

/// A relative path that is joined to a directory continues its parts; an absolute one
/// takes its place, as any does where there is no directory.
pub proof fn law_joined_path_continues_the_directory(dir: Seq<u8>, rel: Seq<u8>)
    ensures
        hostpath::is_absolute(rel) || dir.len() == 0 ==> hostpath::joined(dir, rel) == rel,
        !hostpath::is_absolute(rel) && dir.len() > 0 ==> hostpath::components(
            hostpath::joined(dir, rel),
        ) == hostpath::components(dir) + steps(rel),
        !hostpath::is_absolute(rel) ==> dir.is_prefix_of(hostpath::joined(dir, rel)),
{
    if dir.len() == 0 {
        assert(dir + rel =~= rel);
        assert(dir =~= hostpath::joined(dir, rel).subrange(0, 0));
    } else if !hostpath::is_absolute(rel) {
        let whole = hostpath::joined(dir, rel);
        assert(dir =~= whole.subrange(0, dir.len() as int));
        hostpath::lemma_components(rel);
        let pieces = text::split_on(rel, SLASH);
        assert(steps(rel) =~= hostpath::named_parts(pieces));
        text::lemma_split_nonempty(dir, SLASH);
        assert(whole[0] == dir[0]);
        if dir.last() != SLASH {
            lemma_split_in_two(dir, rel);
            lemma_parts_in_two(text::split_on(dir, SLASH), pieces);
        } else {
            let top = dir.drop_last();
            assert(whole =~= top.push(SLASH) + rel);
            assert(dir =~= top.push(SLASH));
            text::lemma_split_nonempty(top, SLASH);
            lemma_split_in_two(top, rel);
            lemma_parts_in_two(text::split_on(top, SLASH), pieces);
            let front = text::split_on(top, SLASH);
            assert(front.push(Seq::<u8>::empty()).drop_last() =~= front);
            assert(front.push(Seq::<u8>::empty())[0] == front[0]);
        }
        assert(hostpath::components(whole) =~= hostpath::components(dir) + steps(rel));
    }
}

/// An event resolves to its path where that is absolute, to its path as seen from its
/// base where it has one, and to nothing otherwise; always to the shortest form.
pub proof fn law_event_resolves_from_its_base(ev: &CapturedEvent, r: Option<HostPath>)
    requires
        call_ensures(resolve, (ev,), r),
    ensures
        ({
            let raw = encode_utf8(ev.raw_path@);
            &&& hostpath::is_absolute(raw) ==> r is Some && r->0@ == hostpath::cleaned(raw)
            &&& !hostpath::is_absolute(raw) && ev.resolved_base is Some ==> r is Some && r->0@
                == hostpath::cleaned(hostpath::joined(ev.resolved_base->0@, raw))
            &&& r is None <==> !hostpath::is_absolute(raw) && ev.resolved_base is None
        }),
{
}

/// What an absolute base and a relative path resolve to is again absolute.
pub proof fn law_resolved_path_is_absolute(ev: &CapturedEvent, r: Option<HostPath>)
    requires
        call_ensures(resolve, (ev,), r),
        r is Some,
        ev.resolved_base matches Some(base) ==> hostpath::is_absolute(base@),
    ensures
        hostpath::is_absolute(r->0@),
        hostpath::is_clean(r->0@),
{
    let raw = encode_utf8(ev.raw_path@);
    if !hostpath::is_absolute(raw) {
        let base = ev.resolved_base->0@;
        assert(hostpath::joined(base, raw)[0] == base[0]);
    }
}

/// Where there is neither `.` nor `..` to take out, cleaning keeps every part.
pub proof fn law_cleaning_keeps_plain_parts(p: Seq<u8>)
    requires
        hostpath::components(p).len() > 0,
        forall|i: int|
            0 <= i < hostpath::components(p).len() ==> (#[trigger] hostpath::components(p)[i] is Name
                || hostpath::components(p)[i] is Root),
    ensures
        hostpath::components(hostpath::cleaned(p)) == hostpath::components(p),
{
    hostpath::lemma_components(p);
    hostpath::lemma_reduced_stays(hostpath::components(p));
    hostpath::lemma_assembled_parts(hostpath::components(p));
}

/// The file name of an entry is the name of the entry.
pub proof fn law_entry_has_its_name(dir: Seq<u8>, name: Seq<u8>)
    requires
        dir.len() > 0,
        hostpath::is_plain_name(name),
    ensures
        hostpath::file_name(hostpath::joined(dir, name)) == Some(name),
{
    hostpath::lemma_joined_part(dir, Part::Name(name));
}

proof fn lemma_last_dot(stem: Seq<u8>, ext: Seq<u8>)
    requires
        forall|i: int| 0 <= i < ext.len() ==> #[trigger] ext[i] != DOT,
    ensures
        hostpath::last_dot(stem.push(DOT) + ext) == stem.len(),
    decreases ext.len(),
{
    let whole = stem.push(DOT) + ext;
    if ext.len() == 0 {
        assert(whole =~= stem.push(DOT));
    } else {
        assert(whole.last() == ext[ext.len() - 1]);
        assert(whole.drop_last() =~= stem.push(DOT) + ext.drop_last());
        assert forall|i: int|
            0 <= i < ext.drop_last().len() implies #[trigger] ext.drop_last()[i] != DOT by {
            assert(ext.drop_last()[i] == ext[i]);
        }
        lemma_last_dot(stem, ext.drop_last());
    }
}

/// The extension of a file is what follows the last dot of its name, if something
/// stands in front of that dot.
pub proof fn law_extension_follows_the_last_dot(dir: Seq<u8>, stem: Seq<u8>, ext: Seq<u8>)
    requires
        dir.len() > 0,
        forall|i: int| 0 <= i < ext.len() ==> #[trigger] ext[i] != DOT,
        hostpath::is_plain_name(stem.push(DOT) + ext),
    ensures
        stem.len() > 0 ==> hostpath::extension(hostpath::joined(dir, stem.push(DOT) + ext)) == Some(
            ext,
        ),
        stem.len() == 0 ==> hostpath::extension(hostpath::joined(dir, stem.push(DOT) + ext)) is None,
{
    let name = stem.push(DOT) + ext;
    law_entry_has_its_name(dir, name);
    lemma_last_dot(stem, ext);
    assert(name.subrange(stem.len() as int + 1, name.len() as int) =~= ext);
}

proof fn lemma_no_dot(name: Seq<u8>)
    requires
        forall|i: int| 0 <= i < name.len() ==> #[trigger] name[i] != DOT,
    ensures
        hostpath::last_dot(name) == -1,
    decreases name.len(),
{
    if name.len() > 0 {
        assert(name.last() == name[name.len() - 1]);
        assert forall|i: int|
            0 <= i < name.drop_last().len() implies #[trigger] name.drop_last()[i] != DOT by {
            assert(name.drop_last()[i] == name[i]);
        }
        lemma_no_dot(name.drop_last());
    }
}

/// A name without a dot has no extension.
pub proof fn law_no_dot_no_extension(dir: Seq<u8>, name: Seq<u8>)
    requires
        dir.len() > 0,
        hostpath::is_plain_name(name),
        forall|i: int| 0 <= i < name.len() ==> #[trigger] name[i] != DOT,
    ensures
        hostpath::extension(hostpath::joined(dir, name)) is None,
{
    law_entry_has_its_name(dir, name);
    lemma_no_dot(name);
}

/// The entries of a directory are ordered by the bytes of their names: at the first
/// difference the smaller byte, or the end of the name, comes first.
pub proof fn law_entries_are_ordered_by_name(dir: Seq<u8>, a: Seq<u8>, b: Seq<u8>, k: int)
    requires
        dir.len() > 0,
        hostpath::is_plain_name(a),
        hostpath::is_plain_name(b),
        0 <= k <= a.len(),
        k < b.len(),
        forall|i: int| 0 <= i < k ==> a[i] == b[i],
        k == a.len() || a[k] < b[k],
    ensures
        hostpath::path_less(hostpath::joined(dir, a), hostpath::joined(dir, b)),
{
    hostpath::lemma_joined_part(dir, Part::Name(a));
    hostpath::lemma_joined_part(dir, Part::Name(b));
    let list = hostpath::components(dir);
    let x = hostpath::path_key(hostpath::joined(dir, a));
    let y = hostpath::path_key(hostpath::joined(dir, b));
    let n = list.len() as int;
    let u = hostpath::part_key(Part::Name(a));
    let w = hostpath::part_key(Part::Name(b));
    assert(u[0] == 3 && w[0] == 3);
    assert forall|i: int| 0 <= i < k + 1 implies u[i] == w[i] by {
        if i > 0 {
            assert(u[i] == a[i - 1] as int);
            assert(w[i] == b[i - 1] as int);
        }
    }
    assert(w[k + 1] == b[k] as int);
    if k < a.len() {
        assert(u[k + 1] == a[k] as int);
    }
    assert(order::word_less_at(u, w, k + 1));
    assert(x[n] == u && y[n] == w);
    assert forall|i: int| 0 <= i < n implies x[i] == y[i] by {
        assert(list.push(Part::Name(a))[i] == list[i]);
        assert(list.push(Part::Name(b))[i] == list[i]);
    }
    assert(order::list_less_at(x, y, n));
}

/// Comparing is the same from both sides: what comes before the other one way comes after
/// it the other way, and only paths with the same parts are equal.
pub proof fn law_comparing_both_ways(a: &HostPath, b: &HostPath, r: Comparison, q: Comparison)
    requires
        call_ensures(HostPath::compare, (a, b), r),
        call_ensures(HostPath::compare, (b, a), q),
    ensures
        r == Comparison::Less <==> q == Comparison::Greater,
        r == Comparison::Equal <==> hostpath::components(a@) == hostpath::components(b@),
        r == Comparison::Less <==> hostpath::path_less(a@, b@),
{
}

/// Whatever lies below a directory comes behind it and before the next entry beside it.
pub proof fn law_subtree_stays_together(dir: Seq<u8>, a: Seq<u8>, b: Seq<u8>, c: Seq<u8>)
    requires
        dir.len() > 0,
        hostpath::is_plain_name(a),
        hostpath::is_plain_name(b),
        hostpath::is_plain_name(c),
        hostpath::path_less(hostpath::joined(dir, a), hostpath::joined(dir, b)),
    ensures
        hostpath::path_less(
            hostpath::joined(dir, a),
            hostpath::joined(hostpath::joined(dir, a), c),
        ),
        hostpath::path_less(
            hostpath::joined(hostpath::joined(dir, a), c),
            hostpath::joined(dir, b),
        ),
{
    let pa = hostpath::joined(dir, a);
    let pb = hostpath::joined(dir, b);
    let pc = hostpath::joined(pa, c);
    hostpath::lemma_joined_part(dir, Part::Name(a));
    hostpath::lemma_joined_part(dir, Part::Name(b));
    assert(pa.len() > 0);
    hostpath::lemma_joined_part(pa, Part::Name(c));
    let x = hostpath::path_key(pa);
    let y = hostpath::path_key(pb);
    let z = hostpath::path_key(pc);
    assert forall|i: int| 0 <= i < x.len() implies x[i] == z[i] by {
        assert(hostpath::components(pa).push(Part::Name(c))[i] == hostpath::components(pa)[i]);
    }
    assert(order::list_less_at(x, z, x.len() as int));
    let k = choose|k: int| order::list_less_at(x, y, k);
    assert(x.len() == y.len());
    assert(order::list_less_at(z, y, k));
}

} // verus!
