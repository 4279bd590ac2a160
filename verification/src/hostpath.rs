//! Unix paths as byte strings: taking them apart, joining and ordering them.

use crate::order;
use crate::order::Comparison;
use crate::outside;
use crate::text;
use vstd::prelude::*;
use vstd::string::*;
use vstd::utf8::*;

verus! {

/// The separator of a path.
pub const SLASH: u8 = 0x2f;

/// The byte of which `.` and `..` are made.
pub const DOT: u8 = 0x2e;

/// A path on the host, as the bytes that the kernel uses for it.
#[derive(Debug)]
pub struct HostPath {
    pub bytes: Vec<u8>,
}

impl View for HostPath {
    type V = Seq<u8>;

    open spec fn view(&self) -> Seq<u8> {
        self.bytes@
    }
}

impl Clone for HostPath {
    fn clone(&self) -> (r: HostPath)
        ensures
            r@ == self@,
    {
        HostPath { bytes: copy_bytes(self.bytes.as_slice()) }
    }
}

/// The bytes of each path of a list.
pub open spec fn paths(list: Seq<HostPath>) -> Seq<Seq<u8>> {
    list.map_values(|p: HostPath| p@)
}

/// What an optional path holds.
pub open spec fn opt_path(p: Option<HostPath>) -> Option<Seq<u8>> {
    match p {
        Some(p) => Some(p@),
        None => None,
    }
}

/// One part of a path, in the sense of `std::path::Component`.
pub enum Part {
    Root,
    Current,
    Parent,
    Name(Seq<u8>),
}

/// One part of a path.
#[derive(Debug)]
pub enum PathComponent {
    RootDir,
    CurDir,
    ParentDir,
    Normal(Vec<u8>),
}

impl View for PathComponent {
    type V = Part;

    open spec fn view(&self) -> Part {
        match self {
            PathComponent::RootDir => Part::Root,
            PathComponent::CurDir => Part::Current,
            PathComponent::ParentDir => Part::Parent,
            PathComponent::Normal(b) => Part::Name(b@),
        }
    }
}

/// What each component of a list stands for.
pub open spec fn parts(list: Seq<PathComponent>) -> Seq<Part> {
    list.map_values(|c: PathComponent| c@)
}

/// A path is absolute when it starts at the root.
pub open spec fn is_absolute(p: Seq<u8>) -> bool {
    p.len() > 0 && p[0] == SLASH
}

/// `rel` seen from the directory `base`: an absolute `rel` stands for itself,
/// any other is appended behind a single separator.
pub open spec fn joined(base: Seq<u8>, rel: Seq<u8>) -> Seq<u8> {
    if is_absolute(rel) {
        rel
    } else if base.len() > 0 && base.last() != SLASH {
        base.push(SLASH) + rel
    } else {
        base + rel
    }
}

/// The part that a piece between two separators stands for, if any: an empty
/// piece and `.` stand for nothing.
pub open spec fn named_parts(pieces: Seq<Seq<u8>>) -> Seq<Part>
    decreases pieces.len(),
{
    if pieces.len() == 0 {
        Seq::empty()
    } else {
        let head = named_parts(pieces.drop_last());
        let piece = pieces.last();
        if piece == Seq::<u8>::empty() || piece == seq![DOT] {
            head
        } else if piece == seq![DOT, DOT] {
            head.push(Part::Parent)
        } else {
            head.push(Part::Name(piece))
        }
    }
}

/// What a path begins with: the root, or a leading `.`.
pub open spec fn leading_part(p: Seq<u8>) -> Seq<Part> {
    if is_absolute(p) {
        seq![Part::Root]
    } else if text::split_on(p, SLASH)[0] == seq![DOT] {
        seq![Part::Current]
    } else {
        Seq::empty()
    }
}

/// The parts of a path. Repeated and trailing separators disappear, and so does
/// every `.` but one at the very front.
pub open spec fn components(p: Seq<u8>) -> Seq<Part> {
    leading_part(p) + named_parts(text::split_on(p, SLASH))
}

/// How a part is written.
pub open spec fn part_text(part: Part) -> Seq<u8> {
    match part {
        Part::Root => seq![SLASH],
        Part::Current => seq![DOT],
        Part::Parent => seq![DOT, DOT],
        Part::Name(b) => b,
    }
}

/// The path that is made of the given parts.
pub open spec fn assembled(list: Seq<Part>) -> Seq<u8>
    decreases list.len(),
{
    if list.len() == 0 {
        Seq::empty()
    } else {
        joined(assembled(list.drop_last()), part_text(list.last()))
    }
}

/// `..` stands only in front, and there is no `.`.
pub open spec fn is_reduced(list: Seq<Part>) -> bool {
    &&& forall|i: int| 0 <= i < list.len() ==> !(#[trigger] list[i] is Current)
    &&& forall|i: int, j: int|
        0 <= i <= j < list.len() && (#[trigger] list[j]) is Parent ==> (
        #[trigger] list[i]) is Parent
}

/// A path in its shortest lexical form: no repeated or trailing separator, no
/// `.` unless that is all of it, and `..` only in front of a relative path.
pub open spec fn is_clean(p: Seq<u8>) -> bool {
    let list = components(p);
    &&& p == assembled(list)
    &&& list.len() > 0
    &&& list == seq![Part::Current] || is_reduced(list)
}

/// The parts that are left once every `.` is taken out, and every `..` together
/// with the name in front of it, or alone where it follows the root.
pub open spec fn reduced(list: Seq<Part>) -> Seq<Part>
    decreases list.len(),
{
    if list.len() == 0 {
        Seq::empty()
    } else {
        let head = reduced(list.drop_last());
        match list.last() {
            Part::Current => head,
            Part::Parent => if head.len() > 0 && head.last() is Root {
                head
            } else if head.len() > 0 && head.last() is Name {
                head.drop_last()
            } else {
                head.push(Part::Parent)
            },
            part => head.push(part),
        }
    }
}

/// The shortest lexical form of a path.
pub open spec fn cleaned(p: Seq<u8>) -> Seq<u8> {
    let list = reduced(components(p));
    if list.len() == 0 {
        seq![DOT]
    } else {
        assembled(list)
    }
}

/// A single name: not empty, without a separator, neither `.` nor `..`.
pub open spec fn is_plain_name(n: Seq<u8>) -> bool {
    &&& n.len() > 0
    &&& forall|i: int| 0 <= i < n.len() ==> #[trigger] n[i] != SLASH
    &&& n != seq![DOT]
    &&& n != seq![DOT, DOT]
}

/// The last part of a path, where that is a name.
pub open spec fn file_name(p: Seq<u8>) -> Option<Seq<u8>> {
    let list = components(p);
    if list.len() > 0 && list.last() is Name {
        Some(list.last()->Name_0)
    } else {
        None
    }
}

/// Where the last dot of `b` is, or -1 if there is none.
pub open spec fn last_dot(b: Seq<u8>) -> int
    decreases b.len(),
{
    if b.len() == 0 {
        -1
    } else if b.last() == DOT {
        b.len() - 1
    } else {
        last_dot(b.drop_last())
    }
}

/// What follows the last dot of the file name, unless that dot is missing or
/// is the first byte of the name.
pub open spec fn extension(p: Seq<u8>) -> Option<Seq<u8>> {
    match file_name(p) {
        Some(b) => if last_dot(b) <= 0 {
            None
        } else {
            Some(b.subrange(last_dot(b) + 1, b.len() as int))
        },
        None => None,
    }
}

/// The text of a path that is valid UTF-8.
pub open spec fn path_text(p: Seq<u8>) -> Option<Seq<char>> {
    if valid_utf8(p) {
        Some(decode_utf8(p))
    } else {
        None
    }
}

/// A part as a word: parts are ordered as root, `.`, `..`, names; names by
/// their bytes.
pub open spec fn part_key(part: Part) -> Seq<int> {
    match part {
        Part::Root => seq![0int],
        Part::Current => seq![1int],
        Part::Parent => seq![2int],
        Part::Name(b) => seq![3int] + b.map_values(|x: u8| x as int),
    }
}

/// The list of words by which paths are ordered.
pub open spec fn path_key(p: Seq<u8>) -> Seq<Seq<int>> {
    components(p).map_values(|part: Part| part_key(part))
}

/// The order of paths, part by part.
pub open spec fn path_less(a: Seq<u8>, b: Seq<u8>) -> bool {
    order::list_less(path_key(a), path_key(b))
}

/// A copy of `b`.
pub fn copy_bytes(b: &[u8]) -> (r: Vec<u8>)
    ensures
        r@ == b@,
{
    let mut r: Vec<u8> = Vec::new();
    let mut i: usize = 0;
    while i < b.len()
        invariant
            i <= b.len(),
            r@ == b@.take(i as int),
        decreases b.len() - i,
    {
        r.push(b[i]);
        i = i + 1;
        assert(r@ =~= b@.take(i as int));
    }
    assert(b@.take(b@.len() as int) =~= b@);
    r
}

/// The pieces between the separators.
pub fn split_bytes(s: &Vec<u8>, sep: u8) -> (r: Vec<Vec<u8>>)
    ensures
        text::contents(r@) == text::split_on(s@, sep),
{
    let mut done: Vec<Vec<u8>> = Vec::new();
    let mut current: Vec<u8> = Vec::new();
    let mut i: usize = 0;
    assert(text::contents(done@).push(current@) =~= text::split_on(s@.take(0), sep));
    while i < s.len()
        invariant
            i <= s.len(),
            text::contents(done@).push(current@) == text::split_on(s@.take(i as int), sep),
        decreases s.len() - i,
    {
        let c = s[i];
        let ghost before = text::contents(done@);
        let ghost piece = current@;
        assert(s@.take(i + 1).drop_last() =~= s@.take(i as int));
        assert(s@.take(i + 1).last() == c);
        if c == sep {
            done.push(current);
            current = Vec::new();
            assert(text::contents(done@) =~= before.push(piece));
        } else {
            current.push(c);
            assert(before.push(piece).drop_last() =~= before);
        }
        i = i + 1;
    }
    assert(s@.take(s@.len() as int) =~= s@);
    let ghost before = text::contents(done@);
    let ghost piece = current@;
    done.push(current);
    assert(text::contents(done@) =~= before.push(piece));
    done
}

fn is_dot(b: &Vec<u8>) -> (r: bool)
    ensures
        r == (b@ == seq![DOT]),
{
    let r = b.len() == 1 && b[0] == DOT;
    assert(r ==> b@ =~= seq![DOT]);
    r
}

fn is_dot_dot(b: &Vec<u8>) -> (r: bool)
    ensures
        r == (b@ == seq![DOT, DOT]),
{
    let r = b.len() == 2 && b[0] == DOT && b[1] == DOT;
    assert(r ==> b@ =~= seq![DOT, DOT]);
    r
}

fn compare_bytes(a: &Vec<u8>, b: &Vec<u8>) -> (r: Comparison)
    ensures
        ({
            let x = a@.map_values(|v: u8| v as int);
            let y = b@.map_values(|v: u8| v as int);
            match r {
                Comparison::Less => order::word_less(x, y),
                Comparison::Equal => a@ == b@,
                Comparison::Greater => order::word_less(y, x),
            }
        }),
{
    let ghost x = a@.map_values(|v: u8| v as int);
    let ghost y = b@.map_values(|v: u8| v as int);
    let mut i: usize = 0;
    while i < a.len() && i < b.len()
        invariant
            i <= a.len(),
            i <= b.len(),
            x == a@.map_values(|v: u8| v as int),
            y == b@.map_values(|v: u8| v as int),
            forall|k: int| 0 <= k < i ==> a@[k] == b@[k],
        decreases a.len() - i,
    {
        if a[i] < b[i] {
            assert(order::word_less_at(x, y, i as int));
            return Comparison::Less;
        }
        if b[i] < a[i] {
            assert(order::word_less_at(y, x, i as int));
            return Comparison::Greater;
        }
        i = i + 1;
    }
    if i < b.len() {
        assert(order::word_less_at(x, y, i as int));
        Comparison::Less
    } else if i < a.len() {
        assert(order::word_less_at(y, x, i as int));
        Comparison::Greater
    } else {
        assert(a@ =~= b@);
        Comparison::Equal
    }
}

fn part_rank(c: &PathComponent) -> (r: u8)
    ensures
        part_key(c@).len() > 0,
        r == part_key(c@)[0],
{
    match c {
        PathComponent::RootDir => 0,
        PathComponent::CurDir => 1,
        PathComponent::ParentDir => 2,
        PathComponent::Normal(_) => 3,
    }
}

proof fn lemma_name_order(x: Seq<int>, y: Seq<int>)
    requires
        order::word_less(x, y),
    ensures
        order::word_less(seq![3int] + x, seq![3int] + y),
{
    let k = choose|k: int| order::word_less_at(x, y, k);
    let a = seq![3int] + x;
    let b = seq![3int] + y;
    assert forall|i: int| 0 <= i < k + 1 implies a[i] == b[i] by {
        if i > 0 {
            assert(a[i] == x[i - 1]);
            assert(b[i] == y[i - 1]);
        }
    }
    assert(order::word_less_at(a, b, k + 1));
}

fn compare_parts(a: &PathComponent, b: &PathComponent) -> (r: Comparison)
    ensures
        match r {
            Comparison::Less => order::word_less(part_key(a@), part_key(b@)),
            Comparison::Equal => a@ == b@,
            Comparison::Greater => order::word_less(part_key(b@), part_key(a@)),
        },
{
    let m: u8 = part_rank(a);
    let n: u8 = part_rank(b);
    if m < n {
        assert(order::word_less_at(part_key(a@), part_key(b@), 0));
        return Comparison::Less;
    }
    if n < m {
        assert(order::word_less_at(part_key(b@), part_key(a@), 0));
        return Comparison::Greater;
    }
    match (a, b) {
        (PathComponent::Normal(x), PathComponent::Normal(y)) => {
            let r = compare_bytes(x, y);
            proof {
                let p = x@.map_values(|v: u8| v as int);
                let q = y@.map_values(|v: u8| v as int);
                if r is Less {
                    lemma_name_order(p, q);
                }
                if r is Greater {
                    lemma_name_order(q, p);
                }
            }
            r
        },
        _ => Comparison::Equal,
    }
}

/// Different parts have different words.
pub proof fn lemma_part_key_injective(a: Part, b: Part)
    requires
        part_key(a) == part_key(b),
    ensures
        a == b,
{
    let rank = |part: Part|
        match part {
            Part::Root => 0,
            Part::Current => 1,
            Part::Parent => 2,
            Part::Name(_) => 3int,
        };
    assert(part_key(a)[0] == rank(a));
    assert(part_key(b)[0] == rank(b));
    match (a, b) {
        (Part::Name(x), Part::Name(y)) => {
            assert(part_key(a).len() == x.len() + 1);
            assert(part_key(b).len() == y.len() + 1);
            assert forall|i: int| 0 <= i < x.len() implies x[i] == y[i] by {
                assert(part_key(a)[i + 1] == x[i] as int);
                assert(part_key(b)[i + 1] == y[i] as int);
            }
            assert(x =~= y);
        },
        _ => {},
    }
}

/// Paths that the order does not tell apart have the same parts.
pub proof fn lemma_path_key_injective(a: Seq<u8>, b: Seq<u8>)
    requires
        path_key(a) == path_key(b),
    ensures
        components(a) == components(b),
{
    let x = components(a);
    let y = components(b);
    assert(path_key(a).len() == x.len());
    assert(path_key(b).len() == y.len());
    assert forall|i: int| 0 <= i < x.len() implies x[i] == y[i] by {
        assert(path_key(a)[i] == part_key(x[i]));
        assert(path_key(b)[i] == part_key(y[i]));
        lemma_part_key_injective(x[i], y[i]);
    }
    assert(x =~= y);
}

/// Of clean paths each list of parts has one spelling: two clean paths that the
/// order does not tell apart are the same path.
pub proof fn lemma_clean_paths_spelled_once(a: Seq<u8>, b: Seq<u8>)
    requires
        is_clean(a),
        is_clean(b),
        path_key(a) == path_key(b),
    ensures
        a == b,
{
    lemma_path_key_injective(a, b);
}

/// No piece of a split holds the separator.
proof fn lemma_pieces_lack_separator(s: Seq<u8>, i: int, j: int)
    requires
        0 <= i < text::split_on(s, SLASH).len(),
        0 <= j < text::split_on(s, SLASH)[i].len(),
    ensures
        text::split_on(s, SLASH)[i][j] != SLASH,
    decreases s.len(),
{
    if s.len() > 0 {
        let head = text::split_on(s.drop_last(), SLASH);
        text::lemma_split_nonempty(s.drop_last(), SLASH);
        if s.last() == SLASH {
            if i < head.len() {
                lemma_pieces_lack_separator(s.drop_last(), i, j);
            }
        } else if i < head.len() - 1 {
            lemma_pieces_lack_separator(s.drop_last(), i, j);
        } else if j < head.last().len() {
            lemma_pieces_lack_separator(s.drop_last(), i, j);
        }
    }
}

/// What stands behind a separator, and holds none itself, is the last piece.
proof fn lemma_split_append(b: Seq<u8>, n: Seq<u8>)
    requires
        forall|i: int| 0 <= i < n.len() ==> #[trigger] n[i] != SLASH,
    ensures
        text::split_on(b.push(SLASH) + n, SLASH) == text::split_on(b, SLASH).push(n),
    decreases n.len(),
{
    let whole = b.push(SLASH) + n;
    if n.len() == 0 {
        assert(whole =~= b.push(SLASH));
        assert(b.push(SLASH).drop_last() =~= b);
        assert(n =~= Seq::empty());
    } else {
        let front = n.drop_last();
        assert forall|i: int| 0 <= i < front.len() implies #[trigger] front[i] != SLASH by {
            assert(front[i] == n[i]);
        }
        lemma_split_append(b, front);
        assert(whole.drop_last() =~= b.push(SLASH) + front);
        assert(whole.last() == n[n.len() - 1]);
        let head = text::split_on(b, SLASH);
        assert(head.push(front).drop_last() =~= head);
        assert(front.push(n.last()) =~= n);
    }
}

/// What holds no separator is a single piece.
pub proof fn lemma_split_single(n: Seq<u8>)
    requires
        forall|i: int| 0 <= i < n.len() ==> #[trigger] n[i] != SLASH,
    ensures
        text::split_on(n, SLASH) == seq![n],
    decreases n.len(),
{
    if n.len() == 0 {
        assert(n =~= Seq::empty());
    } else {
        let front = n.drop_last();
        assert forall|i: int| 0 <= i < front.len() implies #[trigger] front[i] != SLASH by {
            assert(front[i] == n[i]);
        }
        lemma_split_single(front);
        assert(n.last() == n[n.len() - 1]);
        assert(seq![front].drop_last() =~= Seq::empty());
        assert(front.push(n.last()) =~= n);
        assert(Seq::<Seq<u8>>::empty().push(n) =~= seq![n]);
    }
}

/// A part that can follow another: a plain name, or `..`.
pub open spec fn is_later_part(part: Part) -> bool {
    match part {
        Part::Name(b) => is_plain_name(b),
        Part::Parent => true,
        _ => false,
    }
}

/// A part that is joined to a path becomes its last part.
pub proof fn lemma_joined_part(dir: Seq<u8>, part: Part)
    requires
        dir.len() > 0,
        is_later_part(part),
    ensures
        components(joined(dir, part_text(part))) == components(dir).push(part),
{
    let name = part_text(part);
    let whole = joined(dir, name);
    assert(name[0] != SLASH);
    text::lemma_split_nonempty(dir, SLASH);
    assert(forall|i: int| 0 <= i < name.len() ==> #[trigger] name[i] != SLASH);
    assert(name != seq![DOT]) by {
        if part is Parent {
            assert(name.len() == 2);
        }
    }
    if dir.last() != SLASH {
        lemma_split_append(dir, name);
        let pieces = text::split_on(dir, SLASH);
        assert(pieces.push(name).drop_last() =~= pieces);
        assert(pieces.push(name)[0] == pieces[0]);
        assert(whole[0] == dir[0]);
    } else {
        let top = dir.drop_last();
        lemma_split_append(top, name);
        assert(whole =~= top.push(SLASH) + name);
        let pieces = text::split_on(top, SLASH);
        text::lemma_split_nonempty(top, SLASH);
        assert(pieces.push(name).drop_last() =~= pieces);
        assert(pieces.push(Seq::<u8>::empty()).drop_last() =~= pieces);
        assert(pieces.push(name)[0] == pieces[0]);
        assert(pieces.push(Seq::<u8>::empty())[0] == pieces[0]);
        assert(whole[0] == dir[0]);
    }
    assert(components(whole) =~= components(dir).push(part));
}

/// Parts that make up a path without `.`: the root at most in front, plain names.
pub open spec fn is_part_list(list: Seq<Part>) -> bool {
    forall|i: int|
        0 <= i < list.len() ==> (is_later_part(#[trigger] list[i]) || (i == 0 && list[i] is Root))
}

/// Taking apart undoes putting together.
pub proof fn lemma_assembled_parts(list: Seq<Part>)
    requires
        is_part_list(list),
        list.len() > 0,
    ensures
        components(assembled(list)) == list,
        assembled(list).len() > 0,
    decreases list.len(),
{
    let head = list.drop_last();
    let part = list.last();
    assert(part == list[list.len() - 1]);
    let name = part_text(part);
    if list.len() == 1 {
        assert(head =~= Seq::empty());
        assert(assembled(list) =~= name);
        if part is Root {
            assert(seq![SLASH].drop_last() =~= Seq::<u8>::empty());
            reveal_with_fuel(text::split_on, 2);
            reveal_with_fuel(named_parts, 3);
            let pieces = text::split_on(name, SLASH);
            assert(pieces =~= seq![Seq::<u8>::empty(), Seq::<u8>::empty()]);
            assert(pieces.drop_last() =~= seq![Seq::<u8>::empty()]);
            assert(pieces.drop_last().drop_last() =~= Seq::empty());
            assert(components(name) =~= seq![Part::Root]);
        } else {
            assert(forall|i: int| 0 <= i < name.len() ==> #[trigger] name[i] != SLASH);
            assert(name != seq![DOT]) by {
                if part is Parent {
                    assert(name.len() == 2);
                }
            }
            lemma_split_single(name);
            let pieces = text::split_on(name, SLASH);
            reveal_with_fuel(named_parts, 2);
            assert(pieces.drop_last() =~= Seq::empty());
            assert(name[0] != SLASH);
            assert(components(name) =~= seq![part]);
        }
        assert(list =~= seq![part]);
    } else {
        assert forall|i: int| 0 <= i < head.len() implies (is_later_part(#[trigger] head[i]) || (i
            == 0 && head[i] is Root)) by {
            assert(head[i] == list[i]);
        }
        lemma_assembled_parts(head);
        lemma_joined_part(assembled(head), part);
        assert(list =~= head.push(part));
    }
}

/// The pieces of a path stand for parts that can follow another.
proof fn lemma_named_parts(pieces: Seq<Seq<u8>>)
    requires
        forall|i: int, j: int|
            0 <= i < pieces.len() && 0 <= j < pieces[i].len() ==> #[trigger] pieces[i][j] != SLASH,
    ensures
        forall|i: int|
            0 <= i < named_parts(pieces).len() ==> is_later_part(#[trigger] named_parts(pieces)[i]),
    decreases pieces.len(),
{
    if pieces.len() > 0 {
        let head = pieces.drop_last();
        assert forall|i: int, j: int|
            0 <= i < head.len() && 0 <= j < head[i].len() implies #[trigger] head[i][j]
            != SLASH by {
            assert(head[i][j] == pieces[i][j]);
        }
        lemma_named_parts(head);
        let piece = pieces.last();
        assert forall|j: int| 0 <= j < piece.len() implies #[trigger] piece[j] != SLASH by {
            assert(pieces[pieces.len() - 1][j] == piece[j]);
        }
        if piece.len() == 0 {
            assert(piece =~= Seq::<u8>::empty());
        }
        let before = named_parts(head);
        let all = named_parts(pieces);
        assert forall|i: int| 0 <= i < all.len() implies is_later_part(#[trigger] all[i]) by {
            if i < before.len() {
                assert(all[i] == before[i]);
            }
        }
    }
}

/// The parts of a path: the root or a `.` at most in front, then names and `..`.
pub proof fn lemma_components(p: Seq<u8>)
    ensures
        forall|i: int|
            0 <= i < components(p).len() ==> is_later_part(#[trigger] components(p)[i]) || (i == 0 && (
            components(p)[i] is Root || components(p)[i] is Current)),
        is_absolute(p) == (components(p).len() > 0 && components(p)[0] is Root),
        (leading_part(p) == seq![Part::Current]) == (components(p).len() > 0 && components(p)[0]
            is Current),
{
    let pieces = text::split_on(p, SLASH);
    assert forall|i: int, j: int|
        0 <= i < pieces.len() && 0 <= j < pieces[i].len() implies #[trigger] pieces[i][j]
        != SLASH by {
        lemma_pieces_lack_separator(p, i, j);
    }
    lemma_named_parts(pieces);
    let lead = leading_part(p);
    let rest = named_parts(pieces);
    assert forall|i: int| 0 <= i < components(p).len() implies is_later_part(
        #[trigger] components(p)[i],
    ) || (i == 0 && (components(p)[i] is Root || components(p)[i] is Current)) by {
        if i >= lead.len() {
            assert(components(p)[i] == rest[i - lead.len()]);
        }
    }
    if lead.len() == 0 && rest.len() > 0 {
        assert(components(p)[0] == rest[0]);
    }
    assert(lead.len() == 1 ==> lead =~= seq![lead[0]]);
}

/// What is left of the parts of a path makes up a path again.
proof fn lemma_reduced(list: Seq<Part>)
    requires
        forall|i: int|
            0 <= i < list.len() ==> is_later_part(#[trigger] list[i]) || (i == 0 && (list[i] is Root
                || list[i] is Current)),
    ensures
        is_part_list(reduced(list)),
        is_reduced(reduced(list)),
        (list.len() > 0 && list[0] is Root) == (reduced(list).len() > 0 && reduced(list)[0] is Root),
    decreases list.len(),
{
    if list.len() > 0 {
        let front = list.drop_last();
        assert forall|i: int| 0 <= i < front.len() implies is_later_part(#[trigger] front[i]) || (i
            == 0 && (front[i] is Root || front[i] is Current)) by {
            assert(front[i] == list[i]);
        }
        lemma_reduced(front);
        let head = reduced(front);
        let part = list.last();
        assert(part == list[list.len() - 1]);
        if front.len() > 0 {
            assert(front[0] == list[0]);
        }
        let all = reduced(list);
        if part is Root {
            assert(list.len() == 1);
            assert(front.len() == 0);
            assert(all =~= seq![Part::Root]);
        } else if part is Current {
        } else if part is Parent && head.len() > 0 && head.last() is Name {
            if head[0] is Root {
                assert(head.len() > 1);
                assert(all[0] == head[0]);
            } else if all.len() > 0 {
                assert(all[0] == head[0]);
            }
        } else if part is Parent && !(head.len() > 0 && head.last() is Root) {
            assert(head.len() > 0 ==> head[head.len() - 1] is Parent) by {
                if head.len() > 0 {
                    assert(is_later_part(head[head.len() - 1]) || head[head.len() - 1] is Root);
                }
            }
            assert forall|i: int, j: int|
                0 <= i <= j < all.len() && (#[trigger] all[j]) is Parent implies (
            #[trigger] all[i]) is Parent by {
                if i < head.len() {
                    assert(head[head.len() - 1] is Parent);
                    assert(head[i] is Parent);
                    assert(all[i] == head[i]);
                }
            }
        } else {
            assert forall|i: int, j: int|
                0 <= i <= j < all.len() && (#[trigger] all[j]) is Parent implies (
            #[trigger] all[i]) is Parent by {
                if j < head.len() {
                    assert(all[j] == head[j]);
                    assert(all[i] == head[i]);
                }
            }
        }
    }
}

/// The parts of `.`.
proof fn lemma_dot()
    ensures
        components(seq![DOT]) == seq![Part::Current],
        assembled(seq![Part::Current]) == seq![DOT],
{
    let dot = seq![DOT];
    assert(forall|i: int| 0 <= i < dot.len() ==> #[trigger] dot[i] != SLASH);
    lemma_split_single(dot);
    reveal_with_fuel(named_parts, 2);
    assert(seq![dot].drop_last() =~= Seq::empty());
    assert(components(dot) =~= seq![Part::Current]);
    reveal_with_fuel(assembled, 2);
    assert(seq![Part::Current].drop_last() =~= Seq::empty());
    assert(Seq::<u8>::empty() + dot =~= dot);
}

/// Cleaning gives a clean path, which is absolute when the path was.
pub proof fn lemma_cleaned(p: Seq<u8>)
    ensures
        is_clean(cleaned(p)),
        is_absolute(cleaned(p)) == is_absolute(p),
{
    let list = reduced(components(p));
    lemma_components(p);
    lemma_reduced(components(p));
    if list.len() == 0 {
        lemma_dot();
    } else {
        lemma_assembled_parts(list);
        lemma_components(assembled(list));
    }
}

/// Where nothing has to be taken out, nothing is.
pub proof fn lemma_reduced_stays(list: Seq<Part>)
    requires
        is_reduced(list),
    ensures
        reduced(list) == list,
    decreases list.len(),
{
    if list.len() == 0 {
        assert(list =~= Seq::empty());
    } else {
        let front = list.drop_last();
        let part = list.last();
        assert(part == list[list.len() - 1]);
        assert forall|i: int| 0 <= i < front.len() implies !(#[trigger] front[i] is Current) by {
            assert(front[i] == list[i]);
        }
        assert forall|i: int, j: int|
            0 <= i <= j < front.len() && (#[trigger] front[j]) is Parent implies (
        #[trigger] front[i]) is Parent by {
            assert(front[j] == list[j]);
            assert(front[i] == list[i]);
        }
        lemma_reduced_stays(front);
        if part is Parent && front.len() > 0 {
            assert(list[front.len() - 1] is Parent);
            assert(front.last() == list[front.len() - 1]);
        }
        assert(front.push(part) =~= list);
    }
}

/// Cleaning leaves a clean path as it is.
pub proof fn lemma_clean_stays(p: Seq<u8>)
    requires
        is_clean(p),
    ensures
        cleaned(p) == p,
{
    let list = components(p);
    if list == seq![Part::Current] {
        lemma_dot();
        reveal_with_fuel(reduced, 2);
        assert(list.drop_last() =~= Seq::empty());
    } else {
        lemma_reduced_stays(list);
    }
}

impl HostPath {
    /// The path that a text names.
    pub fn from_text(s: &str) -> (r: HostPath)
        ensures
            r@ == encode_utf8(s@),
    {
        HostPath { bytes: copy_bytes(s.as_bytes()) }
    }

    /// Whether the path starts at the root.
    pub fn absolute(&self) -> (r: bool)
        ensures
            r == is_absolute(self@),
    {
        self.bytes.len() > 0 && self.bytes[0] == SLASH
    }

    /// `rel` seen from this directory.
    pub fn join(&self, rel: &HostPath) -> (r: HostPath)
        ensures
            r@ == joined(self@, rel@),
    {
        if rel.absolute() {
            return rel.clone();
        }
        let mut bytes = copy_bytes(self.bytes.as_slice());
        if bytes.len() > 0 && bytes[bytes.len() - 1] != SLASH {
            bytes.push(SLASH);
        }
        let ghost front = bytes@;
        let mut i: usize = 0;
        while i < rel.bytes.len()
            invariant
                i <= rel.bytes.len(),
                bytes@ == front + rel.bytes@.take(i as int),
            decreases rel.bytes.len() - i,
        {
            bytes.push(rel.bytes[i]);
            i = i + 1;
            assert(bytes@ =~= front + rel.bytes@.take(i as int));
        }
        assert(rel.bytes@.take(rel.bytes@.len() as int) =~= rel.bytes@);
        HostPath { bytes }
    }

    /// The path in its shortest lexical form.
    pub fn clean(&self) -> (r: HostPath)
        ensures
            r@ == cleaned(self@),
            is_clean(r@),
            is_absolute(r@) == is_absolute(self@),
    {
        proof {
            lemma_cleaned(self@);
        }
        HostPath { bytes: outside::clean_bytes(self.bytes.as_slice()) }
    }

    /// The parts of the path.
    pub fn components(&self) -> (r: Vec<PathComponent>)
        ensures
            parts(r@) == components(self@),
    {
        let pieces = split_bytes(&self.bytes, SLASH);
        let ghost all = text::split_on(self@, SLASH);
        proof {
            text::lemma_split_nonempty(self@, SLASH);
            assert(text::contents(pieces@)[0] == pieces@[0]@);
        }
        let mut r: Vec<PathComponent> = Vec::new();
        if self.absolute() {
            r.push(PathComponent::RootDir);
        } else if is_dot(&pieces[0]) {
            r.push(PathComponent::CurDir);
        }
        assert(parts(r@) =~= leading_part(self@) + named_parts(all.take(0)));
        let mut i: usize = 0;
        while i < pieces.len()
            invariant
                i <= pieces.len(),
                text::contents(pieces@) == all,
                pieces.len() == all.len(),
                parts(r@) == leading_part(self@) + named_parts(all.take(i as int)),
            decreases pieces.len() - i,
        {
            let ghost before = r@;
            let piece = &pieces[i];
            assert(all[i as int] == piece@);
            assert(all.take(i + 1).drop_last() =~= all.take(i as int));
            assert(all.take(i + 1).last() == piece@);
            if piece.len() == 0 {
                assert(piece@ =~= Seq::<u8>::empty());
            } else if is_dot(piece) {
            } else if is_dot_dot(piece) {
                r.push(PathComponent::ParentDir);
                assert(parts(r@) =~= parts(before).push(Part::Parent));
            } else {
                r.push(PathComponent::Normal(copy_bytes(piece.as_slice())));
                assert(parts(r@) =~= parts(before).push(Part::Name(piece@)));
            }
            i = i + 1;
            assert(parts(r@) =~= leading_part(self@) + named_parts(all.take(i as int)));
        }
        assert(all.take(all.len() as int) =~= all);
        r
    }

    /// How many parts the path has.
    pub fn depth(&self) -> (r: usize)
        ensures
            r == components(self@).len(),
    {
        let r = self.components();
        assert(parts(r@).len() == r@.len());
        r.len()
    }

    /// The last part, where that is a name.
    pub fn file_name(&self) -> (r: Option<Vec<u8>>)
        ensures
            match r {
                Some(b) => file_name(self@) == Some(b@),
                None => file_name(self@) is None,
            },
    {
        let mut list = self.components();
        let ghost all = parts(list@);
        match list.pop() {
            Some(PathComponent::Normal(b)) => {
                assert(all.last() == Part::Name(b@));
                Some(b)
            },
            Some(c) => {
                assert(all.last() == c@);
                None
            },
            None => None,
        }
    }

    /// What follows the last dot of the file name.
    pub fn extension(&self) -> (r: Option<Vec<u8>>)
        ensures
            match r {
                Some(e) => extension(self@) == Some(e@),
                None => extension(self@) is None,
            },
    {
        let name = match self.file_name() {
            Some(b) => b,
            None => {
                return None;
            },
        };
        let mut n: usize = name.len();
        assert(name@.take(n as int) =~= name@);
        while n > 0 && name[n - 1] != DOT
            invariant
                n <= name.len(),
                last_dot(name@) == last_dot(name@.take(n as int)),
            decreases n,
        {
            assert(name@.take(n as int).drop_last() =~= name@.take(n - 1));
            n = n - 1;
        }
        if n <= 1 {
            return None;
        }
        let mut e: Vec<u8> = Vec::new();
        let mut i: usize = n;
        while i < name.len()
            invariant
                n <= i <= name.len(),
                e@ == name@.subrange(n as int, i as int),
            decreases name.len() - i,
        {
            e.push(name[i]);
            i = i + 1;
            assert(e@ =~= name@.subrange(n as int, i as int));
        }
        Some(e)
    }

    /// The text of the path, where it is valid UTF-8.
    pub fn to_text(&self) -> (r: Option<&str>)
        ensures
            match r {
                Some(s) => path_text(self@) == Some(s@),
                None => path_text(self@) is None,
            },
    {
        let r = outside::utf8_text(self.bytes.as_slice());
        proof {
            if let Some(s) = r {
                encode_utf8_decode_utf8(s@);
            }
        }
        r
    }

    /// The path as it is shown: what is not UTF-8 is replaced.
    pub fn display(&self) -> (r: String)
        ensures
            r@ == text::shown(self@),
    {
        text::show_bytes(self.bytes.as_slice())
    }

    /// How this path and `other` are ordered.
    pub fn compare(&self, other: &HostPath) -> (r: Comparison)
        ensures
            (r is Less) == path_less(self@, other@),
            (r is Equal) == (components(self@) == components(other@)),
            (r is Greater) == path_less(other@, self@),
    {
        let a = self.components();
        let b = other.components();
        let ghost x = path_key(self@);
        let ghost y = path_key(other@);
        let mut i: usize = 0;
        let mut r = Comparison::Equal;
        assert(parts(a@).len() == a@.len());
        assert(parts(b@).len() == b@.len());
        while i < a.len() && i < b.len() && r == Comparison::Equal
            invariant
                i <= a.len(),
                i <= b.len(),
                x == path_key(self@),
                y == path_key(other@),
                parts(a@) == components(self@),
                parts(b@) == components(other@),
                a@.len() == x.len(),
                b@.len() == y.len(),
                r is Equal ==> forall|k: int| 0 <= k < i ==> parts(a@)[k] == parts(b@)[k],
                r is Less ==> order::list_less(x, y),
                r is Greater ==> order::list_less(y, x),
            decreases a.len() - i,
        {
            r = compare_parts(&a[i], &b[i]);
            proof {
                assert(parts(a@)[i as int] == a@[i as int]@);
                assert(parts(b@)[i as int] == b@[i as int]@);
                assert(forall|k: int| 0 <= k < i ==> x[k] == y[k]);
                if r is Less {
                    assert(order::list_less_at(x, y, i as int));
                }
                if r is Greater {
                    assert(order::list_less_at(y, x, i as int));
                }
            }
            i = i + 1;
        }
        if r == Comparison::Equal {
            assert(forall|k: int| 0 <= k < i ==> x[k] == y[k]);
            if i < b.len() {
                r = Comparison::Less;
                assert(order::list_less_at(x, y, i as int));
            } else if i < a.len() {
                r = Comparison::Greater;
                assert(order::list_less_at(y, x, i as int));
            } else {
                assert(components(self@) =~= components(other@));
            }
        }
        proof {
            order::lemma_list_irreflexive(x);
            order::lemma_list_irreflexive(y);
            if order::list_less(x, y) && order::list_less(y, x) {
                order::lemma_list_transitive(x, y, x);
            }
        }
        r
    }
}

} // verus!
