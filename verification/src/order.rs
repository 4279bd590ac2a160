//! Lexicographic order on words and on lists of words.

use vstd::prelude::*;

verus! {

/// How two values compare.
#[derive(Clone, Copy, Debug, PartialEq, Eq, Structural)]
pub enum Comparison {
    Less,
    Equal,
    Greater,
}

/// `a` and `b` agree before position `k`, and at `k` the word `a` ends first or
/// holds the smaller letter.
pub open spec fn word_less_at(a: Seq<int>, b: Seq<int>, k: int) -> bool {
    &&& 0 <= k <= a.len()
    &&& k < b.len()
    &&& forall|i: int| 0 <= i < k ==> a[i] == b[i]
    &&& k < a.len() ==> a[k] < b[k]
}

/// Lexicographic order on words.
pub open spec fn word_less(a: Seq<int>, b: Seq<int>) -> bool {
    exists|k: int| word_less_at(a, b, k)
}

/// `a` and `b` agree before position `k`, and at `k` the list `a` ends first or
/// holds the smaller word.
pub open spec fn list_less_at(a: Seq<Seq<int>>, b: Seq<Seq<int>>, k: int) -> bool {
    &&& 0 <= k <= a.len()
    &&& k < b.len()
    &&& forall|i: int| 0 <= i < k ==> a[i] == b[i]
    &&& k < a.len() ==> word_less(a[k], b[k])
}

/// Lexicographic order on lists of words.
pub open spec fn list_less(a: Seq<Seq<int>>, b: Seq<Seq<int>>) -> bool {
    exists|k: int| list_less_at(a, b, k)
}

/// No word comes before itself.
pub proof fn lemma_word_irreflexive(a: Seq<int>)
    ensures
        !word_less(a, a),
{
}

/// The order on words is transitive.
pub proof fn lemma_word_transitive(a: Seq<int>, b: Seq<int>, c: Seq<int>)
    requires
        word_less(a, b),
        word_less(b, c),
    ensures
        word_less(a, c),
{
    let j = choose|k: int| word_less_at(a, b, k);
    let k = choose|k: int| word_less_at(b, c, k);
    let m = if j < k {
        j
    } else {
        k
    };
    assert(word_less_at(a, c, m));
}

/// Any two words are equal or ordered.
pub proof fn lemma_word_total(a: Seq<int>, b: Seq<int>)
    ensures
        a == b || word_less(a, b) || word_less(b, a),
{
    lemma_word_total_from(a, b, 0);
}

proof fn lemma_word_total_from(a: Seq<int>, b: Seq<int>, k: int)
    requires
        0 <= k <= a.len(),
        k <= b.len(),
        forall|i: int| 0 <= i < k ==> a[i] == b[i],
    ensures
        a == b || word_less(a, b) || word_less(b, a),
    decreases a.len() - k,
{
    if k == a.len() || k == b.len() || a[k] != b[k] {
        if k == a.len() && k == b.len() {
            assert(a =~= b);
        } else {
            assert(word_less_at(a, b, k) || word_less_at(b, a, k));
        }
    } else {
        lemma_word_total_from(a, b, k + 1);
    }
}

/// No list comes before itself.
pub proof fn lemma_list_irreflexive(a: Seq<Seq<int>>)
    ensures
        !list_less(a, a),
{
    if list_less(a, a) {
        let k = choose|k: int| list_less_at(a, a, k);
        lemma_word_irreflexive(a[k]);
    }
}

/// The order on lists is transitive.
pub proof fn lemma_list_transitive(a: Seq<Seq<int>>, b: Seq<Seq<int>>, c: Seq<Seq<int>>)
    requires
        list_less(a, b),
        list_less(b, c),
    ensures
        list_less(a, c),
{
    let j = choose|k: int| list_less_at(a, b, k);
    let k = choose|k: int| list_less_at(b, c, k);
    let m = if j < k {
        j
    } else {
        k
    };
    if j == k && j < a.len() {
        lemma_word_transitive(a[j], b[j], c[j]);
    }
    assert(list_less_at(a, c, m));
}

/// Any two lists are equal or ordered.
pub proof fn lemma_list_total(a: Seq<Seq<int>>, b: Seq<Seq<int>>)
    ensures
        a == b || list_less(a, b) || list_less(b, a),
{
    lemma_list_total_from(a, b, 0);
}

proof fn lemma_list_total_from(a: Seq<Seq<int>>, b: Seq<Seq<int>>, k: int)
    requires
        0 <= k <= a.len(),
        k <= b.len(),
        forall|i: int| 0 <= i < k ==> a[i] == b[i],
    ensures
        a == b || list_less(a, b) || list_less(b, a),
    decreases a.len() - k,
{
    if k == a.len() || k == b.len() || a[k] != b[k] {
        if k == a.len() && k == b.len() {
            assert(a =~= b);
        } else {
            if k < a.len() && k < b.len() {
                lemma_word_total(a[k], b[k]);
            }
            assert(list_less_at(a, b, k) || list_less_at(b, a, k));
        }
    } else {
        lemma_list_total_from(a, b, k + 1);
    }
}

} // verus!
