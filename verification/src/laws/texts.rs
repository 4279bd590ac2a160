//! What holds of trimmed texts, numbers and shown bytes.

use crate::text;
use crate::text::{decimal_text, signed_text};
use vstd::prelude::*;
use vstd::string::*;
use vstd::utf8::*;

verus! {

proof fn lemma_front(a: Seq<char>, s: Seq<char>)
    requires
        forall|i: int| 0 <= i < a.len() ==> text::is_white(#[trigger] a[i]),
        s.len() > 0 ==> !text::is_white(s.first()),
    ensures
        text::trim_front(a + s) == s,
    decreases a.len(),
{
    let whole = a + s;
    if a.len() == 0 {
        assert(whole =~= s);
    } else {
        let tail = a.drop_first();
        assert(whole.first() == a[0]);
        assert(whole.drop_first() =~= tail + s);
        assert forall|i: int| 0 <= i < tail.len() implies text::is_white(#[trigger] tail[i]) by {
            assert(tail[i] == a[i + 1]);
        }
        lemma_front(tail, s);
    }
}

proof fn lemma_back(s: Seq<char>, b: Seq<char>)
    requires
        forall|i: int| 0 <= i < b.len() ==> text::is_white(#[trigger] b[i]),
        s.len() > 0 ==> !text::is_white(s.last()),
    ensures
        text::trim_back(s + b) == s,
    decreases b.len(),
{
    let whole = s + b;
    if b.len() == 0 {
        assert(whole =~= s);
    } else {
        let tail = b.drop_last();
        assert(whole.last() == b[b.len() - 1]);
        assert(whole.drop_last() =~= s + tail);
        lemma_back(s, tail);
    }
}

/// Trimming takes the white space at both ends and nothing else.
pub proof fn law_trimming_takes_the_ends(a: Seq<char>, s: Seq<char>, b: Seq<char>)
    requires
        forall|i: int| 0 <= i < a.len() ==> text::is_white(#[trigger] a[i]),
        forall|i: int| 0 <= i < b.len() ==> text::is_white(#[trigger] b[i]),
        s.len() > 0 ==> !text::is_white(s.first()) && !text::is_white(s.last()),
    ensures
        text::trimmed(a + s + b) == s,
{
    if s.len() > 0 {
        assert((s + b).first() == s.first());
        assert(a + s + b =~= a + (s + b));
        lemma_front(a, s + b);
        lemma_back(s, b);
    } else {
        let white = a + b;
        assert(a + s + b =~= white + s);
        assert forall|i: int| 0 <= i < white.len() implies text::is_white(#[trigger] white[i]) by {
            if i >= a.len() {
                assert(white[i] == b[i - a.len()]);
            }
        }
        lemma_front(white, s);
    }
}

/// The number that decimal digits stand for.
pub open spec fn digits_value(s: Seq<char>) -> nat
    decreases s.len(),
{
    if s.len() == 0 {
        0
    } else {
        10 * digits_value(s.drop_last()) + (s.last() as u32 - '0' as u32) as nat
    }
}

/// A number is written in digits that stand for it, with no zero in front.
pub proof fn law_numbers_read_back(n: nat)
    ensures
        digits_value(text::decimal(n)) == n,
        text::decimal(n).len() > 0,
        forall|i: int| 0 <= i < text::decimal(n).len() ==> '0' <= #[trigger] text::decimal(n)[i] <= '9',
        n > 0 ==> text::decimal(n)[0] != '0',
    decreases n,
{
    let s = text::decimal(n);
    if n < 10 {
        assert(s.drop_last() =~= Seq::empty());
        assert(s.last() as u32 == 48 + n);
        reveal_with_fuel(digits_value, 2);
    } else {
        law_numbers_read_back(n / 10);
        let head = text::decimal(n / 10);
        assert(s.drop_last() =~= head);
        assert(s.last() as u32 == 48 + n % 10);
        assert forall|i: int| 0 <= i < s.len() implies '0' <= #[trigger] s[i] <= '9' by {
            if i < head.len() {
                assert(s[i] == head[i]);
            }
        }
        assert(s[0] == head[0]);
    }
}

/// What is written of a number is its digits, behind a sign only where it is negative.
pub proof fn law_numbers_are_written_in_decimal(n: u64, m: i32, r: String, q: String)
    requires
        call_ensures(decimal_text, (n,), r),
        call_ensures(signed_text, (m,), q),
    ensures
        digits_value(r@) == n,
        m >= 0 ==> digits_value(q@) == m,
        m < 0 ==> q@.len() > 1 && q@[0] == '-' && digits_value(q@.skip(1)) == -m,
{
    law_numbers_read_back(n as nat);
    if m >= 0 {
        law_numbers_read_back(m as nat);
    } else {
        law_numbers_read_back((-m) as nat);
        assert(q@.skip(1) =~= text::decimal((-m) as nat));
    }
}

/// What is shown of bytes that are UTF-8 is their text, which names them exactly.
pub proof fn law_shown_bytes_name_themselves(p: Seq<u8>)
    requires
        valid_utf8(p),
    ensures
        encode_utf8(text::shown(p)) == p,
{
    decode_utf8_encode_utf8(p);
}

} // verus!
