//! What the string functions of `std` do, in terms of characters and bytes.

use crate::report;
use std::cmp::Ordering;
use std::hash::Hash;
use std::hash::Hasher;
use vstd::prelude::*;

verus! {

/// The number of bytes that the text takes in UTF-8.
pub open spec fn byte_len(text: Seq<char>) -> nat {
    vstd::utf8::encode_utf8(text).len()
}

/// The lexicographic order of two byte strings.
pub open spec fn byte_order(a: Seq<u8>, b: Seq<u8>) -> Ordering
    decreases a.len(),
{
    if a.len() == 0 {
        if b.len() == 0 {
            Ordering::Equal
        } else {
            Ordering::Less
        }
    } else if b.len() == 0 {
        Ordering::Greater
    } else if a[0] < b[0] {
        Ordering::Less
    } else if a[0] > b[0] {
        Ordering::Greater
    } else {
        byte_order(a.drop_first(), b.drop_first())
    }
}

/// The order of two texts: that of their bytes.
pub open spec fn text_order(a: Seq<char>, b: Seq<char>) -> Ordering {
    byte_order(vstd::utf8::encode_utf8(a), vstd::utf8::encode_utf8(b))
}

/// `str::from_utf8`: the text that the bytes encode, if they are valid UTF-8.
#[verifier::external_body]
pub(crate) fn decode(bytes: &[u8]) -> (text: Option<&str>)
    ensures
        text is Some <==> vstd::utf8::valid_utf8(bytes@),
        text matches Some(chars) ==> chars@ == vstd::utf8::decode_utf8(bytes@),
{
    std::str::from_utf8(bytes).ok()
}

/// `char::encode_utf8`: the character as a text of its own, held in `scratch`.
/// Four bytes are enough for every character.
#[verifier::external_body]
pub(crate) fn encode(value: char, scratch: &mut [u8; 4]) -> (text: &str)
    ensures
        text@ == seq![value],
{
    value.encode_utf8(scratch)
}

/// `==` on `str`: whether the two are the same text.
#[verifier::external_body]
pub(crate) fn same(a: &str, b: &str) -> (same: bool)
    ensures
        same == (a@ == b@),
{
    a == b
}

/// `Ord::cmp` on `str`, which orders strings lexicographically by their byte
/// values.
#[verifier::external_body]
pub(crate) fn compare(a: &str, b: &str) -> (order: Ordering)
    ensures
        order == text_order(a@, b@),
{
    a.cmp(b)
}

/// `String::with_capacity`: an empty string with room for `capacity` bytes. More
/// than `isize::MAX` bytes cannot be had.
#[verifier::external_body]
pub(crate) fn with_room(capacity: usize) -> (text: String)
    requires
        capacity <= isize::MAX,
    ensures
        text@ == Seq::<char>::empty(),
{
    String::with_capacity(capacity)
}

/// `String::clear`: empties the string and keeps its allocation.
#[verifier::external_body]
pub(crate) fn clear(text: &mut String)
    ensures
        final(text)@ == Seq::<char>::empty(),
{
    text.clear()
}

/// `Hash::hash` on `str`: feeds the text to the hasher. What the hasher makes of
/// it is its own affair, so nothing is claimed.
#[verifier::external_body]
pub(crate) fn hash_str<H: Hasher>(text: &str, state: &mut H) {
    text.hash(state)
}

/// Whether `Hash::hash` was called on a `str` with this text, with this hasher.
pub closed spec fn hashed<H: Hasher>(chars: Seq<char>, state: &mut H) -> bool {
    exists|text: &str| #[trigger] call_ensures(hash_str::<H>, (text, state), ()) && text@ == chars
}

/// To have hashed a text is to have called `Hash::hash` on a `str` that is this text.
pub(crate) proof fn hashing_feeds_the_text<H: Hasher>(chars: Seq<char>, state: &mut H)
    ensures
        hashed(chars, state) <==> exists|text: &str| #[trigger]
            call_ensures(hash_str::<H>, (text, state), ()) && text@ == chars,
{
}

/// Feeds a text to a hasher.
pub(crate) fn hash<H: Hasher>(text: &str, state: &mut H)
    ensures
        exists|sink: &mut H| #[trigger]
            hashed(text@, sink) && *sink == *old(state) && *final(sink) == *final(state),
{
    report::call_two(hash_str::<H>, text, state);
    proof {
        let sink = choose|sink: &mut H| #[trigger]
            call_ensures(hash_str::<H>, (text, sink), ()) && *sink == *old(state) && *final(sink)
                == *final(state);
        assert(hashed(text@, sink));
    }
}

/// The length of a text in bytes is that of its UTF-8 encoding, it adds up, and every
/// character takes at least one byte and at most four.
pub proof fn byte_lengths_add_up(a: Seq<char>, b: Seq<char>)
    ensures
        byte_len(a) == vstd::utf8::encode_utf8(a).len(),
        byte_len(a + b) == byte_len(a) + byte_len(b),
        a.len() <= byte_len(a) <= 4 * a.len(),
    decreases a.len(),
{
    encode_concat(a, b);
    if a.len() > 0 {
        byte_lengths_add_up(a.drop_first(), b);
        let first = vstd::utf8::encode_scalar(a[0] as u32);
        assert(vstd::utf8::encode_utf8(a) == first + vstd::utf8::encode_utf8(a.drop_first()));
        assert(1 <= first.len() <= 4);
    }
}

/// Encoding distributes over concatenation.
pub proof fn encode_concat(a: Seq<char>, b: Seq<char>)
    ensures
        vstd::utf8::encode_utf8(a + b) == vstd::utf8::encode_utf8(a) + vstd::utf8::encode_utf8(b),
    decreases a.len(),
{
    if a.len() == 0 {
        assert(a + b =~= b);
        assert(vstd::utf8::encode_utf8(a) + vstd::utf8::encode_utf8(b)
            =~= vstd::utf8::encode_utf8(b));
    } else {
        encode_concat(a.drop_first(), b);
        assert((a + b).drop_first() =~= a.drop_first() + b);
        assert(vstd::utf8::encode_utf8(a + b) =~= vstd::utf8::encode_utf8(a)
            + vstd::utf8::encode_utf8(b));
    }
}

/// Only the empty text takes no bytes.
pub proof fn empty_text_has_no_bytes(chars: Seq<char>)
    ensures
        byte_len(chars) == 0 <==> chars.len() == 0,
{
    if chars.len() > 0 {
        let first = vstd::utf8::encode_scalar(chars[0] as u32);
        assert(vstd::utf8::encode_utf8(chars) == first + vstd::utf8::encode_utf8(
            chars.drop_first(),
        ));
        assert(first.len() > 0);
    }
}

/// Two texts compare as equal just if they are the same text.
pub proof fn order_agrees_with_equality(a: Seq<char>, b: Seq<char>)
    ensures
        text_order(a, b) == Ordering::Equal <==> a == b,
{
    bytes_equal(vstd::utf8::encode_utf8(a), vstd::utf8::encode_utf8(b));
    vstd::utf8::encode_utf8_decode_utf8(a);
    vstd::utf8::encode_utf8_decode_utf8(b);
}

/// The order of two texts is the lexicographic order of their UTF-8 bytes: one comes
/// before the other just if, behind what they have in common, it is at its end and the
/// other is not, or goes on with a smaller byte.
pub proof fn order_is_lexicographic(a: Seq<char>, b: Seq<char>)
    ensures
        ({
            let x = vstd::utf8::encode_utf8(a);
            let y = vstd::utf8::encode_utf8(b);
            &&& text_order(a, b) == Ordering::Less <==> exists|k: int|
                0 <= k <= x.len() && k <= y.len() && #[trigger] x.take(k) == y.take(k) && k
                    < y.len() && (k == x.len() || x[k] < y[k])
            &&& text_order(a, b) == Ordering::Greater <==> exists|k: int|
                0 <= k <= x.len() && k <= y.len() && #[trigger] y.take(k) == x.take(k) && k
                    < x.len() && (k == y.len() || y[k] < x[k])
        }),
{
    let x = vstd::utf8::encode_utf8(a);
    let y = vstd::utf8::encode_utf8(b);
    bytes_lexicographic(x, y);
    bytes_lexicographic(y, x);
    bytes_turn_round(y, x);
}

/// Swapping two texts turns their order round.
pub proof fn order_turns_round(a: Seq<char>, b: Seq<char>)
    ensures
        text_order(a, b) == Ordering::Less <==> text_order(b, a) == Ordering::Greater,
{
    bytes_turn_round(vstd::utf8::encode_utf8(a), vstd::utf8::encode_utf8(b));
}

/// A text before a second one that is before a third is before the third.
pub proof fn order_is_transitive(a: Seq<char>, b: Seq<char>, c: Seq<char>)
    requires
        text_order(a, b) == Ordering::Less,
        text_order(b, c) == Ordering::Less,
    ensures
        text_order(a, c) == Ordering::Less,
{
    bytes_transitive(
        vstd::utf8::encode_utf8(a),
        vstd::utf8::encode_utf8(b),
        vstd::utf8::encode_utf8(c),
    );
}

proof fn bytes_equal(a: Seq<u8>, b: Seq<u8>)
    ensures
        byte_order(a, b) == Ordering::Equal <==> a == b,
    decreases a.len(),
{
    if a.len() > 0 && b.len() > 0 {
        bytes_equal(a.drop_first(), b.drop_first());
        if a.drop_first() == b.drop_first() && a[0] == b[0] {
            assert(a =~= seq![a[0]] + a.drop_first());
            assert(b =~= seq![b[0]] + b.drop_first());
        }
    } else if a.len() == 0 && b.len() == 0 {
        assert(a =~= b);
    }
}

spec fn parts_at(x: Seq<u8>, y: Seq<u8>, k: int) -> bool {
    0 <= k <= x.len() && k <= y.len() && x.take(k) == y.take(k) && k < y.len() && (k == x.len()
        || x[k] < y[k])
}

proof fn bytes_lexicographic(x: Seq<u8>, y: Seq<u8>)
    ensures
        byte_order(x, y) == Ordering::Less <==> exists|k: int|
            0 <= k <= x.len() && k <= y.len() && #[trigger] x.take(k) == y.take(k) && k < y.len()
                && (k == x.len() || x[k] < y[k]),
    decreases x.len(),
{
    if byte_order(x, y) == Ordering::Less {
        if x.len() == 0 || x[0] < y[0] {
            assert(x.take(0) =~= y.take(0));
        } else {
            let (p, q) = (x.drop_first(), y.drop_first());
            bytes_lexicographic(p, q);
            let k = choose|k: int|
                0 <= k <= p.len() && k <= q.len() && #[trigger] p.take(k) == q.take(k) && k
                    < q.len() && (k == p.len() || p[k] < q[k]);
            assert(x.take(k + 1) =~= seq![x[0]] + p.take(k));
            assert(y.take(k + 1) =~= seq![y[0]] + q.take(k));
            assert(parts_at(x, y, k + 1));
        }
    } else if exists|k: int|
        0 <= k <= x.len() && k <= y.len() && #[trigger] x.take(k) == y.take(k) && k < y.len() && (k
            == x.len() || x[k] < y[k]) {
        let k = choose|k: int|
            0 <= k <= x.len() && k <= y.len() && #[trigger] x.take(k) == y.take(k) && k < y.len()
                && (k == x.len() || x[k] < y[k]);
        if k > 0 {
            assert(x[0] == x.take(k)[0]);
            assert(y[0] == y.take(k)[0]);
            let (p, q) = (x.drop_first(), y.drop_first());
            assert(p.take(k - 1) =~= x.take(k).drop_first());
            assert(q.take(k - 1) =~= y.take(k).drop_first());
            bytes_lexicographic(p, q);
        }
    }
}

proof fn bytes_turn_round(a: Seq<u8>, b: Seq<u8>)
    ensures
        byte_order(a, b) == Ordering::Less <==> byte_order(b, a) == Ordering::Greater,
    decreases a.len(),
{
    if a.len() > 0 && b.len() > 0 {
        bytes_turn_round(a.drop_first(), b.drop_first());
    }
}

proof fn bytes_transitive(a: Seq<u8>, b: Seq<u8>, c: Seq<u8>)
    requires
        byte_order(a, b) == Ordering::Less,
        byte_order(b, c) == Ordering::Less,
    ensures
        byte_order(a, c) == Ordering::Less,
    decreases a.len(),
{
    if a.len() > 0 && b.len() > 0 && c.len() > 0 && a[0] == b[0] && b[0] == c[0] {
        bytes_transitive(a.drop_first(), b.drop_first(), c.drop_first());
    }
}

} // verus!
