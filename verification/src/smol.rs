//! Strings that stay inline while they fit and spill to the heap beyond that.

use crate::bytes;
use crate::report;
use crate::text;
use std::borrow::Borrow;
use std::cmp::Ordering;
use std::fmt;
use std::hash::Hash;
use std::hash::Hasher;
use std::ops::Deref;
use vstd::prelude::*;
use vstd::std_specs::cmp::PartialEqSpec;
use vstd::std_specs::cmp::PartialEqSpecImpl;
use vstd::std_specs::cmp::PartialOrdSpec;
use vstd::std_specs::cmp::PartialOrdSpecImpl;
use vstd::std_specs::convert::FromSpecImpl;

verus! {

/// Content bytes held inline before a value spills to the heap.
///
/// The inline arm is one byte wider than this, holding the length, and the
/// discriminant brings the whole value to 64 bytes: one cache line.
pub const INLINE_BYTES: usize = 62;

enum Repr {
    Inline { bytes: [u8; INLINE_BYTES], len: u8 },
    Heap(String),
}

impl Repr {
    spec fn sound(&self) -> bool {
        match self {
            Repr::Inline { bytes, len } => {
                &&& len <= INLINE_BYTES
                &&& vstd::utf8::valid_utf8(bytes@.take(*len as int))
            },
            Repr::Heap(_) => true,
        }
    }

    spec fn text(&self) -> Seq<char> {
        match self {
            Repr::Inline { bytes, len } => vstd::utf8::decode_utf8(bytes@.take(*len as int)),
            Repr::Heap(heap) => heap@,
        }
    }

    fn new() -> (repr: Repr)
        ensures
            repr.sound(),
            repr is Inline,
            repr.text() == Seq::<char>::empty(),
    {
        let repr: Repr = Repr::Inline { bytes: [0u8; INLINE_BYTES], len: 0 };
        proof {
            repr.empty_prefix_is_empty_text();
        }
        repr
    }

    proof fn empty_prefix_is_empty_text(&self)
        requires
            self matches Repr::Inline { len, .. } && len == 0,
        ensures
            self.sound(),
            self.text() == Seq::<char>::empty(),
    {
        assert(self->bytes@.take(0) =~= Seq::<u8>::empty());
    }

    fn as_str(&self) -> (chars: &str)
        requires
            self.sound(),
        ensures
            chars@ == self.text(),
    {
        match self {
            Repr::Inline { bytes, len } => {
                // Only whole `&str` and `char` encodings are ever copied in, so
                // this prefix is always valid UTF-8.
                text::decode(
                    vstd::slice::slice_subrange(bytes.as_slice(), 0, *len as usize),
                ).expect("inline value holds UTF-8")
            },
            Repr::Heap(heap) => heap.as_str(),
        }
    }

    /// Returns `false` when `value` does not fit inline, leaving none of it
    /// behind.
    fn push_inline(&mut self, value: &str) -> (done: bool)
        requires
            old(self).sound(),
        ensures
            done == (*old(self) is Inline && text::byte_len(old(self).text()) + text::byte_len(
                value@,
            ) <= INLINE_BYTES),
            done ==> {
                &&& final(self).sound()
                &&& *final(self) is Inline
                &&& final(self).text() == old(self).text() + value@
            },
            !done ==> *final(self) == *old(self),
    {
        match self {
            Repr::Inline { bytes, len } => {
                let start: usize = *len as usize;
                let added: &[u8] = value.as_bytes();
                let ghost held = bytes@.take(start as int);
                proof {
                    vstd::utf8::decode_utf8_encode_utf8(held);
                }
                if added.len() > INLINE_BYTES - start {
                    return false;
                }
                let end: usize = start + added.len();
                bytes::overwrite(bytes, start, added);
                *len = end as u8;
                proof {
                    let before = vstd::utf8::decode_utf8(held);
                    assert(bytes@.take(end as int) =~= held + added@);
                    text::encode_concat(before, value@);
                    vstd::utf8::encode_utf8_valid_utf8(before + value@);
                    vstd::utf8::encode_utf8_decode_utf8(before + value@);
                }
                true
            },
            Repr::Heap(_) => false,
        }
    }

    /// Moves the bytes held inline to the heap, with `value` behind them, so that
    /// writing can continue there. A value that is on the heap already is left alone.
    fn spill(&mut self, value: &str)
        requires
            old(self).sound(),
        ensures
            *old(self) is Heap ==> *final(self) == *old(self),
            *old(self) is Inline ==> {
                &&& final(self).sound()
                &&& *final(self) is Heap
                &&& final(self).text() == old(self).text() + value@
            },
    {
        if let Repr::Heap(_) = self {
            return;
        }
        let held: &str = self.as_str();
        let len: usize = held.as_bytes().len();
        let added: usize = value.as_bytes().len();
        // Sized for exactly this write; later writes grow the `String`.
        let mut heap: String = if len <= isize::MAX as usize && added <= isize::MAX as usize - len {
            text::with_room(len + added)
        } else {
            String::new()
        };
        heap.append(held);
        heap.append(value);
        *self = Repr::Heap(heap);
        assert(self.text() =~= old(self).text() + value@);
    }

    fn push_str(&mut self, value: &str)
        requires
            old(self).sound(),
        ensures
            final(self).sound(),
            final(self).text() == old(self).text() + value@,
            *final(self) is Heap <==> (*old(self) is Heap || text::byte_len(old(self).text())
                + text::byte_len(value@) > INLINE_BYTES),
    {
        if let Repr::Heap(heap) = self {
            heap.append(value);
            return;
        }
        if !self.push_inline(value) {
            self.spill(value);
        }
    }
}

/// Whether a value ends up on the heap that held `held`, on the heap or not, and
/// to which `value` is appended.
pub open spec fn push_spills(spilled: bool, held: Seq<char>, value: Seq<char>) -> bool {
    spilled || text::byte_len(held) + text::byte_len(value) > SmolStr::INLINE_CAPACITY
}

/// A string that stays inline while it fits and spills to the heap past
/// [`SmolStr::INLINE_CAPACITY`] bytes, one 64-byte cache line wide whether or
/// not it has spilled.
///
/// Nothing is ever truncated, so a caller that needs a bounded field bounds it
/// itself. The inline arm copies its bytes rather than borrowing them, so a
/// value outlives the buffer it was read from.
///
/// Equality, ordering, and hashing compare the text and not the
/// representation, so the same content compares and hashes identically whether
/// it is inline or on the heap.
pub struct SmolStr(Repr);

impl View for SmolStr {
    type V = Seq<char>;

    /// The text.
    closed spec fn view(&self) -> Seq<char> {
        self.0.text()
    }
}

impl SmolStr {
    /// Content bytes stored inline before a value spills to the heap.
    pub const INLINE_CAPACITY: usize = INLINE_BYTES;

    #[verifier::type_invariant]
    closed spec fn sound(&self) -> bool {
        self.0.sound()
    }

    /// Whether the text is on the heap.
    pub closed spec fn spilled(&self) -> bool {
        self.0 is Heap
    }

    /// Whether `chars` is the text.
    pub open spec fn shows(&self, chars: &str) -> bool {
        chars@ == self@
    }

    /// Creates an empty value, which holds no allocation.
    #[must_use]
    pub fn new() -> (value: SmolStr)
        ensures
            value@ == Seq::<char>::empty(),
            !value.spilled(),
    {
        SmolStr(Repr::new())
    }

    /// Borrows the text.
    #[must_use]
    pub fn as_str(&self) -> (chars: &str)
        ensures
            chars@ == self@,
    {
        proof {
            use_type_invariant(self);
        }
        self.0.as_str()
    }

    /// Whether the value has spilled to the heap, named after
    /// [`EphemeralBytes::is_heap_allocated`](crate::EphemeralBytes::is_heap_allocated).
    #[must_use]
    pub fn is_heap_allocated(&self) -> (heap: bool)
        ensures
            heap == self.spilled(),
    {
        matches!(self.0, Repr::Heap(_))
    }

    /// Length of the text in bytes.
    #[must_use]
    pub fn len(&self) -> (len: usize)
        ensures
            len == text::byte_len(self@),
            len == vstd::utf8::encode_utf8(self@).len(),
            !self.spilled() ==> len <= SmolStr::INLINE_CAPACITY,
    {
        proof {
            use_type_invariant(self);
        }
        match &self.0 {
            Repr::Inline { bytes, len } => {
                proof {
                    vstd::utf8::decode_utf8_encode_utf8(bytes@.take(*len as int));
                }
                *len as usize
            },
            Repr::Heap(heap) => heap.as_str().as_bytes().len(),
        }
    }

    /// Whether there is no text.
    #[must_use]
    pub fn is_empty(&self) -> (empty: bool)
        ensures
            empty == (self@.len() == 0),
    {
        proof {
            text::empty_text_has_no_bytes(self@);
        }
        self.len() == 0
    }

    /// Appends `value`, moving the bytes already held to the heap when they no
    /// longer fit inline. The write that spills is served by one allocation.
    pub fn push_str(&mut self, value: &str)
        ensures
            final(self)@ == old(self)@ + value@,
            final(self).spilled() == push_spills(old(self).spilled(), old(self)@, value@),
    {
        proof {
            use_type_invariant(&*self);
        }
        let mut repr: Repr = Repr::new();
        std::mem::swap(&mut self.0, &mut repr);
        repr.push_str(value);
        self.0 = repr;
    }

    /// Appends one character, spilling like [`push_str`](Self::push_str).
    ///
    /// A character is never split across the boundary: one that crosses it
    /// spills the value rather than writing a partial encoding.
    pub fn push_char(&mut self, value: char)
        ensures
            final(self)@ == old(self)@.push(value),
            final(self).spilled() == push_spills(old(self).spilled(), old(self)@, seq![value]),
    {
        let mut scratch: [u8; 4] = [0u8; 4];
        self.push_str(text::encode(value, &mut scratch));
        assert(self@ =~= old(self)@.push(value));
    }

    /// Empties the value, keeping any heap allocation for reuse.
    pub fn clear(&mut self)
        ensures
            final(self)@ == Seq::<char>::empty(),
            final(self).spilled() == old(self).spilled(),
    {
        let mut repr: Repr = Repr::new();
        std::mem::swap(&mut self.0, &mut repr);
        if let Repr::Heap(heap) = &mut repr {
            text::clear(heap);
            self.0 = repr;
        }
    }

    /// Compares the texts, as `<` and `partial_cmp` do.
    #[must_use]
    pub fn order(&self, other: &SmolStr) -> (order: Ordering)
        ensures
            order == text::text_order(self@, other@),
            order == Ordering::Equal <==> self@ == other@,
    {
        proof {
            text::order_agrees_with_equality(self@, other@);
        }
        text::compare(self.as_str(), other.as_str())
    }
}

impl Default for SmolStr {
    fn default() -> (value: SmolStr)
        ensures
            value@ == Seq::<char>::empty(),
            !value.spilled(),
    {
        SmolStr::new()
    }
}

impl Clone for SmolStr {
    fn clone(&self) -> (value: SmolStr)
        ensures
            value@ == self@,
            value.spilled() == self.spilled(),
    {
        proof {
            use_type_invariant(self);
        }
        match &self.0 {
            Repr::Inline { bytes, len } => SmolStr(Repr::Inline { bytes: *bytes, len: *len }),
            Repr::Heap(heap) => SmolStr(Repr::Heap(heap.clone())),
        }
    }
}

impl From<&str> for SmolStr {
    fn from(value: &str) -> (result: SmolStr)
        ensures
            result@ == value@,
            result.spilled() == (text::byte_len(value@) > SmolStr::INLINE_CAPACITY),
    {
        let mut out: SmolStr = SmolStr::new();
        out.push_str(value);
        assert(out@ =~= value@);
        out
    }
}

impl FromSpecImpl<&str> for SmolStr {
    open spec fn obeys_from_spec() -> bool {
        false
    }

    open spec fn from_spec(value: &str) -> SmolStr {
        arbitrary()
    }
}

impl From<String> for SmolStr {
    fn from(value: String) -> (result: SmolStr)
        ensures
            result@ == value@,
            result.spilled() == (text::byte_len(value@) > SmolStr::INLINE_CAPACITY),
    {
        if value.as_str().as_bytes().len() > INLINE_BYTES {
            // Already on the heap and already the right shape: move it.
            return SmolStr(Repr::Heap(value));
        }
        SmolStr::from(value.as_str())
    }
}

impl FromSpecImpl<String> for SmolStr {
    open spec fn obeys_from_spec() -> bool {
        false
    }

    open spec fn from_spec(value: String) -> SmolStr {
        arbitrary()
    }
}

impl From<&String> for SmolStr {
    fn from(value: &String) -> (result: SmolStr)
        ensures
            result@ == value@,
            result.spilled() == (text::byte_len(value@) > SmolStr::INLINE_CAPACITY),
    {
        SmolStr::from(value.as_str())
    }
}

impl FromSpecImpl<&String> for SmolStr {
    open spec fn obeys_from_spec() -> bool {
        false
    }

    open spec fn from_spec(value: &String) -> SmolStr {
        arbitrary()
    }
}

impl Deref for SmolStr {
    type Target = str;

    fn deref(&self) -> (chars: &str)
        ensures
            chars@ == self@,
    {
        self.as_str()
    }
}

impl AsRef<str> for SmolStr {
    fn as_ref(&self) -> (chars: &str)
        ensures
            chars@ == self@,
    {
        self.as_str()
    }
}

/// Lets a `HashMap<SmolStr, _>` be read with a `&str` key.
impl Borrow<str> for SmolStr {
    fn borrow(&self) -> (chars: &str)
        ensures
            self.shows(chars),
    {
        self.as_str()
    }
}

/// Displayed as the text is.
impl fmt::Display for SmolStr {
    fn fmt(&self, formatter: &mut fmt::Formatter<'_>) -> (done: fmt::Result)
        ensures
            exists|sink: &mut fmt::Formatter<'_>| #[trigger]
                report::displayed(self@, sink, done) && *sink == *old(formatter) && *final(sink)
                    == *final(formatter),
    {
        report::display(self.as_str(), formatter)
    }
}

/// Displayed for debugging as the text is.
impl fmt::Debug for SmolStr {
    fn fmt(&self, formatter: &mut fmt::Formatter<'_>) -> (done: fmt::Result)
        ensures
            exists|sink: &mut fmt::Formatter<'_>| #[trigger]
                report::debugged(self@, sink, done) && *sink == *old(formatter) && *final(sink)
                    == *final(formatter),
    {
        report::debug(self.as_str(), formatter)
    }
}

/// Never fails: text that does not fit inline spills to the heap.
impl fmt::Write for SmolStr {
    fn write_str(&mut self, value: &str) -> (done: fmt::Result)
        ensures
            done is Ok,
            final(self)@ == old(self)@ + value@,
            final(self).spilled() == push_spills(old(self).spilled(), old(self)@, value@),
    {
        self.push_str(value);
        Ok(())
    }
}

impl PartialEq for SmolStr {
    fn eq(&self, other: &SmolStr) -> (same: bool)
        ensures
            same <==> self@ == other@,
    {
        text::same(self.as_str(), other.as_str())
    }
}

impl PartialEqSpecImpl for SmolStr {
    open spec fn obeys_eq_spec() -> bool {
        true
    }

    open spec fn eq_spec(&self, other: &SmolStr) -> bool {
        self@ == other@
    }
}

impl Eq for SmolStr {

}

impl PartialEq<str> for SmolStr {
    fn eq(&self, other: &str) -> (same: bool)
        ensures
            same <==> self@ == other@,
    {
        text::same(self.as_str(), other)
    }
}

impl PartialEqSpecImpl<str> for SmolStr {
    open spec fn obeys_eq_spec() -> bool {
        true
    }

    open spec fn eq_spec(&self, other: &str) -> bool {
        self@ == other@
    }
}

impl<'a> PartialEq<&'a str> for SmolStr {
    fn eq(&self, other: &&'a str) -> (same: bool)
        ensures
            same <==> self@ == other@,
    {
        text::same(self.as_str(), *other)
    }
}

impl<'a> PartialEqSpecImpl<&'a str> for SmolStr {
    open spec fn obeys_eq_spec() -> bool {
        true
    }

    open spec fn eq_spec(&self, other: &&'a str) -> bool {
        self@ == other@
    }
}

/// Hashed as the text is. Hashing the representation instead would place equal inline and heap values
/// in different buckets.
impl Hash for SmolStr {
    fn hash<H: Hasher>(&self, state: &mut H)
        ensures
            exists|sink: &mut H| #[trigger]
                text::hashed(self@, sink) && *sink == *old(state) && *final(sink) == *final(state),
    {
        text::hash(self.as_str(), state);
    }
}

impl PartialOrd for SmolStr {
    fn partial_cmp(&self, other: &SmolStr) -> (order: Option<Ordering>)
        ensures
            order == Some(text::text_order(self@, other@)),
            order == Some(Ordering::Equal) <==> self@ == other@,
    {
        Some(self.order(other))
    }
}

impl PartialOrdSpecImpl for SmolStr {
    open spec fn obeys_partial_cmp_spec() -> bool {
        true
    }

    open spec fn partial_cmp_spec(&self, other: &SmolStr) -> Option<Ordering> {
        Some(text::text_order(self@, other@))
    }
}

/// Appending two texts one after the other leaves the same text as appending
/// them in one go, on the heap in just the same cases.
pub proof fn pushes_compose(spilled: bool, held: Seq<char>, one: Seq<char>, two: Seq<char>)
    ensures
        (held + one) + two == held + (one + two),
        push_spills(push_spills(spilled, held, one), held + one, two) == push_spills(
            spilled,
            held,
            one + two,
        ),
{
    assert((held + one) + two =~= held + (one + two));
    text::encode_concat(held, one);
    text::encode_concat(one, two);
}

/// `==` holds just if the two texts are the same, whatever the representations and
/// whether the other side is a value or a plain `str`: two values with different texts
/// are never equal.
pub proof fn equality_is_of_the_text(a: SmolStr, b: SmolStr, c: &str)
    ensures
        <SmolStr as PartialEqSpec<SmolStr>>::obeys_eq_spec(),
        <SmolStr as PartialEqSpec<str>>::obeys_eq_spec(),
        <SmolStr as PartialEqSpec<&str>>::obeys_eq_spec(),
        PartialEqSpec::eq_spec(&a, &b) <==> a@ == b@,
        PartialEqSpec::eq_spec(&a, c) <==> a@ == c@,
        PartialEqSpec::eq_spec(&a, &c) <==> a@ == c@,
{
}

/// Whether `partial_cmp` returns what its specification says.
pub open spec fn compares_as_specified<A: PartialOrdSpec>() -> bool {
    A::obeys_partial_cmp_spec()
}

/// What `partial_cmp` returns, and with it `<` and `>`, is a total order of the texts
/// that agrees with `==`: of two values one is less, or one is greater, or they are
/// equal, and that is so just if their texts are the same; turning the two round turns
/// the answer round; and what is less than a lesser one is less.
pub proof fn comparison_orders_the_texts(a: SmolStr, b: SmolStr, c: SmolStr)
    ensures
        compares_as_specified::<SmolStr>(),
        PartialOrdSpec::partial_cmp_spec(&a, &b) is Some,
        PartialOrdSpec::partial_cmp_spec(&a, &b) == Some(Ordering::Equal) <==> a@ == b@,
        PartialOrdSpec::partial_cmp_spec(&a, &b) == Some(Ordering::Equal)
            <==> PartialEqSpec::eq_spec(&a, &b),
        PartialOrdSpec::partial_cmp_spec(&a, &b) == Some(Ordering::Greater)
            <==> PartialOrdSpec::partial_cmp_spec(&b, &a) == Some(Ordering::Less),
        PartialOrdSpec::partial_cmp_spec(&a, &b) == Some(Ordering::Less)
            && PartialOrdSpec::partial_cmp_spec(&b, &c) == Some(Ordering::Less)
            ==> PartialOrdSpec::partial_cmp_spec(&a, &c) == Some(Ordering::Less),
{
    text::order_agrees_with_equality(a@, b@);
    text::order_turns_round(a@, b@);
    text::order_turns_round(b@, a@);
    if PartialOrdSpec::partial_cmp_spec(&a, &b) == Some(Ordering::Less)
        && PartialOrdSpec::partial_cmp_spec(&b, &c) == Some(Ordering::Less) {
        text::order_is_transitive(a@, b@, c@);
    }
}

/// What `partial_cmp` returns is the lexicographic order of the UTF-8 bytes of the two
/// texts: one is less just if, behind what they have in common, it is at its end and
/// the other is not, or goes on with a smaller byte.
pub proof fn comparison_is_lexicographic(a: SmolStr, b: SmolStr)
    ensures
        ({
            let x = vstd::utf8::encode_utf8(a@);
            let y = vstd::utf8::encode_utf8(b@);
            &&& PartialOrdSpec::partial_cmp_spec(&a, &b) == Some(Ordering::Less)
                <==> exists|k: int|
                0 <= k <= x.len() && k <= y.len() && #[trigger] x.take(k) == y.take(k) && k
                    < y.len() && (k == x.len() || x[k] < y[k])
            &&& PartialOrdSpec::partial_cmp_spec(&a, &b) == Some(Ordering::Greater)
                <==> exists|k: int|
                0 <= k <= x.len() && k <= y.len() && #[trigger] y.take(k) == x.take(k) && k
                    < x.len() && (k == y.len() || y[k] < x[k])
        }),
{
    text::order_is_lexicographic(a@, b@);
}

/// To show a text is to be that text.
pub proof fn showing_is_being_the_text(a: SmolStr, chars: &str)
    ensures
        a.shows(chars) <==> chars@ == a@,
{
}

/// Appending takes a value to the heap just if it is there already or its bytes and
/// the new ones together are more than the inline capacity: nothing that fits spills,
/// and nothing comes back.
pub proof fn only_what_does_not_fit_spills(spilled: bool, held: Seq<char>, value: Seq<char>)
    ensures
        spilled ==> push_spills(spilled, held, value),
        !spilled ==> (push_spills(spilled, held, value) <==> vstd::utf8::encode_utf8(held).len()
            + vstd::utf8::encode_utf8(value).len() > 62),
        SmolStr::INLINE_CAPACITY == 62,
{
}

} // verus!
