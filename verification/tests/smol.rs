use brz_ds::SmolStr;
use std::borrow::Borrow;
use std::cmp::Ordering;
use std::collections::hash_map::DefaultHasher;
use std::collections::HashMap;
use std::fmt::Write;
use std::hash::{Hash, Hasher};
use std::mem::size_of;

const CAPACITY: usize = SmolStr::INLINE_CAPACITY;

fn text(len: usize) -> String {
    "x".repeat(len)
}

fn digest(value: &impl Hash) -> u64 {
    let mut hasher = DefaultHasher::new();
    value.hash(&mut hasher);
    hasher.finish()
}

#[test]
fn the_value_is_one_cache_line_wide() {
    assert_eq!(
        SmolStr::INLINE_CAPACITY,
        62,
        "the inline arm carries a length byte"
    );
    assert_eq!(size_of::<SmolStr>(), 64, "one cache line");
}

#[test]
fn values_are_inline_until_they_pass_the_capacity() {
    for len in [0, 1, CAPACITY - 1, CAPACITY] {
        let value = SmolStr::from(text(len).as_str());
        assert!(!value.is_heap_allocated(), "{len} bytes must stay inline");
        assert_eq!(value.as_str().len(), len);
    }

    let value = SmolStr::from(text(CAPACITY + 1).as_str());
    assert!(value.is_heap_allocated());
    assert_eq!(value.len(), CAPACITY + 1);
}

#[test]
fn a_character_is_never_split_across_the_boundary() {
    let mut value = SmolStr::from(text(CAPACITY - 1).as_str());
    // Two bytes, and only one byte of room: the value spills whole.
    value.push_char('é');
    assert!(value.is_heap_allocated());

    let mut value = SmolStr::from(text(CAPACITY - 2).as_str());
    value.push_char('é');
    assert!(!value.is_heap_allocated());
    assert_eq!(value.as_str().chars().next_back(), Some('é'));
}

#[test]
fn writing_past_the_capacity_keeps_every_byte() {
    let mut value = SmolStr::new();
    for _ in 0..40 {
        value.push_str("abcd");
    }
    assert!(value.is_heap_allocated());
    assert_eq!(value.as_str().len(), 160);
    assert_eq!(value.as_str(), "abcd".repeat(40));
}

#[test]
fn write_never_fails_and_extends_a_spilled_value() {
    let mut value = SmolStr::from(text(CAPACITY + 4).as_str());
    value
        .write_str(&format!("-{}", 7))
        .expect("writing into a spilled value");
    assert!(value.is_heap_allocated());
    assert!(value.as_str().ends_with("-7"));
}

#[test]
fn equal_content_compares_and_hashes_the_same_in_both_arms() {
    let short = SmolStr::from("abc");
    let long = SmolStr::from(text(CAPACITY + 8).as_str());
    let long_again = SmolStr::from(long.as_str().to_owned());

    assert_eq!(short, "abc");
    assert_eq!(long, long_again);
    assert_eq!(digest(&long), digest(&long_again));
    assert_eq!(digest(&short), digest(&SmolStr::from("abc")));

    let mut map = HashMap::new();
    map.insert(long.clone(), 1);
    assert_eq!(map.get(long.as_str()), Some(&1));
}

#[test]
fn clone_and_clear_keep_the_text_that_is_expected() {
    let mut value = SmolStr::from(text(CAPACITY + 8).as_str());
    let clone = value.clone();
    assert_eq!(value, clone);

    value.clear();
    assert!(value.is_empty());
    assert!(value.is_heap_allocated(), "clear keeps the allocation");

    let mut inline = SmolStr::from("abc");
    inline.clear();
    assert!(inline.is_empty());
    assert!(!inline.is_heap_allocated());
}

#[test]
fn a_long_string_is_moved_into_the_heap_instead_of_copied() {
    let owned = text(CAPACITY + 1);
    let address = owned.as_ptr();
    let value = SmolStr::from(owned);
    assert!(value.is_heap_allocated());
    assert_eq!(value.as_str().as_ptr(), address, "the buffer is reused");
}

#[test]
fn ordering_follows_the_text() {
    let mut values = [
        SmolStr::from(text(CAPACITY + 2).as_str()),
        SmolStr::from("abc"),
        SmolStr::from("abd"),
    ];
    values.sort_by(SmolStr::order);
    assert_eq!(values[0], "abc");
    assert_eq!(values[1], "abd");
}

#[test]
fn the_same_text_inline_and_on_the_heap_is_equal_and_hashes_the_same() {
    let inline = SmolStr::from("abc");
    let mut spilled = SmolStr::from(text(CAPACITY + 1).as_str());
    spilled.clear();
    spilled.push_str("abc");
    assert!(spilled.is_heap_allocated());
    assert!(!inline.is_heap_allocated());
    assert_eq!(inline, spilled);
    assert_eq!(inline.order(&spilled), Ordering::Equal);
    assert_eq!(digest(&inline), digest(&spilled));
    assert_eq!(digest(&inline), digest(&"abc"));
}

#[test]
fn a_value_that_cleared_on_the_heap_stays_there() {
    let mut value = SmolStr::from(text(CAPACITY + 1));
    value.clear();
    value.push_char('a');
    assert!(value.is_heap_allocated());
    assert_eq!(value.as_str(), "a");
    assert!(value.clone().is_heap_allocated());
}

#[test]
fn pushing_in_parts_ends_like_pushing_at_once() {
    for (one, two) in [(0, 0), (30, 32), (30, 33), (62, 0), (62, 1), (63, 0), (0, 63)] {
        let mut parts = SmolStr::from("é");
        parts.push_str(&text(one));
        parts.push_str(&text(two));
        let mut whole = SmolStr::from("é");
        whole.push_str(&text(one + two));
        assert_eq!(parts, whole);
        assert_eq!(parts.is_heap_allocated(), whole.is_heap_allocated());
        assert_eq!(parts.is_heap_allocated(), one + two + 2 > CAPACITY);
    }
}

#[test]
fn a_spill_keeps_the_text_on_both_sides_of_it() {
    let mut value = SmolStr::from("ä€😀");
    assert_eq!(value.len(), 9);
    value.push_str(&text(CAPACITY));
    assert!(value.is_heap_allocated());
    assert_eq!(value.len(), 9 + CAPACITY);
    assert!(value.as_str().starts_with("ä€😀x"));
}

#[test]
fn characters_of_every_width_go_in_whole() {
    let mut value = SmolStr::new();
    for (character, len) in [('a', 1), ('é', 3), ('€', 6), ('😀', 10)] {
        value.push_char(character);
        assert_eq!(value.len(), len);
    }
    assert_eq!(value.as_str(), "aé€😀");
}

#[test]
fn strings_of_both_kinds_convert() {
    for len in [0, 61, 62, 63] {
        let owned = text(len);
        let borrowed = SmolStr::from(&owned);
        let moved = SmolStr::from(owned.clone());
        assert_eq!(borrowed, moved);
        assert_eq!(borrowed.as_str(), owned);
        assert_eq!(borrowed.is_heap_allocated(), len > 62);
        assert_eq!(moved.is_heap_allocated(), len > 62);
    }
    assert!(SmolStr::default().is_empty());
}

#[test]
fn every_way_to_borrow_shows_the_text() {
    let value = SmolStr::from("abc");
    let deref: &str = &value;
    let borrowed: &str = value.borrow();
    let as_ref: &str = value.as_ref();
    assert_eq!(deref, "abc");
    assert_eq!(borrowed, "abc");
    assert_eq!(as_ref, "abc");
    assert!(value == *"abc");
    assert!(value != *"abd");
    assert!(value != "ab");
}

#[test]
fn display_and_debug_are_those_of_the_text() {
    let value = SmolStr::from("a\"b\n");
    assert_eq!(format!("{value}"), "a\"b\n");
    assert_eq!(format!("{value:?}"), "\"a\\\"b\\n\"");
    assert_eq!(format!("{:>6}", SmolStr::from("abc")), "   abc");
}

#[test]
fn order_is_that_of_the_bytes() {
    let a = SmolStr::from("ab");
    let b = SmolStr::from("b");
    let c = SmolStr::from("é");
    assert_eq!(a.order(&b), Ordering::Less);
    assert_eq!(b.order(&a), Ordering::Greater);
    assert_eq!(b.order(&c), Ordering::Less);
    assert_eq!(a.order(&c), Ordering::Less);
    assert_eq!(a.partial_cmp(&a), Some(Ordering::Equal));
    assert_eq!(SmolStr::from("a").order(&a), Ordering::Less);
    assert_eq!(SmolStr::new().order(&SmolStr::new()), Ordering::Equal);
    assert!(a < b);
}
