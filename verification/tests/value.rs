use std::cmp::Ordering;
use std::collections::hash_map::DefaultHasher;
use std::hash::{Hash, Hasher};

use lazy_regex::Regex;
use text_span::buffer::Str;
use text_span::compare::{first_difference, same_bytes};
use text_span::order::lex_compare;
use text_span::text::Text;

fn hash_of(t: &Text) -> u64 {
    let mut hasher = DefaultHasher::new();
    t.hash(&mut hasher);
    hasher.finish()
}

fn hash_of_str(s: &str) -> u64 {
    let mut hasher = DefaultHasher::new();
    s.hash(&mut hasher);
    hasher.finish()
}

#[test]
fn equal_text_from_different_storage_is_equal() {
    let owned = Text::from(String::from("episode").as_str());
    let literal = Text::from("episode");
    let big = Text::from("2024-01-15 episode 07");
    let sliced = big.sub_str(11, 18);
    assert_eq!(sliced.as_str(), "episode");
    assert!(owned == literal);
    assert!(owned == sliced);
    assert!(sliced == literal);
    assert_eq!(owned.cmp(&sliced), Ordering::Equal);
    assert_eq!(owned.partial_cmp(&sliced), Some(Ordering::Equal));
    assert_eq!(hash_of(&owned), hash_of(&literal));
    assert_eq!(hash_of(&owned), hash_of(&sliced));
}

#[test]
fn hash_is_that_of_the_visible_text() {
    let big = Text::from("xxabcxx");
    assert_eq!(hash_of(&big.sub_str(2, 5)), hash_of_str("abc"));
    assert_ne!(hash_of(&big.sub_str(2, 5)), hash_of(&big));
}

#[test]
fn different_text_is_not_equal() {
    assert!(Text::from("abc") != Text::from("abd"));
    assert!(Text::from("abc") != Text::from("ab"));
    assert!(Text::from("abc") != Text::default());
    let t = Text::from("abcabd");
    assert!(t.sub_str(0, 3) != t.sub_str(3, 6));
}

#[test]
fn empty_windows_equal_the_default() {
    let t = Text::from("abc");
    assert!(Text::from("") == Text::default());
    assert!(t.sub_str(1, 1) == Text::default());
    assert!(t.sub_str(2, 9) == Text::default());
    assert!(!t.sub_str(1, 1).is_not_empty());
    assert!(!Text::from("").is_not_empty());
    assert!(!Text::default().is_not_empty());
    let pat = Regex::new("^").unwrap();
    let (before, matched, _) = t.split_once(&pat).unwrap();
    assert!(before == Text::default());
    assert!(matched == Text::default());
    assert_eq!(hash_of(&before), hash_of(&Text::default()));
}

#[test]
fn out_of_range_slices_equal_the_empty_span() {
    let s = Text::from("hello");
    let empty = Text::default();
    assert!(s.sub_str(3, 3) == empty);
    assert!(s.sub_str(3, 2) == empty);
    assert!(s.sub_str(0, 6) == empty);
    assert!(s.sub_str(5, 6) == empty);
    assert!(s.sub_str(usize::MAX, usize::MAX) == empty);
    assert!(s.sub_str(1, usize::MAX) == empty);
    assert!(s.sub_str(0, 5) == s);
}

#[test]
fn concat_with_empty_is_identity() {
    let x = Text::from("span");
    assert!(x.clone().add(Text::default()) == x);
    assert!(Text::default().add(x.clone()) == x);
    assert!(x.clone().add(x.sub_str(2, 2)) == x);
    assert!(Text::default().add(Text::default()) == Text::default());
}

#[test]
fn order_is_lexicographic_over_bytes() {
    let a = Text::from("apple");
    let b = Text::from("banana");
    let ap = Text::from("app");
    assert_eq!(a.cmp(&b), Ordering::Less);
    assert_eq!(b.cmp(&a), Ordering::Greater);
    assert_eq!(ap.cmp(&a), Ordering::Less);
    assert_eq!(a.cmp(&ap), Ordering::Greater);
    assert_eq!(a.cmp(&a.clone()), Ordering::Equal);
    assert_eq!(Text::default().cmp(&a), Ordering::Less);
    assert_eq!(Text::default().cmp(&Text::from("")), Ordering::Equal);
    assert!(a < b);
    assert!(ap <= a);
    assert!(b > a);
    assert!(a >= a.clone());
    assert_eq!(Text::from("Z").cmp(&Text::from("a")), Ordering::Less);
    assert_eq!(Text::from("é").cmp(&Text::from("z")), Ordering::Greater);
}

#[test]
fn order_agrees_with_str() {
    let words = ["", "a", "ab", "abc", "b", "ba", "é", "日本", "日本語", "z", "~"];
    for x in words {
        for y in words {
            let (tx, ty) = (Text::from(x), Text::from(y));
            assert_eq!(tx.cmp(&ty), x.cmp(y));
            assert_eq!(tx.partial_cmp(&ty), x.partial_cmp(y));
            assert_eq!(tx == ty, x == y);
        }
    }
}

#[test]
fn order_of_slices_ignores_offsets() {
    let t = Text::from("bbb-aaa");
    let left = t.sub_str(0, 3);
    let right = t.sub_str(4, 7);
    assert_eq!(left.cmp(&right), Ordering::Greater);
    assert_eq!(right.cmp(&Text::from("aaa")), Ordering::Equal);
}

#[test]
fn lex_compare_first_difference_decides() {
    assert_eq!(lex_compare(b"abc", b"abd"), Ordering::Less);
    assert_eq!(lex_compare(b"abd", b"abc"), Ordering::Greater);
    assert_eq!(lex_compare(b"ab", b"abc"), Ordering::Less);
    assert_eq!(lex_compare(b"abc", b"ab"), Ordering::Greater);
    assert_eq!(lex_compare(b"", b""), Ordering::Equal);
    assert_eq!(lex_compare(b"abc", b"abc"), Ordering::Equal);
    assert_eq!(lex_compare(&[0xff], &[0x00, 0x01]), Ordering::Greater);
}

#[test]
fn first_difference_is_the_common_prefix_length() {
    assert_eq!(first_difference(b"abcd", b"abxd"), 2);
    assert_eq!(first_difference(b"abc", b"abc"), 3);
    assert_eq!(first_difference(b"abc", b"abcdef"), 3);
    assert_eq!(first_difference(b"", b"abc"), 0);
    assert_eq!(first_difference(b"x", b"y"), 0);
}

#[test]
fn same_bytes_compares_content() {
    assert!(same_bytes(b"abc", b"abc"));
    assert!(same_bytes(b"", b""));
    assert!(!same_bytes(b"abc", b"abd"));
    assert!(!same_bytes(b"abc", b"ab"));
    assert!(!same_bytes(b"ab", b"abc"));
}

#[test]
fn clone_shows_the_same_text() {
    let t = Text::from("shared buffer");
    let window = t.sub_str(7, 13);
    let copy = window.clone();
    assert_eq!(copy.as_str(), "buffer");
    assert_eq!(copy.len(), window.len());
    assert!(copy == window);
}

#[test]
fn slices_outlive_the_base_span() {
    let window = {
        let t = Text::from("temporary base");
        t.sub_str(10, 14)
    };
    assert_eq!(window.as_str(), "base");
}

#[test]
fn storage_gives_its_text_and_length() {
    let fixed = Str::Slice("static text");
    assert_eq!(fixed.as_str(), "static text");
    assert_eq!(fixed.len(), 11);
    let shared = Str::String("héllo".into());
    assert_eq!(shared.as_str(), "héllo");
    assert_eq!(shared.len(), 6);
    assert_eq!(shared.clone().as_str(), "héllo");
    assert_eq!(Str::Slice("").len(), 0);
}

#[test]
fn equals_plain_text() {
    let t = Text::from("[x] name");
    assert!(t.sub_str(4, 8) == "name");
    assert!(t.sub_str(4, 8) == *"name");
    assert!(t.sub_str(4, 8) != "nam");
    assert!(t.sub_str(4, 8) != "names");
    assert!(Text::default() == "");
    assert!(Text::from("日本") == "日本");
}

#[test]
fn slicing_shares_the_buffer() {
    let base = Text::from("0123456789");
    let slice = base.sub_str(2, 5);
    let inner = slice.sub_str(1, 2);
    let base_range = base.as_str().as_bytes().as_ptr_range();
    let slice_range = slice.as_str().as_bytes().as_ptr_range();
    let inner_range = inner.as_str().as_bytes().as_ptr_range();
    assert!(base_range.start < slice_range.start && slice_range.end < base_range.end);
    assert!(slice_range.start < inner_range.start && inner_range.end < slice_range.end);
    assert!(base.clone().as_str().as_bytes().as_ptr_range() == base_range);
}

#[test]
fn concat_with_empty_makes_no_buffer() {
    let x = Text::from("span");
    let range = x.as_str().as_bytes().as_ptr_range();
    let left = x.clone().add(Text::default());
    let right = Text::from("").add(x.clone());
    assert!(left.as_str().as_bytes().as_ptr_range() == range);
    assert!(right.as_str().as_bytes().as_ptr_range() == range);
    let joined = x.clone().add(x.clone());
    assert!(joined.as_str().as_bytes().as_ptr_range() != range);
    assert_eq!(joined.as_str(), "spanspan");
}

#[test]
fn from_copies_its_input_once() {
    let input = String::from("owned input");
    let t = Text::from(input.as_str());
    assert!(t.as_str().as_bytes().as_ptr_range() != input.as_bytes().as_ptr_range());
    drop(input);
    assert_eq!(t.as_str(), "owned input");
}
