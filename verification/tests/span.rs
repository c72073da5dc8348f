use lazy_regex::Regex;
use text_span::text::Text;

#[test]
fn from_copies_the_text() {
    let t = Text::from("hello");
    assert_eq!(t.as_str(), "hello");
    assert_eq!(t.len(), 5);
    assert!(t.is_not_empty());
}

#[test]
fn from_empty_is_empty() {
    let t = Text::from("");
    assert_eq!(t.len(), 0);
    assert!(!t.is_not_empty());
    assert!(t.is_empty());
    assert_eq!(t.as_str(), "");
}

#[test]
fn default_is_empty() {
    let t = Text::default();
    assert_eq!(t.len(), 0);
    assert!(!t.is_not_empty());
    assert_eq!(t.as_str(), "");
}

#[test]
fn len_counts_bytes() {
    assert_eq!(Text::from("héllo").len(), 6);
    assert_eq!(Text::from("日本語").len(), 9);
}

#[test]
fn sub_str_is_relative_to_the_window() {
    let t = Text::from("0123456789");
    let mid = t.sub_str(2, 8);
    assert_eq!(mid.as_str(), "234567");
    let inner = mid.sub_str(1, 3);
    assert_eq!(inner.as_str(), "34");
    assert_eq!(inner.len(), 2);
}

#[test]
fn sub_str_whole_window() {
    let t = Text::from("abc");
    assert_eq!(t.sub_str(0, 3).as_str(), "abc");
}

#[test]
fn sub_str_empty_or_reversed_range_is_empty() {
    let t = Text::from("abcdef");
    assert_eq!(t.sub_str(3, 3).len(), 0);
    assert_eq!(t.sub_str(4, 2).len(), 0);
    assert_eq!(t.sub_str(0, 0).as_str(), "");
}

#[test]
fn sub_str_past_the_window_is_empty() {
    let t = Text::from("abcdef");
    assert_eq!(t.sub_str(0, 7).len(), 0);
    assert_eq!(t.sub_str(2, usize::MAX).len(), 0);
    let mid = t.sub_str(1, 4);
    assert_eq!(mid.as_str(), "bcd");
    assert_eq!(mid.sub_str(0, 4).as_str(), "");
    assert_eq!(mid.sub_str(1, 5).len(), 0);
}

#[test]
fn sub_str_on_multibyte_boundaries() {
    let t = Text::from("aé日z");
    assert!(t.is_char_boundary(1));
    assert!(!t.is_char_boundary(2));
    assert!(t.is_char_boundary(3));
    assert!(!t.is_char_boundary(4));
    assert!(t.is_char_boundary(6));
    assert!(t.is_char_boundary(7));
    assert!(!t.is_char_boundary(8));
    assert_eq!(t.sub_str(1, 3).as_str(), "é");
    assert_eq!(t.sub_str(3, 6).as_str(), "日");
    assert_eq!(t.sub_str(1, 6).sub_str(2, 5).as_str(), "日");
}

#[test]
fn is_ascii_digit_empty() {
    assert!(!Text::from("").is_ascii_digit());
    assert!(!Text::default().is_ascii_digit());
}

#[test]
fn is_ascii_digit_all_digits() {
    assert!(Text::from("123").is_ascii_digit());
    assert!(Text::from("0").is_ascii_digit());
    assert!(Text::from("0123456789").is_ascii_digit());
}

#[test]
fn is_ascii_digit_with_a_letter() {
    assert!(!Text::from("12a").is_ascii_digit());
    assert!(!Text::from("a12").is_ascii_digit());
    assert!(!Text::from("1 2").is_ascii_digit());
    assert!(!Text::from("/").is_ascii_digit());
    assert!(!Text::from(":").is_ascii_digit());
}

#[test]
fn is_ascii_digit_rejects_other_digits() {
    assert!(!Text::from("١٢٣").is_ascii_digit());
    assert!(!Text::from("12３").is_ascii_digit());
}

#[test]
fn is_ascii_digit_of_a_slice() {
    let t = Text::from("ep 042 end");
    assert!(t.sub_str(3, 6).is_ascii_digit());
    assert!(!t.sub_str(2, 6).is_ascii_digit());
}

#[test]
fn split_once_end_to_end() {
    let t = Text::from("2024-01-15 episode");
    let pat = Regex::new(" ").unwrap();
    let (before, matched, after) = t.split_once(&pat).unwrap();
    assert_eq!(before.as_str(), "2024-01-15");
    assert_eq!(matched.as_str(), " ");
    assert_eq!(after.as_str(), "episode");
    assert_eq!(before.sub_str(0, 4).as_str(), "2024");
}

#[test]
fn split_once_without_a_match() {
    let t = Text::from("no digits here");
    let pat = Regex::new("[0-9]+").unwrap();
    assert!(t.split_once(&pat).is_none());
}

#[test]
fn split_once_takes_the_first_match() {
    let t = Text::from("a1b22c333");
    let pat = Regex::new("[0-9]+").unwrap();
    let (before, matched, after) = t.split_once(&pat).unwrap();
    assert_eq!(before.as_str(), "a");
    assert_eq!(matched.as_str(), "1");
    assert_eq!(after.as_str(), "b22c333");
    let (before, matched, after) = after.split_once(&pat).unwrap();
    assert_eq!(before.as_str(), "b");
    assert_eq!(matched.as_str(), "22");
    assert_eq!(after.as_str(), "c333");
}

#[test]
fn split_once_match_at_the_ends() {
    let pat = Regex::new("ab").unwrap();
    let (before, matched, after) = Text::from("abxy").split_once(&pat).unwrap();
    assert_eq!(before.len(), 0);
    assert_eq!(matched.as_str(), "ab");
    assert_eq!(after.as_str(), "xy");
    let (before, matched, after) = Text::from("xyab").split_once(&pat).unwrap();
    assert_eq!(before.as_str(), "xy");
    assert_eq!(matched.as_str(), "ab");
    assert_eq!(after.len(), 0);
}

#[test]
fn split_once_empty_match() {
    let pat = Regex::new("x*").unwrap();
    let (before, matched, after) = Text::from("abc").split_once(&pat).unwrap();
    assert_eq!(before.len(), 0);
    assert_eq!(matched.len(), 0);
    assert_eq!(after.as_str(), "abc");
}

#[test]
fn split_once_on_a_slice_uses_window_offsets() {
    let t = Text::from("[tag] title - 07");
    let body = t.sub_str(6, 16);
    assert_eq!(body.as_str(), "title - 07");
    let pat = Regex::new(" - ").unwrap();
    let (before, matched, after) = body.split_once(&pat).unwrap();
    assert_eq!(before.as_str(), "title");
    assert_eq!(matched.as_str(), " - ");
    assert_eq!(after.as_str(), "07");
    assert!(after.is_ascii_digit());
}

#[test]
fn split_once_multibyte_text() {
    let t = Text::from("第12話 タイトル");
    let pat = Regex::new("[0-9]+").unwrap();
    let (before, matched, after) = t.split_once(&pat).unwrap();
    assert_eq!(before.as_str(), "第");
    assert_eq!(before.len(), 3);
    assert_eq!(matched.as_str(), "12");
    assert_eq!(after.as_str(), "話 タイトル");
}

#[test]
fn split_once_parts_rebuild_the_text() {
    let t = Text::from("key=value");
    let pat = Regex::new("=").unwrap();
    let (before, matched, after) = t.split_once(&pat).unwrap();
    assert_eq!(before.len(), 3);
    assert_eq!(matched.len(), 1);
    let joined = before.add(matched).add(after);
    assert_eq!(joined.as_str(), "key=value");
}

#[test]
fn split_around_given_offsets() {
    let t = Text::from("hello world");
    let (before, matched, after) = t.split_around(5, 6);
    assert_eq!(before.as_str(), "hello");
    assert_eq!(matched.as_str(), " ");
    assert_eq!(after.as_str(), "world");
    let (before, matched, after) = t.split_around(0, 11);
    assert_eq!(before.as_str(), "");
    assert_eq!(matched.as_str(), "hello world");
    assert_eq!(after.as_str(), "");
}

#[test]
fn add_joins_two_texts() {
    let joined = Text::from("foo").add(Text::from("bar"));
    assert_eq!(joined.as_str(), "foobar");
    assert_eq!(joined.len(), 6);
}

#[test]
fn add_with_empty_returns_the_other() {
    let x = Text::from("abc");
    assert_eq!(x.add(Text::default()).as_str(), "abc");
    let x = Text::from("abc");
    assert_eq!(Text::default().add(x).as_str(), "abc");
    assert_eq!(Text::default().add(Text::from("")).len(), 0);
}

#[test]
fn add_of_slices_joins_the_visible_text() {
    let t = Text::from("0123456789");
    let joined = t.sub_str(0, 2).add(t.sub_str(8, 10));
    assert_eq!(joined.as_str(), "0189");
    assert_eq!(t.as_str(), "0123456789");
}

#[test]
fn to_string_is_the_visible_text() {
    let t = Text::from("[x] name");
    assert_eq!(t.sub_str(4, 8).to_string(), "name");
    assert_eq!(Text::default().to_string(), "");
}

#[test]
fn derefs_to_the_visible_text() {
    let t = Text::from("[x] name 42");
    let window = t.sub_str(4, 8);
    assert_eq!(&*window, "name");
    assert!(window.starts_with("na"));
    assert_eq!(window.chars().count(), 4);
    assert_eq!(window.to_uppercase(), "NAME");
    let text: &str = &window;
    assert_eq!(text, "name");
}
