use url_path::resolve::{push_segment, resolve_path};
use url_path::segments::{classify, join_segments, SEPARATOR};
use url_path::text::has_prefix;
use url_path::SegmentKind;

fn strings(items: &[&str]) -> Vec<String> {
    items.iter().map(|s| s.to_string()).collect()
}

#[test]
fn separator_is_the_slash() {
    assert_eq!('/', SEPARATOR);
}

#[test]
fn classify_tells_the_four_kinds_apart() {
    assert_eq!(SegmentKind::Empty, classify(""));
    assert_eq!(SegmentKind::Current, classify("."));
    assert_eq!(SegmentKind::Parent, classify(".."));
    assert_eq!(SegmentKind::Name, classify("..."));
    assert_eq!(SegmentKind::Name, classify("a"));
    assert_eq!(SegmentKind::Name, classify(".a"));
    assert_eq!(SegmentKind::Name, classify("a."));
    assert_eq!(SegmentKind::Name, classify("..a"));
    assert_eq!(SegmentKind::Name, classify(" "));
    assert_eq!(SegmentKind::Name, classify("é"));
    assert_eq!(SegmentKind::Name, classify("/"));
}

#[test]
fn has_prefix_compares_character_by_character() {
    assert!(has_prefix("", ""));
    assert!(has_prefix("abc", ""));
    assert!(has_prefix("abc", "a"));
    assert!(has_prefix("abc", "abc"));
    assert!(!has_prefix("abc", "abcd"));
    assert!(!has_prefix("abc", "b"));
    assert!(!has_prefix("", "a"));
    assert!(has_prefix("http://x", "http:"));
    assert!(!has_prefix("https://x", "http:"));
    assert!(has_prefix("https://x", "https:"));
    assert!(has_prefix("日本語", "日本"));
    assert!(!has_prefix("日本語", "本"));
}

#[test]
fn join_segments_puts_separators_between() {
    assert_eq!("", join_segments(&strings(&[])));
    assert_eq!("a", join_segments(&strings(&["a"])));
    assert_eq!("a/b", join_segments(&strings(&["a", "b"])));
    assert_eq!("a/b/c", join_segments(&strings(&["a", "b", "c"])));
    assert_eq!("/a", join_segments(&strings(&["", "a"])));
    assert_eq!("a/", join_segments(&strings(&["a", ""])));
    assert_eq!("/", join_segments(&strings(&["", ""])));
    assert_eq!("", join_segments(&strings(&[""])));
}

#[test]
fn push_segment_follows_the_kind() {
    let mut stack = strings(&["a", "b"]);
    push_segment(&mut stack, "".to_string());
    assert_eq!(strings(&["a", "b"]), stack);
    push_segment(&mut stack, ".".to_string());
    assert_eq!(strings(&["a", "b"]), stack);
    push_segment(&mut stack, "c".to_string());
    assert_eq!(strings(&["a", "b", "c"]), stack);
    push_segment(&mut stack, "..".to_string());
    assert_eq!(strings(&["a", "b"]), stack);
    push_segment(&mut stack, "..".to_string());
    push_segment(&mut stack, "..".to_string());
    assert_eq!(strings(&[]), stack);
    push_segment(&mut stack, "..".to_string());
    assert_eq!(strings(&[]), stack);
    push_segment(&mut stack, "...".to_string());
    assert_eq!(strings(&["..."]), stack);
}

#[test]
fn resolve_path_keeps_names_in_order() {
    assert_eq!(strings(&[]), resolve_path(""));
    assert_eq!(strings(&[]), resolve_path("/"));
    assert_eq!(strings(&[]), resolve_path("./.."));
    assert_eq!(strings(&["a"]), resolve_path("a"));
    assert_eq!(strings(&["a"]), resolve_path("/a/"));
    assert_eq!(strings(&["a", "b", "c"]), resolve_path("a/b/c"));
    assert_eq!(strings(&["a", "c"]), resolve_path("a/b/../c"));
    assert_eq!(strings(&["c"]), resolve_path("a/b/../../../c"));
    assert_eq!(strings(&["home", "README.md"]), resolve_path("/home/user/md/../../README.md"));
    assert_eq!(strings(&["http:", "x", "y"]), resolve_path("http://x/./y"));
}
