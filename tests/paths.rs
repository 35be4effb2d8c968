use hview::{CustomPathBuf, SegmentError};

fn segs(list: &[&str]) -> Vec<String> {
    list.iter().map(|s| s.to_string()).collect()
}

fn resolved(list: &[&str]) -> Result<String, SegmentError> {
    CustomPathBuf::normalize(&segs(list), false).map(|p| p.path())
}

#[test]
fn parent_segment_cancels_previous() {
    assert_eq!(resolved(&["a", "b", "..", "c"]), resolved(&["a", "c"]));
    assert_eq!(resolved(&["a", "b", "..", "c"]), Ok(String::from("a/c")));
}

#[test]
fn parent_beyond_root_stays_at_root() {
    assert_eq!(resolved(&[".."]), Ok(String::new()));
    assert_eq!(resolved(&["..", "..", "a"]), Ok(String::from("a")));
    assert_eq!(resolved(&["a", "..", "..", "..", "b", "c"]), Ok(String::from("b/c")));
    assert_eq!(resolved(&[]), Ok(String::new()));
}

#[test]
fn dot_and_empty_segments_are_ignored() {
    assert_eq!(resolved(&[".", "a", "", "b", "."]), Ok(String::from("a/b")));
}

#[test]
fn hidden_segments_are_accepted() {
    assert_eq!(resolved(&[".hidden", ".th", "p.avif"]), Ok(String::from(".hidden/.th/p.avif")));
}

#[test]
fn refused_segments() {
    assert_eq!(resolved(&["*a"]), Err(SegmentError::BadStart('*')));
    assert_eq!(resolved(&["a:"]), Err(SegmentError::BadEnd(':')));
    assert_eq!(resolved(&["a>"]), Err(SegmentError::BadEnd('>')));
    assert_eq!(resolved(&["a<"]), Err(SegmentError::BadEnd('<')));
    assert_eq!(resolved(&["a/b"]), Err(SegmentError::BadChar('/')));
    assert_eq!(resolved(&["ok", "..", "x:", "*y"]), Err(SegmentError::BadEnd(':')));
    assert_eq!(resolved(&["a*", ":a"]), Ok(String::from("a*/:a")));
}

#[test]
fn backslash_refused_only_as_separator() {
    let s = segs(&["a\\b"]);
    assert_eq!(
        CustomPathBuf::normalize(&s, true).map(|p| p.path()),
        Err(SegmentError::BadChar('\\'))
    );
    assert_eq!(
        CustomPathBuf::normalize(&s, false).map(|p| p.path()),
        Ok(String::from("a\\b"))
    );
}

#[test]
fn from_segments_resolves() {
    let p = CustomPathBuf::from_segments(&segs(&["imgs", "..", ".th", "x"])).unwrap();
    assert_eq!(p.path(), ".th/x");
    assert!(CustomPathBuf::from_segments(&segs(&["*"])).is_err());
}

#[test]
fn from_path_strings() {
    assert_eq!(CustomPathBuf::from(".").path(), "");
    assert_eq!(CustomPathBuf::from("").path(), "");
    assert_eq!(CustomPathBuf::from("a/./b/../c").path(), "a/c");
    assert_eq!(CustomPathBuf::from("/a//b/").path(), "a/b");
    assert_eq!(CustomPathBuf::from("../../x").path(), "x");
    assert_eq!(CustomPathBuf::from_str("imgs/sub").path(), "imgs/sub");
}

#[test]
fn push_and_pop() {
    let mut p = CustomPathBuf::new();
    assert_eq!(p.path(), "");
    p.pop();
    assert_eq!(p.path(), "");
    p.push("a");
    p.push("b/c");
    assert_eq!(p.path(), "a/b/c");
    p.pop();
    assert_eq!(p.path(), "a/b");
    p.push("..");
    assert_eq!(p.path(), "a");
    p.push("../../..");
    assert_eq!(p.path(), "");
}
