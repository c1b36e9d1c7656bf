use osc_codec::compile_pattern;
use osc_codec::OscError;

#[test]
fn star_matches_one_segment_only() {
    let m = compile_pattern("/foo/*").unwrap();
    assert!(m.matches("/foo/bar"));
    assert!(!m.matches("/foo/bar/baz"));
    assert!(m.matches("/foo/"));
    assert!(!m.matches("/foo"));
}

#[test]
fn alternation_matches_each_branch() {
    let m = compile_pattern("/a/{b,c}").unwrap();
    assert!(m.matches("/a/b"));
    assert!(m.matches("/a/c"));
    assert!(!m.matches("/a/d"));
    assert!(!m.matches("/a/bc"));
}

#[test]
fn double_slash_descends_segments() {
    let m = compile_pattern("/foo//bar").unwrap();
    assert!(m.matches("/foo/x/y/bar"));
    assert!(m.matches("/foo/x/bar"));
    assert!(!m.matches("/foo/bar/baz"));
}

#[test]
fn question_mark_matches_one_character() {
    let m = compile_pattern("/a/b?d").unwrap();
    assert!(m.matches("/a/bcd"));
    assert!(!m.matches("/a/bd"));
    assert!(!m.matches("/a/b/d"));
}

#[test]
fn classes_match_members_and_ranges() {
    let m = compile_pattern("/k/[abc]").unwrap();
    assert!(m.matches("/k/a"));
    assert!(m.matches("/k/c"));
    assert!(!m.matches("/k/d"));
    let r = compile_pattern("/k/[0-9]").unwrap();
    assert!(r.matches("/k/5"));
    assert!(!r.matches("/k/x"));
    let n = compile_pattern("/k/[!a]").unwrap();
    assert!(n.matches("/k/b"));
    assert!(!n.matches("/k/a"));
}

#[test]
fn literal_patterns_match_exactly() {
    let m = compile_pattern("/exact/path").unwrap();
    assert!(m.matches("/exact/path"));
    assert!(!m.matches("/exact/path2"));
    assert!(!m.matches("/exact"));
}

#[test]
fn matcher_is_reusable() {
    let m = compile_pattern("/r/*").unwrap();
    assert!(m.matches("/r/one"));
    assert!(m.matches("/r/two"));
    assert!(!m.matches("/q/one"));
}

#[test]
fn bad_patterns_are_rejected_at_compile_time() {
    assert_eq!(
        compile_pattern("nope").unwrap_err(),
        OscError::BadAddressPattern
    );
    assert_eq!(compile_pattern("").unwrap_err(), OscError::BadAddressPattern);
    assert_eq!(
        compile_pattern("/a/[bc").unwrap_err(),
        OscError::BadAddressPattern
    );
    assert_eq!(
        compile_pattern("/a/{b,c").unwrap_err(),
        OscError::BadAddressPattern
    );
}
