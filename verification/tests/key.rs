use zenoh_net::key::{intersect, KeyExpr};

#[test]
fn literal_keys_intersect_when_equal() {
    assert!(intersect("/a/b", "/a/b"));
    assert!(intersect("a/b", "/a/b/"));
    assert!(!intersect("/a/b", "/a/c"));
    assert!(!intersect("/a/b", "/a/b/c"));
    assert!(!intersect("/a", "/ab"));
}

#[test]
fn star_matches_exactly_one_segment() {
    assert!(intersect("/a/*", "/a/b"));
    assert!(!intersect("/a/*", "/a/b/c"));
    assert!(!intersect("/a/*", "/a"));
    assert!(intersect("/*/b", "/a/*"));
    assert!(intersect("*", "x"));
    assert!(!intersect("*", "x/y"));
}

#[test]
fn double_star_matches_any_number_of_segments() {
    assert!(intersect("/a/**", "/a"));
    assert!(intersect("/a/**", "/a/b/c"));
    assert!(intersect("**", "/a/b/c"));
    assert!(intersect("/**/c", "/a/b/c"));
    assert!(intersect("/**/c", "/c"));
    assert!(!intersect("/**/c", "/a/b"));
    assert!(intersect("/a/**/d", "/a/b/c/d"));
    assert!(intersect("/a/**/d", "/**/b/**"));
    assert!(!intersect("/a/**/d", "/b/**"));
    assert!(intersect("**", "**"));
    assert!(intersect("a/**", "**/b"));
}

#[test]
fn double_star_backtracks() {
    assert!(intersect("/**/a/b", "/a/a/a/b"));
    assert!(intersect("/**/a/**/b", "/x/a/y/z/b"));
    assert!(!intersect("/**/a/**/b", "/x/b/y/a"));
    assert!(intersect("/**/x/**/x/**", "/x/*/x"));
}

#[test]
fn malformed_names_intersect_nothing() {
    assert!(!intersect("", ""));
    assert!(!intersect("/", "/"));
    assert!(!intersect("///", "**"));
    assert!(!intersect("/a//b", "/a//b"));
    assert!(!intersect("/a*", "/a*"));
    assert!(!intersect("/a/***", "/a/b"));
    assert!(!intersect("/a/b\u{7f}", "/a/**"));
    assert!(!intersect("/a/\u{e9}", "/a/**"));
    assert!(!intersect("/a/b", ""));
}

#[test]
fn intersect_is_symmetric_on_samples() {
    let names = ["/a/b", "/a/*", "/**", "/a/**/c", "/*/b/c", "/a//b", "", "/x/y/z", "**/z"];
    for a in names.iter() {
        for b in names.iter() {
            assert_eq!(intersect(a, b), intersect(b, a), "{} {}", a, b);
        }
    }
}

#[test]
fn well_formed_names_intersect_themselves_and_double_star() {
    let names = ["/a/b", "/a/*", "/**", "/a/**/c", "/*/b/c", "/x/y/z", "**/z", "a b/c"];
    for a in names.iter() {
        assert!(intersect(a, a), "{}", a);
        assert!(intersect(a, "**"), "{}", a);
        assert!(intersect("**", a), "{}", a);
    }
}

#[test]
fn key_expr_trims_and_collapses() {
    let key = KeyExpr::new("//a/**/**/b/").unwrap();
    assert_eq!(key.segment_count(), 3);
    let same = KeyExpr::new("a/**/b").unwrap();
    assert_eq!(same.segment_count(), 3);
    assert!(key.intersect(&same));
    assert!(KeyExpr::new("/a//b").is_none());
    assert!(KeyExpr::new("").is_none());
    assert!(KeyExpr::new("/a/b*").is_none());
    let wide = KeyExpr::new("**/**/**").unwrap();
    assert_eq!(wide.segment_count(), 1);
}
