use pkgbuilder::claims::Claims;
use pkgbuilder::text::chars_of;

fn paths(list: &[&str]) -> Vec<Vec<char>> {
    list.iter().map(|p| chars_of(p)).collect()
}

#[test]
fn nothing_is_claimed_at_first() {
    let claims = Claims::new();
    assert!(!claims.covers(&chars_of("bin/tool")));
    assert_eq!(claims.owner(&chars_of("bin/tool")), None);
}

#[test]
fn what_is_asked_for_is_granted() {
    let mut claims = Claims::new();
    let got = claims.claim(0, &paths(&["bin/tool", "lib/a.so"]));
    assert_eq!(got, paths(&["bin/tool", "lib/a.so"]));
    assert_eq!(claims.owner(&chars_of("bin/tool")), Some(0));
    assert_eq!(claims.owner(&chars_of("lib/a.so")), Some(0));
    assert_eq!(claims.owner(&chars_of("lib/b.so")), None);
}

#[test]
fn the_first_to_ask_wins() {
    let mut claims = Claims::new();
    assert_eq!(claims.claim(0, &paths(&["bin/tool"])), paths(&["bin/tool"]));
    assert_eq!(claims.claim(1, &paths(&["bin/tool", "bin/other"])), paths(&["bin/other"]));
    assert_eq!(claims.owner(&chars_of("bin/tool")), Some(0));
    assert_eq!(claims.owner(&chars_of("bin/other")), Some(1));
}

#[test]
fn a_directory_covers_what_is_below_it() {
    let mut claims = Claims::new();
    assert_eq!(claims.claim(0, &paths(&["bin"])), paths(&["bin"]));
    assert!(claims.covers(&chars_of("bin/tool")));
    assert!(claims.covers(&chars_of("bin/a/b/c")));
    assert!(!claims.covers(&chars_of("binary")));
    assert!(claims.claim(1, &paths(&["bin/tool", "bin"])).is_empty());
    assert_eq!(claims.owner(&chars_of("bin/tool")), Some(0));
}

#[test]
fn what_is_left_of_a_directory_can_still_be_claimed() {
    let mut claims = Claims::new();
    assert_eq!(claims.claim(0, &paths(&["bin/tool"])), paths(&["bin/tool"]));
    assert_eq!(claims.claim(1, &paths(&["bin"])), paths(&["bin"]));
    assert_eq!(claims.owner(&chars_of("bin/tool")), Some(0));
    assert_eq!(claims.owner(&chars_of("bin/other")), Some(1));
    assert_eq!(claims.owner(&chars_of("bin")), Some(1));
}

#[test]
fn a_listing_that_repeats_itself_is_granted_once() {
    let mut claims = Claims::new();
    let got = claims.claim(2, &paths(&["share", "share/doc", "share", "etc", "share/doc/x"]));
    assert_eq!(got, paths(&["share", "etc"]));
}

#[test]
fn an_empty_listing_grants_nothing() {
    let mut claims = Claims::new();
    assert!(claims.claim(0, &Vec::new()).is_empty());
    assert!(!claims.covers(&chars_of("")));
}
