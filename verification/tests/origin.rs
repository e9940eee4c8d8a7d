use chapter_visits::allowed_origin::is_allowed_origin;

#[test]
fn whitelisted_origins_are_allowed() {
    assert!(is_allowed_origin("https://wt.tepis.me"));
    assert!(is_allowed_origin("https://wt.bgme.me"));
    assert!(is_allowed_origin("https://rbq.desi"));
    assert!(is_allowed_origin("https://wt.makai.city"));
    assert!(is_allowed_origin("https://wt.0w0.bid"));
}

#[test]
fn other_origins_are_refused() {
    assert!(!is_allowed_origin(""));
    assert!(!is_allowed_origin("https://evil.example"));
    // a whitelisted entry as a prefix of the candidate
    assert!(!is_allowed_origin("https://wt.tepis.me.evil.com"));
    // a prefix of a whitelisted entry
    assert!(!is_allowed_origin("https://wt.tepis.m"));
    // scheme must match exactly
    assert!(!is_allowed_origin("http://wt.tepis.me"));
    // matching is case-sensitive
    assert!(!is_allowed_origin("HTTPS://WT.TEPIS.ME"));
    // no surrounding whitespace tolerated
    assert!(!is_allowed_origin(" https://wt.tepis.me"));
}
