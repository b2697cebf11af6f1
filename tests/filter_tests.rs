use network_administrator::filter::{
    add_domain_to_blacklist, add_domain_to_whitelist, get_blacklist, get_whitelist,
    is_domain_blacklisted, is_domain_whitelisted, merge_from_file, remove_domain_from_blacklist,
    remove_domain_from_whitelist, replace_from_file, DomainFilter, FilterError, ListConfigType,
};

fn reload(f: &DomainFilter) -> DomainFilter {
    let mut fresh = DomainFilter::new();
    for kind in [ListConfigType::Exact, ListConfigType::Wildcard, ListConfigType::Regex] {
        for e in get_blacklist(f, kind) {
            add_domain_to_blacklist(&mut fresh, &e, kind).unwrap();
        }
        for e in get_whitelist(f, kind) {
            add_domain_to_whitelist(&mut fresh, &e, kind).unwrap();
        }
    }
    fresh
}

#[test]
fn exact_entry_survives_reload() {
    let mut f = DomainFilter::new();
    add_domain_to_blacklist(&mut f, "evil.example", ListConfigType::Exact).unwrap();
    let g = reload(&f);
    assert!(is_domain_blacklisted(&g, "evil.example"));
    assert!(!is_domain_whitelisted(&g, "evil.example"));
}

#[test]
fn repeated_add_is_idempotent() {
    let mut f = DomainFilter::new();
    add_domain_to_blacklist(&mut f, "evil.example", ListConfigType::Exact).unwrap();
    add_domain_to_blacklist(&mut f, "evil.example", ListConfigType::Exact).unwrap();
    assert_eq!(get_blacklist(&f, ListConfigType::Exact), vec!["evil.example".to_string()]);
    assert!(is_domain_blacklisted(&f, "evil.example"));
}

#[test]
fn wildcard_matches_subdomains_and_bare_suffix() {
    let mut f = DomainFilter::new();
    add_domain_to_blacklist(&mut f, "*.doubleclick.net", ListConfigType::Wildcard).unwrap();
    assert!(is_domain_blacklisted(&f, "ads.doubleclick.net"));
    assert!(is_domain_blacklisted(&f, "a.b.doubleclick.net"));
    assert!(is_domain_blacklisted(&f, "doubleclick.net"));
    assert!(!is_domain_blacklisted(&f, "doubleclick.net.evil.com"));
}

#[test]
fn plain_wildcard_is_a_suffix() {
    let mut f = DomainFilter::new();
    add_domain_to_whitelist(&mut f, "example.org", ListConfigType::Wildcard).unwrap();
    assert!(is_domain_whitelisted(&f, "www.example.org"));
    assert!(!is_domain_whitelisted(&f, "example.org.net"));
}

#[test]
fn regex_entry_matches_tracker_hosts() {
    let mut f = DomainFilter::new();
    add_domain_to_blacklist(&mut f, "^(^|\\.)tracker\\d+\\.com$", ListConfigType::Regex).unwrap();
    assert_eq!(
        get_blacklist(&f, ListConfigType::Regex),
        vec!["^(^|\\.)tracker\\d+\\.com$".to_string()]
    );
    assert!(is_domain_blacklisted(&f, "tracker7.com"));
    assert!(!is_domain_blacklisted(&f, "tracker.com"));
}

#[test]
fn regex_is_a_substring_match_unless_anchored() {
    let mut f = DomainFilter::new();
    add_domain_to_blacklist(&mut f, "ads", ListConfigType::Regex).unwrap();
    assert!(is_domain_blacklisted(&f, "myads.example"));
}

#[test]
fn invalid_regex_is_refused() {
    let mut f = DomainFilter::new();
    assert_eq!(
        add_domain_to_blacklist(&mut f, "(unclosed", ListConfigType::Regex),
        Err(FilterError::InvalidPattern)
    );
    assert!(get_blacklist(&f, ListConfigType::Regex).is_empty());
    assert_eq!(
        remove_domain_from_blacklist(&mut f, "(unclosed", ListConfigType::Regex),
        Err(FilterError::InvalidPattern)
    );
}

#[test]
fn remove_drops_the_entry() {
    let mut f = DomainFilter::new();
    add_domain_to_blacklist(&mut f, "a.example", ListConfigType::Exact).unwrap();
    add_domain_to_blacklist(&mut f, "b.example", ListConfigType::Exact).unwrap();
    remove_domain_from_blacklist(&mut f, "a.example", ListConfigType::Exact).unwrap();
    assert!(!is_domain_blacklisted(&f, "a.example"));
    assert!(is_domain_blacklisted(&f, "b.example"));
    add_domain_to_whitelist(&mut f, "w.example", ListConfigType::Exact).unwrap();
    remove_domain_from_whitelist(&mut f, "w.example", ListConfigType::Exact).unwrap();
    assert!(get_whitelist(&f, ListConfigType::Exact).is_empty());
}

#[test]
fn lists_are_independent() {
    let mut f = DomainFilter::new();
    add_domain_to_whitelist(&mut f, "safe.example", ListConfigType::Exact).unwrap();
    assert!(is_domain_whitelisted(&f, "safe.example"));
    assert!(!is_domain_blacklisted(&f, "safe.example"));
}

#[test]
fn merge_unions_and_replace_overwrites() {
    let mut f = DomainFilter::new();
    add_domain_to_blacklist(&mut f, "a.example", ListConfigType::Exact).unwrap();
    let mut other = DomainFilter::new();
    add_domain_to_blacklist(&mut other, "a.example", ListConfigType::Exact).unwrap();
    add_domain_to_blacklist(&mut other, "b.example", ListConfigType::Exact).unwrap();
    merge_from_file(&mut f, &other);
    assert_eq!(
        get_blacklist(&f, ListConfigType::Exact),
        vec!["a.example".to_string(), "b.example".to_string()]
    );
    let mut replacement = DomainFilter::new();
    add_domain_to_blacklist(&mut replacement, "c.example", ListConfigType::Exact).unwrap();
    replace_from_file(&mut f, replacement);
    assert_eq!(get_blacklist(&f, ListConfigType::Exact), vec!["c.example".to_string()]);
    assert!(!is_domain_blacklisted(&f, "a.example"));
}

#[test]
fn empty_filter_contains_nothing() {
    let f = DomainFilter::new();
    assert!(!is_domain_blacklisted(&f, ""));
    assert!(!is_domain_blacklisted(&f, "x.example"));
}
