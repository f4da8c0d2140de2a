use userdirs::resolver::{endpoint_url, endpoint_urls, resolve_from_matches, select_endpoint};

#[test]
fn resolve_single_match_returns_its_path() {
    let matches = vec![String::from("/home/jdoe")];
    assert_eq!(resolve_from_matches(&matches), Some(String::from("/home/jdoe")));
}

#[test]
fn resolve_zero_matches_returns_none() {
    let matches: Vec<String> = Vec::new();
    assert_eq!(resolve_from_matches(&matches), None);
}

#[test]
fn resolve_ambiguous_matches_fail_closed() {
    let matches = vec![String::from("/home/jdoe"), String::from("/home/other")];
    assert_eq!(resolve_from_matches(&matches), None);
}

#[test]
fn endpoint_url_trims_root_dot() {
    assert_eq!(endpoint_url("ldap1.example.org."), "ldaps://ldap1.example.org");
}

#[test]
fn endpoint_url_keeps_unqualified_target() {
    assert_eq!(endpoint_url("ldap1.example.org"), "ldaps://ldap1.example.org");
}

#[test]
fn endpoint_url_trims_every_trailing_dot() {
    assert_eq!(endpoint_url("ldap1.example.org..."), "ldaps://ldap1.example.org");
    assert_eq!(endpoint_url("."), "ldaps://");
    assert_eq!(endpoint_url(""), "ldaps://");
}

#[test]
fn endpoint_urls_map_in_discovery_order() {
    let targets = vec![String::from("a.example.org."), String::from("b.example.org")];
    let urls = endpoint_urls(&targets);
    assert_eq!(
        urls,
        vec![String::from("ldaps://a.example.org"), String::from("ldaps://b.example.org")]
    );
}

#[test]
fn select_endpoint_of_none_is_none() {
    let servers: Vec<String> = Vec::new();
    assert_eq!(select_endpoint(&servers), None);
}

#[test]
fn select_endpoint_of_one_is_that_one() {
    let servers = vec![String::from("ldaps://only.example.org")];
    assert_eq!(select_endpoint(&servers), Some(String::from("ldaps://only.example.org")));
}

#[test]
fn select_endpoint_picks_a_candidate() {
    let servers = vec![
        String::from("ldaps://a.example.org"),
        String::from("ldaps://b.example.org"),
        String::from("ldaps://c.example.org"),
    ];
    for _ in 0..32 {
        let picked = select_endpoint(&servers).expect("non-empty list must yield an endpoint");
        assert!(servers.contains(&picked));
    }
}
