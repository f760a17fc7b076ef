use neutrino::query_directory::alias_domain;

#[test]
fn keeps_the_port_in_a_server_name() {
    assert_eq!(alias_domain("#s:127.0.0.1:8008"), Some("127.0.0.1:8008"));
    assert_eq!(alias_domain("#s:example.org"), Some("example.org"));
    // A mesh node id: 64 hex, no colon.
    let node = "0".repeat(64);
    assert_eq!(
        alias_domain(&format!("#s:{node}")).map(str::to_owned),
        Some(node)
    );
}

#[test]
fn rejects_what_is_not_an_alias() {
    for bad in ["", "#", "#s", "s:example.org", "#:example.org", "#s:"] {
        assert_eq!(alias_domain(bad), None, "{bad}");
    }
}
