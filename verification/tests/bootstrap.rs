use upstream_seed::bootstrap::{parse_bootstrap, parse_bootstrap_entry, ParseError};

#[test]
fn two_entries_parse_into_two_pairs() {
    let v = parse_bootstrap("abc123@seed.example.com:12345,def456@seed2.example.com:12345")
        .unwrap();
    assert_eq!(v.len(), 2);
    assert_eq!(v[0].peer.id, "abc123");
    assert_eq!(v[0].host, "seed.example.com");
    assert_eq!(v[0].port, 12345);
    assert_eq!(v[1].peer.id, "def456");
    assert_eq!(v[1].host, "seed2.example.com");
    assert_eq!(v[1].port, 12345);
}

#[test]
fn single_entry_parses() {
    let v = parse_bootstrap("f00@seed1.example.com:8776").unwrap();
    assert_eq!(v.len(), 1);
    assert_eq!(v[0].peer.id, "f00");
    assert_eq!(v[0].host, "seed1.example.com");
    assert_eq!(v[0].port, 8776);
}

#[test]
fn entry_without_at_separator_fails() {
    assert_eq!(
        parse_bootstrap_entry("seed.example.com:12345").unwrap_err(),
        ParseError::MissingAt
    );
    assert_eq!(
        parse_bootstrap("abc@seed.example.com:1,seed2.example.com:2").unwrap_err(),
        ParseError::MissingAt
    );
}

#[test]
fn entry_with_empty_identity_fails() {
    assert_eq!(
        parse_bootstrap_entry("@seed.example.com:12345").unwrap_err(),
        ParseError::EmptyIdentity
    );
}

#[test]
fn entry_without_port_separator_fails() {
    assert_eq!(
        parse_bootstrap_entry("abc@seedexamplecom").unwrap_err(),
        ParseError::MissingPort
    );
}

#[test]
fn entry_with_empty_host_fails() {
    assert_eq!(parse_bootstrap_entry("abc@:12345").unwrap_err(), ParseError::EmptyHost);
}

#[test]
fn bad_ports_fail() {
    assert_eq!(parse_bootstrap_entry("abc@host:").unwrap_err(), ParseError::BadPort);
    assert_eq!(parse_bootstrap_entry("abc@host:12x45").unwrap_err(), ParseError::BadPort);
    assert_eq!(parse_bootstrap_entry("abc@host:65536").unwrap_err(), ParseError::BadPort);
    assert_eq!(parse_bootstrap_entry("abc@host:999999999").unwrap_err(), ParseError::BadPort);
}

#[test]
fn port_edge_values_parse() {
    assert_eq!(parse_bootstrap_entry("abc@host:65535").unwrap().port, 65535);
    assert_eq!(parse_bootstrap_entry("abc@host:0").unwrap().port, 0);
    assert_eq!(parse_bootstrap_entry("abc@host:00012345").unwrap().port, 12345);
}

#[test]
fn ipv6_style_host_splits_at_last_colon() {
    let b = parse_bootstrap_entry("abc@0:0:0:0:1:9").unwrap();
    assert_eq!(b.host, "0:0:0:0:1");
    assert_eq!(b.port, 9);
}

#[test]
fn empty_argument_fails() {
    assert_eq!(parse_bootstrap("").unwrap_err(), ParseError::MissingAt);
}

#[test]
fn one_malformed_entry_rejects_the_whole_argument() {
    assert_eq!(
        parse_bootstrap("abc@host:1,def@host2:bad,ghi@host3:3").unwrap_err(),
        ParseError::BadPort
    );
}
