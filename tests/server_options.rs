use fastpay_core::options::{AuthorityOptions, NetworkProtocol, OptionsError};
use std::str::FromStr;

#[test]
fn test_authority_options() {
    let options = AuthorityOptions::from_str("server.json:udp:localhost:9001:2").unwrap();
    assert_eq!(
        options,
        AuthorityOptions {
            server_config_path: "server.json".into(),
            protocol: NetworkProtocol::Udp,
            host: "localhost".into(),
            port: 9001,
            shards: 2
        }
    );
}

#[test]
fn options_accept_tcp_and_capitalised_names() {
    let options = AuthorityOptions::parse("a.json:Tcp:example.org:80:16").unwrap();
    assert_eq!(options.protocol, NetworkProtocol::Tcp);
    assert_eq!(options.host, "example.org");
    assert_eq!(options.port, 80);
    assert_eq!(options.shards, 16);
}

#[test]
fn options_refuse_wrong_part_count() {
    assert_eq!(
        AuthorityOptions::parse("server.json:udp:localhost:9001"),
        Err(OptionsError::WrongNumberOfParts)
    );
    assert_eq!(
        AuthorityOptions::parse("a:udp:h:1:2:3"),
        Err(OptionsError::WrongNumberOfParts)
    );
}

#[test]
fn options_refuse_unknown_protocol() {
    assert_eq!(
        AuthorityOptions::parse("s.json:quic:h:1:2"),
        Err(OptionsError::UnknownProtocol)
    );
}

#[test]
fn options_refuse_bad_numbers() {
    assert_eq!(
        AuthorityOptions::parse("s.json:udp:h:port:2"),
        Err(OptionsError::InvalidPort)
    );
    assert_eq!(
        AuthorityOptions::parse("s.json:udp:h:4294967296:2"),
        Err(OptionsError::InvalidPort)
    );
    assert_eq!(
        AuthorityOptions::parse("s.json:udp:h:4294967295:"),
        Err(OptionsError::InvalidShards)
    );
}

#[test]
fn server_config_follows_options() {
    let options = AuthorityOptions::parse("s.json:tcp:host:7000:4").unwrap();
    let config = fastpay_core::options::make_server_config(options);
    assert_eq!(config.authority.network_protocol, NetworkProtocol::Tcp);
    assert_eq!(config.authority.host, "host");
    assert_eq!(config.authority.base_port, 7000);
    assert_eq!(config.authority.num_shards, 4);
    assert_eq!(config.key.public(), config.authority.name);
}

#[test]
fn options_accept_a_leading_plus() {
    let options = AuthorityOptions::parse("s.json:udp:h:+5:+2").unwrap();
    assert_eq!(options.port, 5);
    assert_eq!(options.shards, 2);
    assert_eq!(AuthorityOptions::parse("s.json:udp:h:+:2"), Err(OptionsError::InvalidPort));
}
