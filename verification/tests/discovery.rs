use landrop::discovery::collect_peers;
use landrop::discovery::is_probe;
use landrop::discovery::label_or_unknown;
use landrop::discovery::local_hostname;
use landrop::discovery::local_os;
use landrop::discovery::make_response;
use landrop::discovery::parse_name_and_os;
use landrop::discovery::probe_message;
use landrop::discovery::process_response;

#[test]
fn probe_payload_is_discover() {
    assert_eq!(probe_message(), b"DISCOVER".to_vec());
}

#[test]
fn probe_recognition_is_exact() {
    assert!(is_probe(b"DISCOVER"));
    assert!(!is_probe(b"DISCOVERY"));
    assert!(!is_probe(b"DISCOVE"));
    assert!(!is_probe(b"discover"));
    assert!(!is_probe(b""));
}

#[test]
fn parse_both_lines() {
    let (name, os) = parse_name_and_os("NAME:peer1\nOS:Linux");
    assert_eq!(name, "peer1");
    assert_eq!(os, "Linux");
}

#[test]
fn parse_lines_in_either_order() {
    let (name, os) = parse_name_and_os("OS:Linux\nNAME:peer1");
    assert_eq!(name, "peer1");
    assert_eq!(os, "Linux");
}

#[test]
fn parse_name_without_os_defaults_os() {
    let (name, os) = parse_name_and_os("NAME:peer1");
    assert_eq!(name, "peer1");
    assert_eq!(os, "Unknown");
}

#[test]
fn parse_os_without_name_defaults_name() {
    let (name, os) = parse_name_and_os("OS:Linux");
    assert_eq!(name, "Unknown");
    assert_eq!(os, "Linux");
}

#[test]
fn parse_unrecognized_lines_defaults_both() {
    let (name, os) = parse_name_and_os("HELLO:world\nsomething else");
    assert_eq!(name, "Unknown");
    assert_eq!(os, "Unknown");
}

#[test]
fn parse_empty_response_defaults_both() {
    let (name, os) = parse_name_and_os("");
    assert_eq!(name, "Unknown");
    assert_eq!(os, "Unknown");
}

#[test]
fn parse_trims_field_values() {
    let (name, os) = parse_name_and_os("NAME:  peer1 \nOS:\tLinux\r");
    assert_eq!(name, "peer1");
    assert_eq!(os, "Linux");
}

#[test]
fn parse_last_recognized_line_wins() {
    let (name, os) = parse_name_and_os("NAME:first\nNAME:second\nOS:Linux");
    assert_eq!(name, "second");
    assert_eq!(os, "Linux");
}

#[test]
fn parse_ignores_lines_between_recognized_ones() {
    let (name, os) = parse_name_and_os("junk\nNAME:peer1\nmore junk\nOS:Linux\n");
    assert_eq!(name, "peer1");
    assert_eq!(os, "Linux");
}

#[test]
fn response_text_has_expected_shape() {
    let resp = make_response("peer1", "Linux");
    assert_eq!(resp, "NAME:peer1\nOS:Linux");
}

#[test]
fn response_parses_back_to_its_fields() {
    let resp = make_response("peer1", "Linux");
    let (name, os) = parse_name_and_os(&resp);
    assert_eq!(name, "peer1");
    assert_eq!(os, "Linux");
}

#[test]
fn process_response_builds_peer_record() {
    let d = process_response(
        "192.168.1.7".to_string(),
        "NAME:peer1\nOS:Linux",
        "myhost",
    );
    let d = d.expect("a foreign hostname must yield a peer");
    assert_eq!(d.ip, "192.168.1.7");
    assert_eq!(d.hostname, "peer1");
    assert_eq!(d.os, "Linux");
}

#[test]
fn process_response_drops_local_host() {
    let d = process_response("127.0.0.1".to_string(), "NAME:myhost\nOS:Linux", "myhost");
    assert!(d.is_none());
}

#[test]
fn collect_peers_excludes_local_and_keeps_order() {
    let responses = vec![
        ("10.0.0.2".to_string(), "NAME:peer1\nOS:Linux".to_string()),
        ("10.0.0.3".to_string(), "NAME:myhost\nOS:Linux".to_string()),
        ("10.0.0.4".to_string(), "NAME:peer2\nOS:Windows".to_string()),
    ];
    let peers = collect_peers(&responses, "myhost");
    assert_eq!(peers.len(), 2);
    assert_eq!(peers[0].ip, "10.0.0.2");
    assert_eq!(peers[0].hostname, "peer1");
    assert_eq!(peers[0].os, "Linux");
    assert_eq!(peers[1].ip, "10.0.0.4");
    assert_eq!(peers[1].hostname, "peer2");
    assert_eq!(peers[1].os, "Windows");
}

#[test]
fn collect_peers_single_responder() {
    let responses = vec![("10.0.0.9".to_string(), "NAME:peer1\nOS:Linux".to_string())];
    let peers = collect_peers(&responses, "myhost");
    assert_eq!(peers.len(), 1);
    assert_eq!(peers[0].ip, "10.0.0.9");
    assert_eq!(peers[0].hostname, "peer1");
    assert_eq!(peers[0].os, "Linux");
}

#[test]
fn collect_peers_keeps_repeated_responses() {
    let responses = vec![
        ("10.0.0.2".to_string(), "NAME:peer1\nOS:Linux".to_string()),
        ("10.0.0.2".to_string(), "NAME:peer1\nOS:Linux".to_string()),
    ];
    let peers = collect_peers(&responses, "myhost");
    assert_eq!(peers.len(), 2);
}

#[test]
fn collect_peers_defaults_unparsable_responses() {
    let responses = vec![("10.0.0.5".to_string(), "garbage".to_string())];
    let peers = collect_peers(&responses, "myhost");
    assert_eq!(peers.len(), 1);
    assert_eq!(peers[0].hostname, "Unknown");
    assert_eq!(peers[0].os, "Unknown");
}

#[test]
fn discovery_roundtrip_single_peer() {
    let response = make_response("peer1", "Linux");
    let responses = vec![("192.168.0.42".to_string(), response)];
    let peers = collect_peers(&responses, "myhost");
    assert_eq!(peers.len(), 1);
    assert_eq!(peers[0].ip, "192.168.0.42");
    assert_eq!(peers[0].hostname, "peer1");
    assert_eq!(peers[0].os, "Linux");
}

#[test]
fn label_or_unknown_keeps_value() {
    assert_eq!(label_or_unknown(Some("debian".to_string())), "debian");
}

#[test]
fn label_or_unknown_defaults_missing_value() {
    assert_eq!(label_or_unknown(None), "Unknown");
}

#[test]
fn local_identity_is_never_empty_of_meaning() {
    let host = local_hostname();
    let os = local_os();
    let resp = make_response(&host, &os);
    assert!(resp.starts_with("NAME:"));
    assert!(resp.contains("\nOS:"));
}
