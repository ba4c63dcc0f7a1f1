use std::collections::hash_map::RandomState;
use std::path::PathBuf;

use yscloud::backend_choice::{
    backend_manager_lookup_best_backends, create_backend_key_internal, BackendAddress,
    BackendKeyInternal, BackendStatistics, CandidateList, StatsTable,
};
use yscloud::backends::{backend_set_prune, BackendError, BackendManager, BackendSet};
use yscloud::bin_str::{BinStr, BinStrBuf};
use yscloud::dialer::{dial_count, BackendStatistics as DialStatistics, LatencyDatapoint, LatencyHistory};
use yscloud::director::{
    SessionCommand, SessionCommandData, SessionCreateCommand, SessionManager as DirectorManager,
    SessionState as DirectorState,
};
use yscloud::ipv6_text::ipv6_to_string;
use yscloud::mgmt::{
    encode_dump_backends, encode_generic_error, encode_generic_ok, encode_print_active_sessions,
    take_line, write_session_info, AsciiManagerRequest,
};
use yscloud::proxy_model::{
    haproxy_version_text, ipv4_to_string, parse_haproxy_version_text, proxy_from_socket_addr_pair,
    proxy_v1_line, proxy_v1_line_for, socket_addr_pair_from_proxy, BackendArgs, BackendArgsFlags,
    HaproxyProxyHeaderVersion, NetworkLocationAddress, ProxyAddresses, SocketAddr,
};
use yscloud::session::{
    Session, SessionManager, SessionState, SocketAddrPair, SocketAddrV4, SocketAddrV6,
};
use yscloud::session_id::SessionId;
use yscloud::tls_sni::{
    alert_internal_error, alert_unrecognized_name, detect_sni_name, duration_milliseconds,
    encode_record, get_server_names, ClientHello, DetectStep, Extension, HelloDecode,
    ReadTimeout, ReadTimeoutPhase, SniDetectRecord, SniDetectorCodec, SniPassCodec, StartHandle,
    WriteTimeout,
};

fn v4(a: [u8; 4], port: u16) -> SocketAddrV4 {
    SocketAddrV4 { ip: a, port }
}

fn pair4() -> SocketAddrPair {
    SocketAddrPair::V4 { local_addr: v4([10, 0, 0, 1], 443), peer_addr: v4([192, 0, 2, 7], 51000) }
}

#[test]
fn alerts() {
    assert_eq!(alert_internal_error().alert_description, 80);
    assert_eq!(alert_unrecognized_name().alert_description, 112);
    assert_eq!(alert_unrecognized_name().to_display_string(), "alert #112");
}

#[test]
fn server_names() {
    let hello = ClientHello {
        extensions: vec![
            Extension::Unknown(10),
            Extension::ServerName(vec!["example.org".to_string()]),
            Extension::ServerName(vec!["other.org".to_string()]),
        ],
    };
    assert_eq!(get_server_names(&hello).unwrap(), &vec!["example.org".to_string()]);
    let none = ClientHello { extensions: vec![Extension::Unknown(10)] };
    assert_eq!(get_server_names(&none).unwrap_err().alert_description, 80);

    assert_eq!(
        detect_sni_name(&HelloDecode::Hello(hello.clone()), false).unwrap(),
        Some("example.org".to_string())
    );
    assert_eq!(detect_sni_name(&HelloDecode::Truncated, false).unwrap(), None);
    assert_eq!(detect_sni_name(&HelloDecode::Truncated, true).unwrap_err().alert_description, 80);
    assert_eq!(detect_sni_name(&HelloDecode::Invalid, false).unwrap_err().alert_description, 80);
    assert_eq!(
        detect_sni_name(&HelloDecode::Hello(none), false).unwrap_err().alert_description,
        112
    );
    let two = ClientHello {
        extensions: vec![Extension::ServerName(vec!["a".to_string(), "b".to_string()])],
    };
    assert_eq!(detect_sni_name(&HelloDecode::Hello(two), false).unwrap_err().alert_description, 80);
}

#[test]
fn sni_codecs() {
    let mut codec = SniDetectorCodec::new();
    assert_eq!(codec.max_length, 20480);
    let mut src = vec![1u8, 2, 3];
    assert!(matches!(codec.decode_step(&mut src), DetectStep::ParseHandshake));
    assert_eq!(src, vec![1, 2, 3]);
    let mut big = vec![0u8; 20481];
    match codec.decode_step(&mut big) {
        DetectStep::Fail(e) => assert_eq!(e.alert_description, 80),
        other => panic!("unexpected {:?}", other),
    }
    assert!(codec.finish_detection(&vec![]).is_err());
    assert!(!codec.emitted_sni);
    match codec.finish_detection(&vec!["host".to_string()]) {
        Ok(SniDetectRecord::SniHostname(h)) => assert_eq!(h, "host"),
        other => panic!("unexpected {:?}", other),
    }
    assert!(codec.emitted_sni);
    match codec.decode_step(&mut src) {
        DetectStep::Record(SniDetectRecord::PassThrough(b)) => assert_eq!(b, vec![1, 2, 3]),
        other => panic!("unexpected {:?}", other),
    }
    assert!(src.is_empty());
    assert!(matches!(codec.decode_step(&mut src), DetectStep::NeedMore));

    let mut dst = vec![9u8];
    encode_record(&SniDetectRecord::SniHostname("x".to_string()), &mut dst);
    encode_record(&SniDetectRecord::PassThrough(vec![4, 5]), &mut dst);
    assert_eq!(dst, vec![9, 4, 5]);
    assert_eq!(SniDetectRecord::PassThrough(vec![4, 5]).rec_byte_size(), 2);
    assert_eq!(SniDetectRecord::SniHostname("x".to_string()).rec_byte_size(), 0);

    let mut pass = SniPassCodec;
    let mut input = vec![7u8, 8];
    match pass.decode(&mut input) {
        Some(SniDetectRecord::PassThrough(b)) => assert_eq!(b, vec![7, 8]),
        other => panic!("unexpected {:?}", other),
    }
    assert!(pass.decode(&mut input).is_none());
    let mut out = Vec::new();
    pass.encode(&SniDetectRecord::PassThrough(vec![1]), &mut out);
    assert_eq!(out, vec![1]);
}

#[test]
fn timeouts_and_durations() {
    assert_eq!(
        ReadTimeout { phase: ReadTimeoutPhase::HaproxyHeader }.to_display_string(),
        "read timeout for haproxy header"
    );
    assert_eq!(
        ReadTimeout { phase: ReadTimeoutPhase::TlsHeader }.to_display_string(),
        "read timeout for tls header"
    );
    assert_eq!(WriteTimeout.to_display_string(), "WriteTimeout");
    assert_eq!(duration_milliseconds(2, 345_678_901), 2345);
    assert_eq!(duration_milliseconds(0, 999_999), 0);
}

#[test]
fn network_locations() {
    let tcp = SocketAddr::V4(v4([127, 0, 0, 1], 8443));
    match NetworkLocationAddress::from_str("unix:/run/a.sock", None) {
        NetworkLocationAddress::Unix(p) => assert_eq!(p, "/run/a.sock"),
        other => panic!("unexpected {:?}", other),
    }
    match NetworkLocationAddress::from_str("dns:example.org:443", None) {
        NetworkLocationAddress::Hostname(h) => assert_eq!(h, "example.org:443"),
        other => panic!("unexpected {:?}", other),
    }
    assert!(matches!(
        NetworkLocationAddress::from_str("127.0.0.1:8443", Some(tcp)),
        NetworkLocationAddress::Tcp(_)
    ));
    match NetworkLocationAddress::from_str("/var/run/https.staceyell.com", None) {
        NetworkLocationAddress::Unix(p) => assert_eq!(p, "/var/run/https.staceyell.com"),
        other => panic!("unexpected {:?}", other),
    }
    match NetworkLocationAddress::from_str("irc2.yshi.org", None) {
        NetworkLocationAddress::Hostname(h) => assert_eq!(h, "irc2.yshi.org"),
        other => panic!("unexpected {:?}", other),
    }
}

#[test]
fn haproxy_versions() {
    assert_eq!(haproxy_version_text(Some(HaproxyProxyHeaderVersion::Version1)), "use-haproxy-v1");
    assert_eq!(haproxy_version_text(Some(HaproxyProxyHeaderVersion::Version2)), "use-haproxy-v2");
    assert_eq!(haproxy_version_text(None), "none");
    for v in [None, Some(HaproxyProxyHeaderVersion::Version1), Some(HaproxyProxyHeaderVersion::Version2)] {
        assert_eq!(parse_haproxy_version_text(haproxy_version_text(v)), Ok(v));
    }
    assert_eq!(parse_haproxy_version_text("v3"), Err(()));
}

#[test]
fn proxy_address_roundtrip() {
    let pair = pair4();
    let h = proxy_from_socket_addr_pair(pair);
    match h {
        ProxyAddresses::IPv4 { source_address, destination_address, source_port, destination_port } => {
            assert_eq!(source_address, [192, 0, 2, 7]);
            assert_eq!(destination_address, [10, 0, 0, 1]);
            assert_eq!(source_port, Some(51000));
            assert_eq!(destination_port, Some(443));
        }
        other => panic!("unexpected {:?}", other),
    }
    match socket_addr_pair_from_proxy(h) {
        SocketAddrPair::V4 { local_addr, peer_addr } => {
            assert_eq!(local_addr, v4([10, 0, 0, 1], 443));
            assert_eq!(peer_addr, v4([192, 0, 2, 7], 51000));
        }
        other => panic!("unexpected {:?}", other),
    }
    let no_ports = ProxyAddresses::IPv4 {
        source_address: [1, 2, 3, 4],
        destination_address: [5, 6, 7, 8],
        source_port: None,
        destination_port: None,
    };
    match socket_addr_pair_from_proxy(no_ports) {
        SocketAddrPair::V4 { local_addr, peer_addr } => {
            assert_eq!(local_addr.port, 0);
            assert_eq!(peer_addr.port, 0);
        }
        other => panic!("unexpected {:?}", other),
    }
    assert!(matches!(socket_addr_pair_from_proxy(ProxyAddresses::Unspecified), SocketAddrPair::Unknown));
}

#[test]
fn proxy_lines() {
    assert_eq!(ipv4_to_string([192, 0, 2, 7]), "192.0.2.7");
    assert_eq!(
        proxy_v1_line(false, "192.0.2.7", "10.0.0.1", 51000, 443),
        "PROXY TCP4 192.0.2.7 10.0.0.1 51000 443\r\n"
    );
    assert_eq!(
        proxy_v1_line_for(pair4(), true),
        Some("PROXY TCP4 192.0.2.7 10.0.0.1 51000 443\r\n".to_string())
    );
    assert_eq!(
        proxy_v1_line_for(pair4(), false),
        Some("PROXY TCP4 10.0.0.1 192.0.2.7 443 51000\r\n".to_string())
    );
    let six = SocketAddrPair::V6 {
        local_addr: SocketAddrV6 { ip: [0x2001, 0xdb8, 0, 0, 0, 0, 0, 1], port: 443, flowinfo: 0, scope_id: 0 },
        peer_addr: SocketAddrV6 { ip: [0, 0, 0, 0, 0, 0, 0, 1], port: 9, flowinfo: 0, scope_id: 0 },
    };
    assert_eq!(
        proxy_v1_line_for(six, true),
        Some("PROXY TCP6 ::1 2001:db8::1 9 443\r\n".to_string())
    );
    assert_eq!(proxy_v1_line_for(SocketAddrPair::Unix, true), None);
}

#[test]
fn ipv6_texts() {
    assert_eq!(ipv6_to_string([0, 0, 0, 0, 0, 0, 0, 0]), "::");
    assert_eq!(ipv6_to_string([0, 0, 0, 0, 0, 0, 0, 1]), "::1");
    assert_eq!(ipv6_to_string([0x2001, 0xdb8, 0, 0, 1, 0, 0, 1]), "2001:db8::1:0:0:1");
    assert_eq!(ipv6_to_string([0x2001, 0xdb8, 0, 1, 1, 1, 1, 1]), "2001:db8:0:1:1:1:1:1");
    assert_eq!(ipv6_to_string([0, 0, 0, 0, 0, 0xffff, 0xc000, 0x0280]), "::ffff:192.0.2.128");
    assert_eq!(ipv6_to_string([0xfe80, 0, 0, 0, 0x1, 0x2, 0x3, 0x4]), "fe80::1:2:3:4");
    assert_eq!(ipv6_to_string([1, 2, 3, 4, 5, 6, 7, 8]), "1:2:3:4:5:6:7:8");
    assert_eq!(ipv6_to_string([0, 0, 1, 0, 0, 0, 1, 0]), "0:0:1::1:0");
    assert_eq!(ipv6_to_string([0xffff; 8]), "ffff:ffff:ffff:ffff:ffff:ffff:ffff:ffff");
    assert_eq!(ipv6_to_string([1, 0, 2, 3, 4, 5, 6, 7]), "1:0:2:3:4:5:6:7");
}

#[test]
fn binary_strings() {
    // Letter escapes for the first control bytes, hex for the others; quotes
    // and backslashes are written as they are.
    assert_eq!(BinStr(b"ab\n\x00\xff\"").to_debug_string(), "b\"ab\\n\\0\\xff\"\"");
    assert_eq!(BinStrBuf(b"t\\".to_vec()).to_debug_string(), "b\"t\\\".to_vec()");
}

#[test]
fn session_ids() {
    let id = SessionId::from_base62("0o5Fs0EELR0fUjHjbCnEtdUwQe3").unwrap();
    assert_eq!(u32::from_be_bytes([id.0[0], id.0[1], id.0[2], id.0[3]]), 94985761);
    assert_eq!(id.to_base62(), "0o5Fs0EELR0fUjHjbCnEtdUwQe3");
    assert!(SessionId::from_base62("short").is_none());
    let fresh = SessionId::generate();
    let text = fresh.to_base62();
    assert_eq!(text.len(), 27);
    assert_eq!(SessionId::from_base62(&text), Some(fresh));
}

fn new_session(id: SessionId, now: u64) -> Session {
    Session::new(id, 1000, pair4(), now)
}

#[test]
fn session_lifecycle() {
    let id = SessionId([1; 20]);
    let mut m = SessionManager::new();
    m.add_session(new_session(id, 1000));
    m.mark_backend_resolving(&id, "example.org", 1100);
    m.mark_backend_connecting(&id, 1150);
    m.mark_connected(&id, 1400);
    m.handle_xmit_client_to_backend(&id, 10, 1500);
    m.handle_xmit_backend_to_client(&id, 20, 1600);
    let s = m.get_sessions();
    assert_eq!(s.len(), 1);
    assert_eq!(s[0].state, SessionState::Connected);
    assert_eq!(s[0].backend_name, Some("example.org".to_string()));
    assert_eq!(s[0].backend_resolve_latency, Some(50));
    assert_eq!(s[0].backend_connect_latency, Some(250));
    assert_eq!(s[0].bytes_client_to_backend, 10);
    assert_eq!(s[0].bytes_backend_to_client, 20);
    assert_eq!(s[0].last_xmit, 1600);

    m.mark_shutdown_read(&id, 2000);
    assert_eq!(m.get_sessions()[0].state, SessionState::ShutdownRead);
    m.mark_shutdown_write(&id, 2000);
    assert_eq!(m.get_sessions()[0].state, SessionState::Shutdown);
    // The closed session is forgotten thirty seconds later, on the next update.
    let other = SessionId([2; 20]);
    m.add_session(new_session(other, 31999));
    m.mark_connected(&other, 31999);
    assert_eq!(m.get_sessions().len(), 2);
    m.mark_connected(&other, 32000);
    let left = m.get_sessions();
    assert_eq!(left.len(), 1);
    assert_eq!(left[0].session_id, other);

    assert_eq!(m.destroy(&other), Ok(()));
    assert_eq!(m.destroy(&other), Err(()));
    assert_eq!(m.destroy(&id), Err(()));
    assert_eq!(SessionState::BackendResolving.as_str(), "backend-resolving");
}

#[test]
fn shutdown_in_either_order() {
    let id = SessionId([3; 20]);
    let mut m = SessionManager::new();
    m.add_session(new_session(id, 0));
    m.mark_shutdown_write(&id, 5);
    assert_eq!(m.get_sessions()[0].state, SessionState::ShutdownWrite);
    m.mark_shutdown_read(&id, 6);
    assert_eq!(m.get_sessions()[0].state, SessionState::Shutdown);
    m.mark_shutdown(&id, 7);
    assert_eq!(m.get_sessions()[0].state, SessionState::Shutdown);
}

#[test]
fn director_commands() {
    let id = SessionId([4; 20]);
    let mut m = DirectorManager::new();
    let create = SessionCreateCommand { start_time: 10, client_conn: pair4() };
    m.apply_command(&SessionCommand { session_id: id, data: SessionCommandData::Create(create) }, 10);
    m.apply_command(&SessionCommand { session_id: id, data: SessionCommandData::StartConnecting }, 11);
    assert_eq!(m.get_sessions()[0].state, DirectorState::Handshaking);
    m.apply_command(
        &SessionCommand { session_id: id, data: SessionCommandData::Connected(pair4(), 7) },
        12,
    );
    m.apply_command(&SessionCommand { session_id: id, data: SessionCommandData::XmitClientToBackend(5) }, 13);
    m.apply_command(&SessionCommand { session_id: id, data: SessionCommandData::XmitBackendToClient(6) }, 14);
    let s = m.get_sessions();
    assert_eq!(s.len(), 1);
    assert_eq!(s[0].state, DirectorState::Connected);
    assert_eq!(s[0].backend_connect_latency, Some(7));
    assert_eq!(s[0].bytes_client_to_backend, 5);
    assert_eq!(s[0].bytes_backend_to_client, 6);
    m.apply_command(&SessionCommand { session_id: id, data: SessionCommandData::Destroy }, 15);
    assert!(m.get_sessions().is_empty());
    assert_eq!(DirectorState::ShutdownWrite.as_str(), "shutdown-write");
}

#[test]
fn management_requests() {
    match AsciiManagerRequest::from_str("print-active-sessions", None).unwrap() {
        AsciiManagerRequest::PrintActiveSessions => {}
        other => panic!("unexpected {:?}", other),
    }
    match AsciiManagerRequest::from_str("destroy-session 0o5Fs0EELR0fUjHjbCnEtdUwQe3", None).unwrap() {
        AsciiManagerRequest::DestroySession(id) => {
            assert_eq!(id.to_base62(), "0o5Fs0EELR0fUjHjbCnEtdUwQe3")
        }
        other => panic!("unexpected {:?}", other),
    }
    let e = AsciiManagerRequest::from_str("destroy-session", None).unwrap_err();
    assert!(e.recoverable);
    assert_eq!(e.message, "destroy-session takes one argument (a ksuid)");
    let e = AsciiManagerRequest::from_str("destroy-session nope", None).unwrap_err();
    assert_eq!(e.message, "destroy-session first argument: invalid ksuid");
    let e = AsciiManagerRequest::from_str("frobnicate now", None).unwrap_err();
    assert_eq!(e.message, "unknown command: frobnicate now");
    match AsciiManagerRequest::from_str("remove-backends example.org", None).unwrap() {
        AsciiManagerRequest::RemoveBackends(rb) => assert_eq!(rb.hostname, "example.org"),
        other => panic!("unexpected {:?}", other),
    }
    let word = AsciiManagerRequest::address_word("replace-backend example.org 127.0.0.1:80 use-haproxy-v2");
    assert_eq!(word, Some("127.0.0.1:80".to_string()));
    assert_eq!(AsciiManagerRequest::address_word("quit"), None);
    let tcp = SocketAddr::V4(v4([127, 0, 0, 1], 80));
    let e = AsciiManagerRequest::from_str("replace-backend example.org 127.0.0.1:80 use-haproxy-v2", Some(tcp))
        .unwrap_err();
    assert_eq!(e.message, "use-haproxy-v2 not supported yet");
    match AsciiManagerRequest::from_str("replace-backend example.org 127.0.0.1:80 use-haproxy-v1", Some(tcp))
        .unwrap()
    {
        AsciiManagerRequest::ReplaceBackend(args) => {
            assert_eq!(args.hostname, "example.org");
            assert!(args.target_address.use_haproxy_header_v);
            assert!(matches!(args.target_address.address, NetworkLocationAddress::Tcp(_)));
            assert!(args.flags.is_empty());
        }
        other => panic!("unexpected {:?}", other),
    }
    match AsciiManagerRequest::from_str("quit", None).unwrap() {
        AsciiManagerRequest::Quit => {}
        other => panic!("unexpected {:?}", other),
    }
}

#[test]
fn management_lines() {
    let mut buf = b"  dump-backends \r\nrest".to_vec();
    assert_eq!(take_line(&mut buf).unwrap(), Some("dump-backends".to_string()));
    assert_eq!(buf, b"rest".to_vec());
    assert_eq!(take_line(&mut buf).unwrap(), None);
    assert_eq!(buf, b"rest".to_vec());
    let mut bad = vec![0xff, b'\n'];
    let e = take_line(&mut bad).unwrap_err();
    assert!(!e.recoverable);
    assert!(e.message.starts_with("could not process line: "));
    let mut long = vec![b'a'; 4097];
    assert!(take_line(&mut long).is_err());
    let mut just = vec![b'a'; 4096];
    assert_eq!(take_line(&mut just).unwrap(), None);
}

#[test]
fn management_answers() {
    let mut dst = Vec::new();
    encode_generic_ok(&mut dst);
    encode_generic_error("", &mut dst);
    encode_generic_error("boom", &mut dst);
    encode_dump_backends("{}", &mut dst);
    assert_eq!(String::from_utf8(dst).unwrap(), "OK\nERROR\nERROR: boom\n{}\nOK\n");
}

#[test]
fn session_listing() {
    let id = SessionId::from_base62("0o5Fs0EELR0fUjHjbCnEtdUwQe3").unwrap();
    let mut m = SessionManager::new();
    m.add_session(Session::new(id, 1000, pair4(), 1000));
    m.mark_backend_resolving(&id, "b.example", 1000);
    m.mark_backend_connecting(&id, 1000);
    m.mark_connected(&id, 1020);
    let sessions = m.get_sessions();
    let line = write_session_info(&sessions[0], 1500);
    assert_eq!(
        line,
        "0o5Fs0EELR0fUjHjbCnEtdUwQe3 connected 10.0.0.1:443,192.0.2.7:51000 backend_name=b.example backend_connect_latency_ms=20 session_age_ms=500 last_xmit_ago_ms=500 client_to_backend_bytes=0 backend_to_client_bytes=0 \n"
    );
    let mut dst = Vec::new();
    assert_eq!(encode_print_active_sessions(&sessions, 1500, &mut dst), Ok(()));
    assert_eq!(String::from_utf8(dst).unwrap(), format!("{}END\n", line));
}

fn args(host: &str, path: &str, flags: Vec<BackendArgsFlags>) -> BackendArgs {
    BackendArgs {
        hostname: host.to_string(),
        target_address: NetworkLocationAddress::Unix(path.to_string()),
        flags,
    }
}

#[test]
fn backend_table() {
    let mut m = BackendManager::new();
    let v2 = BackendArgsFlags::UseHaproxy(HaproxyProxyHeaderVersion::Version2);
    let v1 = BackendArgsFlags::UseHaproxy(HaproxyProxyHeaderVersion::Version1);
    let a = m.add_backend(&args("h", "/a", vec![v2])).unwrap();
    let _b = m.add_backend(&args("h", "/b", vec![v2])).unwrap();
    assert_eq!(
        m.add_backend(&args("h", "/c", vec![v1])).unwrap_err(),
        BackendError::HaproxyProxyHeaderVersionMismatch
    );
    assert_eq!(
        m.add_backend(&args("h", "/c", vec![v1, v2])).unwrap_err(),
        BackendError::DuplicateHaproxyVersion
    );
    let set = m.sync_resolve("h").unwrap();
    assert_eq!(set.locations.len(), 1);
    assert_eq!(set.haproxy_header_version, Some(HaproxyProxyHeaderVersion::Version2));
    assert_eq!(m.sync_resolve("nobody").unwrap_err().alert_description, 112);

    m.remove_backend("h", &a);
    assert_eq!(m.sync_resolve("h").unwrap().locations.len(), 1);
    let c = m.replace_backend(&args("h", "/c", vec![])).unwrap();
    let set = m.sync_resolve("h").unwrap();
    assert_eq!(set.haproxy_header_version, None);
    assert_eq!(set.locations[0].0, c);
    m.remove_backend("h", &c);
    assert!(m.sync_resolve("h").is_err());
    m.add_backend(&args("g", "/g", vec![])).unwrap();
    m.remove_backends("g");
    assert!(m.sync_resolve("g").is_err());

    let empty = BackendSet {
        haproxy_header_version: None,
        haproxy_header_allow_passthrough: false,
        locations: vec![],
    };
    assert!(backend_set_prune(&empty).locations.is_empty());
}

#[test]
fn synchronous_in_memory_resolver() {
    let backend_paths = vec![
        BackendAddress::UnixSocket(PathBuf::from("/foobar1")),
        BackendAddress::UnixSocket(PathBuf::from("/foobar2")),
        BackendAddress::UnixSocket(PathBuf::from("/foobar3")),
    ];

    let mut candidates = CandidateList::new();

    let unix_socket_hasher1 = RandomState::default();
    let unix_socket_hasher2 = RandomState::default();
    let mut stats = StatsTable::new();

    let backend0_ikey =
        create_backend_key_internal(&unix_socket_hasher1, &unix_socket_hasher2, &backend_paths[0]);

    let now: u64 = 5_000_000;
    let mut st = BackendStatistics::starting_at(now);
    st.failure_count = 10;
    st.next_allowed_attempt = now + 1000;
    stats.insert(backend0_ikey, st);

    backend_manager_lookup_best_backends(
        &backend_paths[..],
        &unix_socket_hasher1,
        &unix_socket_hasher2,
        &stats,
        &mut candidates,
        10,
        now,
    );

    assert_eq!(candidates.len(), 2);
}

#[test]
fn backend_choice_limits_and_keys() {
    let h1 = RandomState::default();
    let h2 = RandomState::default();
    let backends = vec![
        BackendAddress::TcpV4(0x7f00_0001),
        BackendAddress::TcpV6(1),
        BackendAddress::TcpV4(0x0a00_0001),
    ];
    assert_eq!(create_backend_key_internal(&h1, &h2, &backends[0]), BackendKeyInternal::TcpV4(0x7f00_0001));
    let mut stats = StatsTable::new();
    let mut st = BackendStatistics::starting_at(100);
    assert_eq!(st.last_attempt, 0);
    assert_eq!(BackendStatistics::starting_at(700_000).last_attempt, 100_000);
    st.next_allowed_attempt = 50;
    stats.insert(BackendKeyInternal::TcpV6(1), st);
    let mut into = CandidateList::new();
    backend_manager_lookup_best_backends(&backends, &h1, &h2, &stats, &mut into, 2, 40);
    assert_eq!(into.len(), 2);
    assert_eq!(into.get(0), 0);
    assert_eq!(into.get(1), 2);
    let mut into2 = CandidateList::new();
    backend_manager_lookup_best_backends(&backends, &h1, &h2, &stats, &mut into2, 2, 50);
    assert_eq!(into2.get(1), 1);
    // A list already holding the limit gets no more.
    backend_manager_lookup_best_backends(&backends, &h1, &h2, &stats, &mut into2, 2, 50);
    assert_eq!(into2.len(), 2);
    assert_eq!(stats.get(&BackendKeyInternal::TcpV6(1)).unwrap().next_allowed_attempt, 50);
    assert!(stats.get(&BackendKeyInternal::TcpV6(2)).is_none());
}

#[test]
fn latency_history() {
    let mut h = LatencyHistory::new(3);
    h.update(LatencyDatapoint { when: 1, latency: 30 });
    h.update(LatencyDatapoint { when: 2, latency: 10 });
    h.update(LatencyDatapoint { when: 3, latency: 20 });
    assert_eq!(h.ninety_fifth(), 30);
    // Full: the oldest point (latency 30) gives way.
    h.update(LatencyDatapoint { when: 4, latency: 5 });
    assert_eq!(h.ninety_fifth(), 20);
    // Sorted by latency: 5 (started at 4), 10 (at 2), 20 (at 3).
    assert_eq!(h.find_oldest_index(), 1);
}

#[test]
fn backoff_after_failures() {
    let mut s = DialStatistics {
        failure_count: 0,
        attempt_scaling_factor: 1000,
        last_attempt: 0,
        next_allowed_attempt: 0,
        handshake_latency: LatencyHistory::new(4),
    };
    s.mark_failed_event(StartHandle { attempt_start: 100 });
    assert_eq!(s.failure_count, 1);
    assert_eq!(s.next_allowed_attempt, 1100);
    s.mark_failed_event(StartHandle { attempt_start: 100 });
    assert_eq!(s.next_allowed_attempt, 2100);
    s.mark_failed_event(StartHandle { attempt_start: 100 });
    assert_eq!(s.next_allowed_attempt, 4100);
    s.failure_count = 15;
    s.mark_failed_event(StartHandle { attempt_start: 0 });
    assert_eq!(s.failure_count, 10);
    assert_eq!(s.next_allowed_attempt, 512_000);
    s.mark_successful_attempt(StartHandle { attempt_start: 10 }, 25);
    assert_eq!(s.handshake_latency.ninety_fifth(), 15);
    assert_eq!(dial_count(2), 2);
    assert_eq!(dial_count(9), 4);
}

use yscloud::haproxy::{detect_haproxy_header, haproxy_outcome, HaproxyHeaderError, ProxyParse};

#[test]
fn haproxy_v1_headers() {
    let data = b"PROXY TCP4 192.168.0.1 192.168.0.11 56324 443\r\nGET / HTTP/1.1\r\n";
    let (n, addrs) = detect_haproxy_header(HaproxyProxyHeaderVersion::Version1, data, false)
        .unwrap()
        .unwrap();
    assert_eq!(n, 47);
    match addrs {
        ProxyAddresses::IPv4 { source_address, destination_address, source_port, destination_port } => {
            assert_eq!(source_address, [192, 168, 0, 1]);
            assert_eq!(destination_address, [192, 168, 0, 11]);
            assert_eq!(source_port, Some(56324));
            assert_eq!(destination_port, Some(443));
        }
        other => panic!("unexpected {:?}", other),
    }
    let partial = b"PROXY TCP4 192.168";
    assert!(detect_haproxy_header(HaproxyProxyHeaderVersion::Version1, partial, false).unwrap().is_none());
    assert_eq!(
        detect_haproxy_header(HaproxyProxyHeaderVersion::Version1, partial, true).unwrap_err(),
        HaproxyHeaderError::IncompleteHandshake
    );
    assert_eq!(
        detect_haproxy_header(HaproxyProxyHeaderVersion::Version1, b"HELLO THERE\r\n", false).unwrap_err(),
        HaproxyHeaderError::InvalidHandshake
    );
}

#[test]
fn haproxy_v2_headers() {
    let mut data: Vec<u8> = vec![
        0x0D, 0x0A, 0x0D, 0x0A, 0x00, 0x0D, 0x0A, 0x51, 0x55, 0x49, 0x54, 0x0A, 0x21, 0x11, 0x00, 0x0C,
        127, 0, 0, 1, 127, 0, 0, 2, 0, 80, 1, 187,
    ];
    data.extend_from_slice(b"rest");
    let (n, addrs) = detect_haproxy_header(HaproxyProxyHeaderVersion::Version2, &data, false)
        .unwrap()
        .unwrap();
    assert_eq!(n, 28);
    match addrs {
        ProxyAddresses::IPv4 { source_address, destination_address, source_port, destination_port } => {
            assert_eq!(source_address, [127, 0, 0, 1]);
            assert_eq!(destination_address, [127, 0, 0, 2]);
            assert_eq!(source_port, Some(80));
            assert_eq!(destination_port, Some(443));
        }
        other => panic!("unexpected {:?}", other),
    }
    assert!(detect_haproxy_header(HaproxyProxyHeaderVersion::Version2, &data[..20], false).unwrap().is_none());
    assert_eq!(
        detect_haproxy_header(HaproxyProxyHeaderVersion::Version2, b"GET / HTTP/1.1\r\n", true).unwrap_err(),
        HaproxyHeaderError::InvalidHandshake
    );
}

#[test]
fn haproxy_decisions() {
    assert!(matches!(haproxy_outcome(ProxyParse::Header(3, ProxyAddresses::Unspecified), true), Ok(Some((3, _)))));
    assert!(matches!(haproxy_outcome(ProxyParse::Incomplete, false), Ok(None)));
    assert_eq!(haproxy_outcome(ProxyParse::Incomplete, true).unwrap_err(), HaproxyHeaderError::IncompleteHandshake);
    assert_eq!(haproxy_outcome(ProxyParse::Invalid, false).unwrap_err(), HaproxyHeaderError::InvalidHandshake);
    assert_eq!(HaproxyHeaderError::InvalidHandshake.to_display_string(), "invalid handshake");
    assert_eq!(HaproxyHeaderError::IncompleteHandshake.to_display_string(), "incomplete handshake");
}

use yscloud::memory_resolver::{Backend as ConfigBackend, MemoryResolver, NetworkLocation as ConfigLocation};

#[test]
fn config_test() {
    let mut resolver = MemoryResolver::new();
    resolver.hostnames.insert(
        "irc2.yshi.org".to_string(),
        ConfigBackend {
            use_haproxy_header: true,
            location: ConfigLocation::Tcp(SocketAddr::V4(v4([45, 79, 89, 177], 443))),
        },
    );
    resolver.hostnames.insert(
        "staceyell.com".to_string(),
        ConfigBackend {
            use_haproxy_header: true,
            location: ConfigLocation::Unix("/var/run/https.staceyell.com".to_string()),
        },
    );
    assert!(resolver.use_haproxy_header("irc2.yshi.org"));
    assert!(resolver.use_haproxy_header("staceyell.com"));
    assert!(!resolver.use_haproxy_header("unknown.example"));
    match resolver.resolve("staceyell.com").unwrap() {
        ConfigLocation::Unix(p) => assert_eq!(p, "/var/run/https.staceyell.com"),
        other => panic!("unexpected {:?}", other),
    }
    assert_eq!(resolver.resolve("unknown.example").unwrap_err().alert_description, 112);
}

#[test]
fn socket_addr_pairs() {
    let local = SocketAddr::V4(v4([10, 0, 0, 1], 443));
    let peer = SocketAddr::V4(v4([192, 0, 2, 7], 51000));
    let pair = SocketAddrPair::from_pair(local, peer).unwrap();
    assert!(matches!(pair.peer_addr(), Some(SocketAddr::V4(a)) if a == v4([192, 0, 2, 7], 51000)));
    assert!(matches!(pair.local_addr(), Some(SocketAddr::V4(a)) if a == v4([10, 0, 0, 1], 443)));
    let six = SocketAddr::V6(SocketAddrV6 { ip: [0, 0, 0, 0, 0, 0, 0, 1], port: 1, flowinfo: 0, scope_id: 0 });
    let e = SocketAddrPair::from_pair(local, six).unwrap_err();
    assert_eq!(e.to_display_string(), "address families must match");
    assert!(SocketAddrPair::Unix.peer_addr().is_none());
    assert!(SocketAddrPair::Unknown.local_addr().is_none());
}

use yscloud::haproxy::write_haproxy_header_from_socketaddr;

const V2_SIGNATURE: [u8; 12] = [0x0d, 0x0a, 0x0d, 0x0a, 0x00, 0x0d, 0x0a, 0x51, 0x55, 0x49, 0x54, 0x0a];

#[test]
fn haproxy_header_written_for_pair() {
    let mut dst = b"xy".to_vec();
    write_haproxy_header_from_socketaddr(&mut dst, HaproxyProxyHeaderVersion::Version1, pair4());
    assert_eq!(dst, b"xyPROXY TCP4 192.0.2.7 10.0.0.1 51000 443\r\n".to_vec());

    let mut v2 = Vec::new();
    write_haproxy_header_from_socketaddr(&mut v2, HaproxyProxyHeaderVersion::Version2, pair4());
    let mut expected = V2_SIGNATURE.to_vec();
    expected.extend_from_slice(&[0x21, 0x11, 0, 12, 192, 0, 2, 7, 10, 0, 0, 1, 0xc7, 0x38, 0x01, 0xbb]);
    assert_eq!(v2, expected);
    // What is written parses back to the same addresses.
    match detect_haproxy_header(HaproxyProxyHeaderVersion::Version2, &v2, true) {
        Ok(Some((n, addrs))) => {
            assert_eq!(n, v2.len());
            assert_eq!(format!("{:?}", socket_addr_pair_from_proxy(addrs)), format!("{:?}", pair4()));
        }
        other => panic!("unexpected {:?}", other),
    }
    match detect_haproxy_header(HaproxyProxyHeaderVersion::Version1, &dst[2..], true) {
        Ok(Some((n, addrs))) => {
            assert_eq!(n, dst.len() - 2);
            assert_eq!(format!("{:?}", socket_addr_pair_from_proxy(addrs)), format!("{:?}", pair4()));
        }
        other => panic!("unexpected {:?}", other),
    }
}

#[test]
fn haproxy_header_for_unknown_pair() {
    let mut v1 = Vec::new();
    write_haproxy_header_from_socketaddr(&mut v1, HaproxyProxyHeaderVersion::Version1, SocketAddrPair::Unknown);
    assert_eq!(v1, b"PROXY UNKNOWN\r\n".to_vec());
    let mut v2 = Vec::new();
    write_haproxy_header_from_socketaddr(&mut v2, HaproxyProxyHeaderVersion::Version2, SocketAddrPair::Unix);
    let mut expected = V2_SIGNATURE.to_vec();
    expected.extend_from_slice(&[0x21, 0x01, 0, 0]);
    assert_eq!(v2, expected);
}

#[test]
fn haproxy_v2_header_for_ipv6_pair() {
    let mut ip = [0u16; 8];
    ip[0] = 0x2001;
    ip[1] = 0x0db8;
    ip[7] = 1;
    let mut ip2 = [0u16; 8];
    ip2[0] = 0xfe80;
    ip2[7] = 0x0102;
    let pair = SocketAddrPair::V6 {
        local_addr: SocketAddrV6 { ip: ip2, port: 443, flowinfo: 0, scope_id: 0 },
        peer_addr: SocketAddrV6 { ip, port: 1024, flowinfo: 0, scope_id: 0 },
    };
    let mut v2 = Vec::new();
    write_haproxy_header_from_socketaddr(&mut v2, HaproxyProxyHeaderVersion::Version2, pair);
    assert_eq!(v2.len(), 16 + 36);
    assert_eq!(&v2[12..16], &[0x21, 0x21, 0, 36]);
    assert_eq!(&v2[16..20], &[0x20, 0x01, 0x0d, 0xb8]);
    assert_eq!(&v2[46..48], &[0x01, 0x02]);
    assert_eq!(&v2[48..52], &[0x04, 0x00, 0x01, 0xbb]);
}

use yscloud::haproxy::{backend_stream_prefix, write_haproxy_header_from_parsed};
use yscloud::session::Direction;

#[test]
fn transfers_count_per_direction() {
    let id = SessionId([7; 20]);
    let mut m = SessionManager::new();
    m.add_session(new_session(id, 1000));
    m.record_transfer(Direction::ClientToBackend, &id, &SniDetectRecord::PassThrough(vec![1, 2, 3]), 1100);
    m.record_transfer(Direction::BackendToClient, &id, &SniDetectRecord::PassThrough(vec![4; 10]), 1200);
    m.record_transfer(Direction::ClientToBackend, &id, &SniDetectRecord::SniHostname("a.example".to_string()), 1300);
    let s = m.get_sessions();
    assert_eq!(s[0].bytes_client_to_backend, 3);
    assert_eq!(s[0].bytes_backend_to_client, 10);
    assert_eq!(s[0].last_xmit, 1300);
}

#[test]
fn header_rebuilt_from_client_header() {
    let parsed = ProxyAddresses::IPv4 {
        source_address: [198, 51, 100, 2],
        destination_address: [203, 0, 113, 9],
        source_port: Some(40000),
        destination_port: Some(443),
    };
    let mut v1 = Vec::new();
    write_haproxy_header_from_parsed(&mut v1, HaproxyProxyHeaderVersion::Version1, &parsed);
    assert_eq!(v1, b"PROXY TCP4 198.51.100.2 203.0.113.9 40000 443\r\n".to_vec());
    let mut v2 = Vec::new();
    write_haproxy_header_from_parsed(&mut v2, HaproxyProxyHeaderVersion::Version2, &parsed);
    assert_eq!(&v2[12..], &[0x21, 0x11, 0, 12, 198, 51, 100, 2, 203, 0, 113, 9, 0x9c, 0x40, 0x01, 0xbb]);
    let mut u = Vec::new();
    write_haproxy_header_from_parsed(&mut u, HaproxyProxyHeaderVersion::Version1, &ProxyAddresses::Unspecified);
    assert_eq!(u, b"PROXY UNKNOWN\r\n".to_vec());
}

#[test]
fn backend_prefix_choice() {
    let hello = b"\x16\x03\x01hello";
    let parsed = ProxyAddresses::IPv4 {
        source_address: [198, 51, 100, 2],
        destination_address: [203, 0, 113, 9],
        source_port: Some(40000),
        destination_port: Some(443),
    };
    // No header asked for: the handshake alone.
    assert_eq!(backend_stream_prefix(None, true, Some(parsed), pair4(), hello), hello.to_vec());
    // Passed through: the client's header, then the handshake.
    let mut expected = b"PROXY TCP4 198.51.100.2 203.0.113.9 40000 443\r\n".to_vec();
    expected.extend_from_slice(hello);
    assert_eq!(
        backend_stream_prefix(Some(HaproxyProxyHeaderVersion::Version1), true, Some(parsed), pair4(), hello),
        expected
    );
    // Not allowed to pass through: written for the connection.
    let mut own = b"PROXY TCP4 192.0.2.7 10.0.0.1 51000 443\r\n".to_vec();
    own.extend_from_slice(hello);
    assert_eq!(
        backend_stream_prefix(Some(HaproxyProxyHeaderVersion::Version1), false, Some(parsed), pair4(), hello),
        own
    );
    assert_eq!(
        backend_stream_prefix(Some(HaproxyProxyHeaderVersion::Version1), true, None, pair4(), hello),
        own
    );
}

use yscloud::sni_route::plan_backend_connection;

#[test]
fn backend_connection_plans() {
    let mut m = BackendManager::new();
    let v1 = BackendArgsFlags::UseHaproxy(HaproxyProxyHeaderVersion::Version1);
    let id = m.add_backend(&args("svc.example", "/run/svc.sock", vec![v1])).unwrap();
    let hello = b"\x16\x03\x01";
    match plan_backend_connection(&m, "svc.example", None, pair4(), hello) {
        Ok((got, loc, prefix)) => {
            assert_eq!(got, id);
            assert!(matches!(loc, NetworkLocationAddress::Unix(ref p) if p == "/run/svc.sock"));
            let mut expected = b"PROXY TCP4 192.0.2.7 10.0.0.1 51000 443\r\n".to_vec();
            expected.extend_from_slice(hello);
            assert_eq!(prefix, expected);
        }
        Err(e) => panic!("unexpected {:?}", e),
    }
    let err = plan_backend_connection(&m, "other.example", None, pair4(), hello).unwrap_err();
    assert_eq!(err.alert_description, 112);
    m.add_backend(&args("plain.example", "/run/p.sock", vec![])).unwrap();
    let (_, _, prefix) = plan_backend_connection(&m, "plain.example", None, pair4(), hello).unwrap();
    assert_eq!(prefix, hello.to_vec());
}

use yscloud::session::ReadSide;

#[test]
fn reads_update_the_session() {
    let id = SessionId([9; 20]);
    let mut m = SessionManager::new();
    m.add_session(new_session(id, 1000));
    assert!(!m.after_read(ReadSide::Backend, &id, 5, 1100));
    assert!(!m.after_read(ReadSide::Client, &id, 7, 1200));
    let s = m.get_sessions();
    assert_eq!(s[0].bytes_client_to_backend, 5);
    assert_eq!(s[0].bytes_backend_to_client, 7);
    assert!(m.after_read(ReadSide::Backend, &id, 0, 1300));
    assert_eq!(m.get_sessions()[0].state, SessionState::ShutdownRead);
    assert!(m.after_read(ReadSide::Client, &id, 0, 1400));
    assert_eq!(m.get_sessions()[0].state, SessionState::Shutdown);
}
