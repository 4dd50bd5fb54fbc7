use julia_daemon::protocol::client;
use julia_daemon::protocol::notification;
use julia_daemon::protocol::worker;
use julia_daemon::protocol::{
    default_runtime_dir, full_address, is_all_ports, is_loopback, lenient_host_port, parse_address,
    parse_host_port, parse_port_range, random_socket_path, Ip, Platform, PortPool, TransportMode,
    DEFAULT_TCP_PORT,
};

#[test]
fn worker_message_type_round_trips_all_variants() {
    for (byte, variant) in [
        (0x01u8, worker::MessageType::Ping),
        (0x02, worker::MessageType::Pong),
        (0x10, worker::MessageType::SetProject),
        (0x11, worker::MessageType::ProjectOk),
        (0x20, worker::MessageType::ClientRun),
        (0x21, worker::MessageType::Sockets),
        (0x30, worker::MessageType::QueryState),
        (0x31, worker::MessageType::State),
        (0x32, worker::MessageType::QueryClients),
        (0x33, worker::MessageType::Clients),
        (0x40, worker::MessageType::SoftExit),
        (0x41, worker::MessageType::Ack),
        (0x50, worker::MessageType::SyncClients),
        (0x51, worker::MessageType::DropSession),
    ] {
        assert_eq!(worker::MessageType::from_u8(byte), variant);
        assert_eq!(variant.to_u8(), byte);
    }
}

#[test]
fn worker_message_type_unknown_byte_is_err() {
    assert_eq!(worker::MessageType::from_u8(0x99), worker::MessageType::Error);
}

#[test]
fn notification_type_round_trips_all_variants() {
    for (byte, variant) in [
        (0x01u8, notification::Type::ClientDone),
        (0x02, notification::Type::WorkerUnresponsive),
        (0x03, notification::Type::WorkerExit),
        (0x04, notification::Type::ClientExit),
        (0x05, notification::Type::ClientInterrupt),
    ] {
        assert_eq!(notification::Type::from_u8(byte), Some(variant));
    }
}

#[test]
fn notification_type_unknown_byte_is_none() {
    assert_eq!(notification::Type::from_u8(0x99), None);
}

#[test]
fn client_flags_tty_bit() {
    assert!(client::Flags(1).is_tty());
    assert!(!client::Flags(0).is_tty());
    assert_eq!(client::Flags::new(true), 1);
    assert_eq!(client::Flags::new(false), 0);
}

#[test]
fn worker_flags_pack_tty_and_force_independently() {
    assert_eq!(worker::Flags::new(false, false), 0);
    assert_eq!(worker::Flags::new(true, false), 1);
    assert_eq!(worker::Flags::new(false, true), 2);
    assert_eq!(worker::Flags::new(true, true), 3);
}

#[test]
fn parse_address_tcp_scheme() {
    let a = parse_address("tcp://127.0.0.1:9345").unwrap();
    assert_eq!(a.mode, TransportMode::Tcp);
    assert_eq!(a.addr, "127.0.0.1:9345");
}

#[test]
fn parse_address_bare_host_port_is_tcp() {
    let a = parse_address("localhost:9345").unwrap();
    assert_eq!(a.mode, TransportMode::Tcp);
}

#[test]
fn parse_address_path_is_unix() {
    let a = parse_address("/run/user/1000/julia-daemon/conductor.sock").unwrap();
    assert_eq!(a.mode, TransportMode::Unix);
}

#[test]
fn parse_address_relative_path_is_unix() {
    let a = parse_address("./conductor.sock").unwrap();
    assert_eq!(a.mode, TransportMode::Unix);
}

#[test]
fn parse_address_rejects_unknown_scheme() {
    assert!(parse_address("http://example.com").is_err());
}

#[test]
fn parse_host_port_explicit_port() {
    let addr = parse_host_port("127.0.0.1:1234", true).unwrap();
    assert_eq!(addr.port, 1234);
    assert_eq!(addr.host, "127.0.0.1");
    assert_eq!(addr.text(), "127.0.0.1:1234");
}

#[test]
fn parse_host_port_defaults_when_missing() {
    let addr = parse_host_port("127.0.0.1", true).unwrap();
    assert_eq!(addr.port, DEFAULT_TCP_PORT);
}

#[test]
fn parse_host_port_rejects_bad_port() {
    let e = parse_host_port("127.0.0.1:not-a-port", true).unwrap_err();
    assert_eq!(e, "Invalid port in '127.0.0.1:not-a-port'");
    assert_eq!(full_address("127.0.0.1:not-a-port"), None);
}

#[test]
fn parse_host_port_rejects_unresolvable_host() {
    // Names are no numeric addresses, whatever their port.
    let e = parse_host_port("localhost:1234", false).unwrap_err();
    assert_eq!(e, "Invalid address 'localhost:1234'");
    assert_eq!(full_address("localhost"), Some("localhost:9345".to_string()));
}

#[test]
fn port_pool_allocate_and_release() {
    let mut pool = PortPool::new(10000, 2);
    let a = pool.allocate().unwrap();
    let b = pool.allocate().unwrap();
    assert_ne!(a, b);
    assert!(pool.allocate().is_none());
    pool.release(a);
    assert_eq!(pool.allocate(), Some(a));
}

#[test]
fn port_pool_ports_for_index_are_four_apart() {
    let pool = PortPool::new(10000, 4);
    assert_eq!(pool.ports_for_index(0), [10000, 10001, 10002, 10003]);
    assert_eq!(pool.ports_for_index(1), [10004, 10005, 10006, 10007]);
}

#[test]
fn parse_port_range_valid() {
    assert_eq!(parse_port_range("10000-10015"), Some((10000, 4)));
}

#[test]
fn parse_port_range_invalid_or_too_narrow() {
    assert_eq!(parse_port_range("10000-10001"), None);
    assert_eq!(parse_port_range("10015-10000"), None);
    assert_eq!(parse_port_range("not-a-range"), None);
}

#[test]
fn is_loopback_v4() {
    assert!(is_loopback(&Ip::V4([127, 0, 0, 1])));
    assert!(!is_loopback(&Ip::V4([10, 0, 0, 1])));
}

#[test]
fn is_loopback_v6_mapped_v4() {
    assert!(is_loopback(&Ip::V6([0, 0, 0, 0, 0, 0xffff, 0x7f00, 0x0001])));
    assert!(is_loopback(&Ip::V6([0, 0, 0, 0, 0, 0, 0, 1])));
    assert!(!is_loopback(&Ip::V6([0, 0, 0, 0, 0, 0xffff, 0x0a00, 0x0001])));
}

#[test]
fn random_socket_path_is_unique_and_uses_suffix() {
    let a = random_socket_path("/run/user/1000/julia-daemon", "client", 7, 42, 0);
    let b = random_socket_path("/run/user/1000/julia-daemon", "client", 7, 42, 1);
    assert_ne!(a, b);
    assert!(a.starts_with("/run/user/1000/julia-daemon/"));
    assert!(a.ends_with("-client"));
    assert_eq!(a, "/run/user/1000/julia-daemon/000000070000002a0000-client");
}

#[test]
fn unknown_schemes_are_named() {
    let e = parse_address("http://example.com").unwrap_err();
    assert!(e.contains("http://example.com"));
}

#[test]
fn lenient_addresses_fall_back_to_the_default_port() {
    assert_eq!(lenient_host_port("10.0.0.1:x").port, DEFAULT_TCP_PORT);
    assert_eq!(lenient_host_port("10.0.0.1:80").port, 80);
    assert_eq!(lenient_host_port("10.0.0.1:x").host, "10.0.0.1");
}

#[test]
fn all_ports_are_too_many() {
    assert!(is_all_ports("0-65535"));
    assert!(!is_all_ports("1-65535"));
    assert_eq!(parse_port_range("1-65535"), Some((1, 16383)));
}

#[test]
fn released_sets_outside_the_pool_change_nothing() {
    let mut pool = PortPool::new(10000, 1);
    pool.release(7);
    assert_eq!(pool.allocate(), Some(0));
    assert_eq!(pool.allocate(), None);
    assert!(pool.has_ports(0));
    assert!(!PortPool::new(65535, 1).has_ports(0));
}

#[test]
fn runtime_directories_differ_by_platform() {
    assert_eq!(
        default_runtime_dir(Platform::Linux, Some("/run/user/1000"), Some("/home/u"), 1000),
        "/run/user/1000/julia-daemon"
    );
    assert_ne!(
        default_runtime_dir(Platform::MacOs, None, Some("/Users/u"), 501),
        default_runtime_dir(Platform::Linux, None, Some("/Users/u"), 501)
    );
}
