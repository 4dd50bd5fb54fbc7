use julia_daemon::args::Switch;
use julia_daemon::client_run::{decode_error, decode_sockets, encode_client_run};
use julia_daemon::env_cache::EnvVar;
use julia_daemon::handshake::{
    decode_env, decode_request, encode_env, encode_request, lossy_texts, RawRequest,
};
use julia_daemon::messages::{
    decode_clients, decode_count, decode_header, encode_drop_session, encode_header, encode_magic,
    encode_set_project, encode_sync_clients, fits_message, fits_sync, project_reply, ProjectReply,
};
use julia_daemon::protocol::notification::Type;
use julia_daemon::protocol::worker::MessageType;
use julia_daemon::protocol::TransportMode;
use julia_daemon::streams::{
    classify_magic, conductor_host, decode_notice, decode_paths, decode_paths_at_end,
    encode_notice, encode_paths, encode_socket_paths, is_env_request, offer, stream_address,
    Greeting,
};
use julia_daemon::wire::{push_counted, push_le, read_counted, read_le, read_list, Read};
use julia_daemon::worker::{ClientInfo, SocketPaths};

fn var(key: &str, value: &str) -> EnvVar {
    EnvVar { key: key.to_string(), value: value.to_string() }
}

fn strings(items: &[&str]) -> Vec<String> {
    let mut out = vec![];
    for s in items {
        out.push(s.to_string());
    }
    out
}

fn done<T>(r: Read<T>) -> T {
    match r {
        Read::Done(t) => t,
        Read::More(n) => panic!("{} more bytes", n),
    }
}

fn missing<T>(r: Read<T>) -> usize {
    match r {
        Read::Done(_) => 0,
        Read::More(n) => n,
    }
}

#[test]
fn numbers_come_back_lowest_byte_first() {
    let mut b: Vec<u8> = Vec::new();
    push_le(&mut b, 0x0102_0304, 4);
    assert_eq!(b, vec![4, 3, 2, 1]);
    assert_eq!(read_le(&b, 0, 4), 0x0102_0304);
    assert_eq!(read_le(&b, 1, 2), 0x0203);
}

#[test]
fn counted_bytes_come_back() {
    let mut b: Vec<u8> = Vec::new();
    push_counted(&mut b, &[7, 8, 9]);
    push_counted(&mut b, &[]);
    assert_eq!(b, vec![3, 0, 7, 8, 9, 0, 0]);
    let (item, next) = done(read_counted(&b, 0));
    assert_eq!(item, vec![7, 8, 9]);
    assert_eq!(next, 5);
    let (items, end) = done(read_list(&b, 0, 2));
    assert_eq!(items, vec![vec![7, 8, 9], vec![]]);
    assert_eq!(end, 7);
    assert_eq!(missing(read_counted(&b[..4], 0)), 1);
    assert_eq!(missing(read_counted(&b[..1], 0)), 1);
}

#[test]
fn requests_come_back() {
    let argv = strings(&["julia", "-t4", "--address=x", "\u{e9}.jl"]);
    let sent = encode_request(true, 42, 7, "/home/u", 0x0123_4567_89ab_cdef, &argv, &[2]);
    assert_eq!(classify_magic(&[sent[0], sent[1], sent[2], sent[3]]), Greeting::Client);
    let q: RawRequest = done(decode_request(&sent[4..]));
    assert_eq!(q.flags, 1);
    assert_eq!(q.pid, 42);
    assert_eq!(q.ppid, 7);
    assert_eq!(q.cwd, b"/home/u".to_vec());
    assert_eq!(q.fingerprint, 0x0123_4567_89ab_cdef);
    assert_eq!(lossy_texts(&q.args), strings(&["julia", "-t4", "\u{e9}.jl"]));
}

#[test]
fn a_request_that_is_cut_short_asks_for_more() {
    let sent = encode_request(false, 1, 2, "/", 3, &strings(&["julia"]), &[]);
    assert_eq!(missing(decode_request(&sent[4..10])), 6);
    let last = sent.len() - 1;
    assert_eq!(missing(decode_request(&sent[4..last])), 1);
    assert_eq!(missing(decode_request(&sent[4..])), 0);
}

#[test]
fn bytes_that_are_no_text_are_read_with_replacements() {
    let texts = lossy_texts(&[vec![b'a', 0xff, b'b'], b"plain".to_vec()]);
    assert_eq!(texts, strings(&["a\u{fffd}b", "plain"]));
}

#[test]
fn environments_come_back() {
    let vars = vec![var("HOME", "/home/u"), var("EMPTY", ""), var("JULIA_PROJECT", "@.")];
    let sent = encode_env(&vars, 3);
    let back = done(decode_env(&sent));
    assert_eq!(back.len(), 3);
    assert_eq!(back[0].key, "HOME");
    assert_eq!(back[0].value, "/home/u");
    assert_eq!(back[1].value, "");
    assert_eq!(back[2].value, "@.");
    assert_eq!(missing(decode_env(&sent[..1])), 1);
}

#[test]
fn headers_come_back() {
    for kind in [MessageType::Ping, MessageType::Sockets, MessageType::DropSession] {
        let h = encode_header(kind);
        assert_eq!(h.len(), 3);
        let (back, len) = decode_header(&[h[0], h[1], h[2]]);
        assert_eq!(back, kind);
        assert_eq!(len, 0);
    }
    assert_eq!(decode_header(&[0x51, 0x34, 0x12]), (MessageType::DropSession, 0x1234));
    assert_eq!(decode_header(&[0x99, 0, 0]).0, MessageType::Error);
}

#[test]
fn the_greeting_of_a_worker_is_its_magic_number() {
    assert_eq!(encode_magic(), vec![0x01, 0x57, 0x44, 0x4a]);
}

#[test]
fn texts_for_workers_are_counted() {
    let set = encode_set_project("/p");
    assert_eq!(set, vec![0x10, 4, 0, 2, 0, b'/', b'p']);
    let drop = encode_drop_session("s");
    assert_eq!(drop, vec![0x51, 3, 0, 1, 0, b's']);
    assert!(fits_message("short"));
    assert!(fits_message(&"x".repeat(65533)));
    assert!(!fits_message(&"x".repeat(65534)));
}

#[test]
fn project_replies_are_told_apart() {
    assert!(matches!(project_reply(MessageType::ProjectOk), ProjectReply::Accepted));
    assert!(matches!(project_reply(MessageType::Error), ProjectReply::Refused));
    assert!(matches!(project_reply(MessageType::Pong), ProjectReply::Unexpected));
}

#[test]
fn client_lists_come_back() {
    let sent = encode_sync_clients(&[5, 0x0102_0304]);
    assert_eq!(sent, vec![0x50, 10, 0, 2, 0, 5, 0, 0, 0, 4, 3, 2, 1]);
    assert_eq!(done(decode_clients(&sent[3..])), vec![5, 0x0102_0304]);
    assert_eq!(missing(decode_clients(&sent[3..12])), 1);
    assert_eq!(decode_count(&[0x34, 0x12]), 0x1234);
    assert!(fits_sync(&[1, 2, 3]));
}

#[test]
fn a_client_is_handed_over_whole() {
    let env = vec![var("A", "b")];
    let switches = vec![Switch { name: "-i".to_string(), value: "".to_string() }];
    let args = strings(&["x"]);
    let info = ClientInfo {
        tty: true,
        force: true,
        pid: 9,
        ppid: 8,
        cwd: "/w",
        env: &env,
        switches: &switches,
        program_file: Some("f.jl"),
        program_args: &args,
        port_set: 0xffff,
    };
    let sent = encode_client_run(&info);
    assert_eq!(sent[0], 0x20);
    assert_eq!(sent.len(), 3 + read_le(&sent, 1, 2) as usize);
    assert_eq!(sent[3], 3);
}

#[test]
fn replies_with_sockets_are_read() {
    let mut b: Vec<u8> = Vec::new();
    push_le(&mut b, 2, 4);
    for p in ["/a", "/b", "/c", "/d"] {
        push_counted(&mut b, p.as_bytes());
    }
    let reply = decode_sockets(&b).unwrap();
    assert_eq!(reply.active, 2);
    let paths = reply.paths.unwrap();
    assert_eq!(paths.stdin, "/a");
    assert_eq!(paths.signals, "/d");
    assert!(decode_sockets(&b[..3]).is_none());
    let mut broken = b.clone();
    let last = broken.len() - 1;
    broken[last] = 0xff;
    assert_eq!(decode_sockets(&broken).unwrap().paths.unwrap().signals, "");
}

#[test]
fn a_worker_that_is_full_says_so_with_an_empty_path() {
    let reply = decode_sockets(&[9, 0, 0, 0, 0, 0]).unwrap();
    assert_eq!(reply.active, 9);
    assert!(reply.paths.is_none());
}

#[test]
fn errors_of_workers_are_read() {
    let mut b: Vec<u8> = Vec::new();
    push_le(&mut b, 5, 2);
    push_counted(&mut b, b"busy");
    let (code, text) = decode_error(&b).unwrap();
    assert_eq!(code, 5);
    assert_eq!(text, "busy");
    assert!(decode_error(&b[..1]).is_none());
}

#[test]
fn socket_paths_come_back() {
    let paths = ["/a".to_string(), "/bb".to_string(), "/c".to_string(), "/d".to_string()];
    let sent = encode_paths(&paths);
    assert_eq!(sent.len(), 4 * 2 + 9);
    assert_eq!(done(decode_paths(&sent)), paths.to_vec());
    assert_eq!(missing(decode_paths(&sent[..1])), 1);
    assert_eq!(decode_paths_at_end(&sent), paths.to_vec());
    assert_eq!(decode_paths_at_end(&sent[..5])[0], "/a");
}

#[test]
fn network_streams_are_offered_by_their_port() {
    assert_eq!(offer(TransportMode::Tcp, "0.0.0.0:10004"), ":10004");
    assert_eq!(offer(TransportMode::Unix, "/run/a:b"), "/run/a:b");
    let paths = SocketPaths {
        stdin: "h:1".to_string(),
        stdout: "h:2".to_string(),
        stderr: "h:3".to_string(),
        signals: "h:4".to_string(),
    };
    let sent = encode_socket_paths(TransportMode::Tcp, &paths);
    assert_eq!(sent, vec![2, 0, b':', b'1', 2, 0, b':', b'2', 2, 0, b':', b'3', 2, 0, b':', b'4']);
    let host = conductor_host("10.0.0.1:9345");
    let a = stream_address(":10004", true, &host).unwrap();
    assert_eq!(a.addr, "10.0.0.1:10004");
    assert_eq!(a.mode, TransportMode::Tcp);
    assert_eq!(stream_address("/run/a.sock", false, &host).unwrap().mode, TransportMode::Unix);
}

#[test]
fn a_request_for_the_environment_is_no_path() {
    assert!(is_env_request(0x3f));
    assert!(!is_env_request(0x10));
}

#[test]
fn notices_come_back() {
    let sent = encode_notice(Type::ClientInterrupt, 0x0102_0304);
    assert_eq!(classify_magic(&[sent[0], sent[1], sent[2], sent[3]]), Greeting::Notification);
    let (about, pid) = decode_notice(&[sent[4], sent[5], sent[6], sent[7], sent[8]]);
    assert_eq!(about, Some(Type::ClientInterrupt));
    assert_eq!(pid, 0x0102_0304);
    assert_eq!(decode_notice(&[0x99, 0, 0, 0, 0]).0, None);
    assert_eq!(classify_magic(&[1, 2, 3, 4]), Greeting::Unknown(0x0403_0201));
}
