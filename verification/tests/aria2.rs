use bangumiao::aria2::{rpc_json, rpc_request, rpc_string_result, Aria2Manager, RpcParam, RpcReply};

fn text(p: &RpcParam) -> &str {
    match p {
        RpcParam::Str(s) => s.as_str(),
        _ => panic!("not a string"),
    }
}

fn items(p: &RpcParam) -> &Vec<RpcParam> {
    match p {
        RpcParam::Array(v) => v,
        _ => panic!("not an array"),
    }
}

#[test]
fn authenticated_params_prefixes_rpc_token_when_secret_is_present() {
    let aria = Aria2Manager::new_with_secret(6800, "test-secret".to_string());

    let params = aria.authenticated_params(RpcParam::Array(vec![RpcParam::Array(vec![
        RpcParam::Str("magnet:?xt=urn:btih:test".to_string()),
    ])]));

    let list = items(&params);
    assert_eq!(text(&list[0]), "token:test-secret");
    let inner = items(&list[1]);
    assert_eq!(inner.len(), 1);
    assert_eq!(text(&inner[0]), "magnet:?xt=urn:btih:test");
}

#[test]
fn authenticated_params_wraps_a_single_parameter() {
    let aria = Aria2Manager::new_with_secret(6800, "s".to_string());
    let params = aria.authenticated_params(RpcParam::Str("gid".to_string()));
    let list = items(&params);
    assert_eq!(list.len(), 2);
    assert_eq!(text(&list[0]), "token:s");
    assert_eq!(text(&list[1]), "gid");
}

#[test]
fn new_manager_draws_a_uuid_secret() {
    let mut a = Aria2Manager::new(6801);
    assert_eq!(a.port(), 6801);
    let args = a.launch_args("D:/down", "C:/app", 0);
    assert_eq!(args.len(), 23);
    assert_eq!(args[0], "--enable-rpc");
    assert_eq!(args[1], "--rpc-listen-port=6801");
    assert!(args[4].starts_with("--rpc-secret="));
    assert_eq!(args[4].len(), "--rpc-secret=".len() + 36);
    assert_eq!(args[10], "--dir=D:/down");
    assert_eq!(args[12], "--max-concurrent-downloads=1");
    assert_eq!(args[20], "--save-session=C:/app/aria2.session");
    assert_eq!(args[21], "--input-file=C:/app/aria2.session");
    let args = a.launch_args("d", "s", 99);
    assert_eq!(args[12], "--max-concurrent-downloads=10");
    let args = a.launch_args("d", "s", 4);
    assert_eq!(args[12], "--max-concurrent-downloads=4");
}

#[test]
fn rpc_client_keeps_port_and_secret() {
    let mut a = Aria2Manager::new_with_secret(7000, "k".to_string());
    a.set_port(7001);
    let c = a.rpc_client();
    assert_eq!(c.port(), 7001);
    let p = c.authenticated_params(RpcParam::Array(vec![]));
    assert_eq!(text(&items(&p)[0]), "token:k");
}

#[test]
fn request_framing_counts_utf8_bytes() {
    let r = rpc_request(6800, "{\"a\":\"é\"}");
    assert_eq!(
        r,
        "POST /jsonrpc HTTP/1.1\r\nHost: 127.0.0.1:6800\r\nContent-Type: application/json\r\nContent-Length: 10\r\nConnection: close\r\n\r\n{\"a\":\"é\"}"
    );
}

#[test]
fn reply_body_is_read_after_the_blank_line() {
    assert_eq!(rpc_json("HTTP/1.1 200 OK\r\nX: y\r\n\r\n  {\"result\":\"g\"} \n"), Ok("{\"result\":\"g\"}".to_string()));
    assert_eq!(rpc_json("HTTP/1.1 200 OK\r\n"), Err("aria2 returned an invalid HTTP response".to_string()));
    assert_eq!(rpc_json("HTTP/1.1 200 OK\r\n\r\n   "), Err("aria2 returned an empty response".to_string()));
}

#[test]
fn string_results() {
    let ok = RpcReply { error: None, result: Some("2089b05ecca3d829".to_string()) };
    assert_eq!(rpc_string_result(ok, "No GID returned"), Ok("2089b05ecca3d829".to_string()));
    let err = RpcReply { error: Some("{\"code\":1}".to_string()), result: None };
    assert_eq!(rpc_string_result(err, "No GID returned"), Err("aria2 RPC error: {\"code\":1}".to_string()));
    let none = RpcReply { error: None, result: None };
    assert_eq!(rpc_string_result(none, "Failed to pause"), Err("Failed to pause".to_string()));
}

#[test]
fn call_builders() {
    let c = Aria2Manager::add_uri_with_dir_call("magnet:?x", "D:/a");
    assert_eq!(c.method, "aria2.addUri");
    let ps = items(&c.params);
    assert_eq!(text(&items(&ps[0])[0]), "magnet:?x");
    match &ps[1] {
        RpcParam::Object(m) => {
            assert_eq!(m[0].0, "dir");
            assert_eq!(text(&m[0].1), "D:/a");
        }
        _ => panic!(),
    }
    let c = Aria2Manager::add_torrent_bytes_with_dir_call(b"abc", "d");
    assert_eq!(c.method, "aria2.addTorrent");
    assert_eq!(text(&items(&c.params)[0]), "YWJj");
    let c = Aria2Manager::tell_stopped_call(0, 100);
    assert_eq!(c.method, "aria2.tellStopped");
    match &items(&c.params)[1] {
        RpcParam::Int(n) => assert_eq!(*n, 100),
        _ => panic!(),
    }
    let c = Aria2Manager::pause_call("g1");
    assert_eq!(c.method, "aria2.pause");
    assert_eq!(c.fallback_error, "Failed to pause");
    assert_eq!(text(&items(&c.params)[0]), "g1");
}

#[test]
fn torrent_bytes_are_sent_as_padded_base64() {
    let c = Aria2Manager::add_torrent_bytes_call(b"ab");
    assert_eq!(c.method, "aria2.addTorrent");
    assert_eq!(text(&items(&c.params)[0]), "YWI=");
    assert_eq!(c.fallback_error, "No GID returned");
    let d = Aria2Manager::add_torrent_bytes_call(b"a");
    assert_eq!(text(&items(&d.params)[0]), "YQ==");
    let e = Aria2Manager::add_torrent_bytes_call(&[0xff, 0xfe, 0x00, 0x3e]);
    assert_eq!(text(&items(&e.params)[0]), "//4APg==");
}


#[test]
fn calls_carry_the_secret_aria2_was_launched_with() {
    let mut m = Aria2Manager::new(6801);
    let args = m.launch_args("/dl", "/app", 3);
    let secret = args[4].strip_prefix("--rpc-secret=").unwrap().to_string();
    assert_eq!(args[1], "--rpc-listen-port=6801");
    let client = m.rpc_client();
    let sent = client.authenticated_params(RpcParam::Array(vec![]));
    assert_eq!(text(&items(&sent)[0]), format!("token:{}", secret));
}
