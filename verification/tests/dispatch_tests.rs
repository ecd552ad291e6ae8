use redis_lite::commands::handler::dispatch_command;
use redis_lite::config::info_server::InfoServer;
use redis_lite::config::server_config::ServerConfig;
use redis_lite::enums::role::Role;
use redis_lite::resp::parser::Parser;
use redis_lite::storage::Storage;

fn info_fixture() -> InfoServer {
    InfoServer {
        role: Role::Master,
        connected_slaves: 0,
        master_replid: "r".repeat(40),
        master_repl_offset: 0,
    }
}

fn run(cmd: &str, args: Vec<&str>, st: &mut Storage, info: &InfoServer, now: u64) -> Parser {
    let owned: Vec<String> = args.into_iter().map(|a| a.to_string()).collect();
    dispatch_command(&cmd.to_string(), owned, st, info, now).reply
}

#[test]
fn ping_replies_pong() {
    let mut st = Storage::new(0);
    let info = info_fixture();
    assert_eq!(run("ping", vec![], &mut st, &info, 0).serialize(), "+PONG\r\n");
}

#[test]
fn echo_replies_argument() {
    let mut st = Storage::new(0);
    let info = info_fixture();
    assert_eq!(run("echo", vec!["hey"], &mut st, &info, 0).serialize(), "+hey\r\n");
    assert_eq!(
        run("echo", vec![], &mut st, &info, 0).serialize(),
        "-ERR wrong number of arguments for command\r\n"
    );
}

#[test]
fn set_and_get_flow() {
    let mut st = Storage::new(0);
    let info = info_fixture();
    assert_eq!(run("set", vec!["k", "v"], &mut st, &info, 100).serialize(), "+OK\r\n");
    assert_eq!(run("get", vec!["k"], &mut st, &info, 200).serialize(), "+v\r\n");
    assert_eq!(run("get", vec!["missing"], &mut st, &info, 200).serialize(), "$-1\r\n");
}

#[test]
fn set_with_px_expires_through_get() {
    let mut st = Storage::new(0);
    let info = info_fixture();
    assert_eq!(
        run("set", vec!["k", "v", "px", "50"], &mut st, &info, 1_000).serialize(),
        "+OK\r\n"
    );
    assert_eq!(run("get", vec!["k"], &mut st, &info, 1_050).serialize(), "+v\r\n");
    assert_eq!(run("get", vec!["k"], &mut st, &info, 1_051).serialize(), "$-1\r\n");
}

#[test]
fn set_with_uppercase_px_expires_through_get() {
    let mut st = Storage::new(0);
    let info = info_fixture();
    assert_eq!(
        run("set", vec!["k", "v", "PX", "50"], &mut st, &info, 1_000).serialize(),
        "+OK\r\n"
    );
    assert_eq!(run("get", vec!["k"], &mut st, &info, 1_050).serialize(), "+v\r\n");
    assert_eq!(run("get", vec!["k"], &mut st, &info, 1_051).serialize(), "$-1\r\n");
}

#[test]
fn set_with_bad_value_after_uppercase_px_is_an_error_reply() {
    let mut st = Storage::new(0);
    let info = info_fixture();
    assert_eq!(
        run("set", vec!["k", "v", "PX", "nan"], &mut st, &info, 0).serialize(),
        "-ERR value is not an integer or out of range\r\n"
    );
}

#[test]
fn set_with_bad_px_is_an_error_reply() {
    let mut st = Storage::new(0);
    let info = info_fixture();
    assert_eq!(
        run("set", vec!["k", "v", "px", "nan"], &mut st, &info, 0).serialize(),
        "-ERR value is not an integer or out of range\r\n"
    );
}

#[test]
fn del_replies_removed_count() {
    let mut st = Storage::new(0);
    let info = info_fixture();
    run("set", vec!["a", "1"], &mut st, &info, 0);
    run("set", vec!["c", "2"], &mut st, &info, 0);
    assert_eq!(run("del", vec!["a", "b", "c"], &mut st, &info, 0).serialize(), ":2\r\n");
    assert_eq!(run("del", vec!["x"], &mut st, &info, 0).serialize(), ":0\r\n");
}

#[test]
fn keys_replies_matches() {
    let mut st = Storage::new(0);
    let info = info_fixture();
    run("set", vec!["foo", "1"], &mut st, &info, 0);
    run("set", vec!["foobar", "2"], &mut st, &info, 0);
    match run("keys", vec!["foo*"], &mut st, &info, 0) {
        Parser::Array(mut ks) => {
            ks.sort();
            assert_eq!(ks, vec!["foo".to_string(), "foobar".to_string()]);
        },
        other => panic!("expected an array, got {}", other.serialize()),
    }
    assert_eq!(
        run("keys", vec!["[*"], &mut st, &info, 0).serialize(),
        "-ERR invalid pattern\r\n"
    );
    assert_eq!(
        run("keys", vec![], &mut st, &info, 0).serialize(),
        "-ERR wrong number of arguments for command\r\n"
    );
}

#[test]
fn info_replies_replication_block() {
    let mut st = Storage::new(0);
    let info = info_fixture();
    let expected_body = format!(
        "# Replication\nrole:master\nconnected_slaves:0\nmaster_replid:{}\nmaster_repl_offset:0",
        "r".repeat(40)
    );
    let expected = format!("${}\r\n{}\r\n", expected_body.len(), expected_body);
    assert_eq!(run("info", vec!["replication"], &mut st, &info, 0).serialize(), expected);
}

#[test]
fn info_server_new_generates_forty_alphanumeric_chars() {
    let config = ServerConfig::default();
    let info = InfoServer::new(&config);
    assert_eq!(info.role, Role::Master);
    assert_eq!(info.master_replid.len(), 40);
    assert!(info.master_replid.chars().all(|c| c.is_ascii_alphanumeric()));
    let replica = ServerConfig { is_replication: true, ..ServerConfig::default() };
    assert_eq!(InfoServer::new(&replica).role, Role::Slave);
}

#[test]
fn psync_replies_fullresync() {
    let mut st = Storage::new(0);
    let info = info_fixture();
    let expected = format!("+FULLRESYNC {} 0\r\n", "r".repeat(40));
    assert_eq!(run("psync", vec!["?", "-1"], &mut st, &info, 0).serialize(), expected);
}

#[test]
fn replconf_replies_ok() {
    let mut st = Storage::new(0);
    let info = info_fixture();
    assert_eq!(
        run("replconf", vec!["listening-port", "6380"], &mut st, &info, 0).serialize(),
        "+OK\r\n"
    );
}

#[test]
fn save_hands_back_snapshot_bytes() {
    let mut st = Storage::new(0);
    let info = info_fixture();
    run("set", vec!["k", "v"], &mut st, &info, 0);
    let out = dispatch_command(&"save".to_string(), Vec::new(), &mut st, &info, 0);
    assert_eq!(out.reply.serialize(), "+OK\r\n");
    let bytes = out.save_bytes.expect("SAVE produces snapshot bytes");
    let mut fresh = Storage::new(0);
    fresh.load_rdb(&bytes, 0).unwrap();
    assert_eq!(fresh.get("k", 0).unwrap().value, "v");
    // SAVE does not reset the dirty counter; only the scheduler decision does.
    assert_eq!(st.snapshot.change_count, 1);
}

#[test]
fn unknown_command_resilience() {
    let mut st = Storage::new(0);
    let info = info_fixture();
    let (cmd, args) = redis_lite::resp::handler::parse_command_with_args("*1\r\n$3\r\nFOO\r\n");
    let out = dispatch_command(&cmd, args, &mut st, &info, 0);
    assert_eq!(out.reply.serialize(), "-Unknown command: foo\r\n");
    // The connection stays usable: the next command still works.
    assert_eq!(run("ping", vec![], &mut st, &info, 0).serialize(), "+PONG\r\n");
}
