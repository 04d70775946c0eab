use redrust::common::Value;
use redrust::config::Config;
use redrust::data::store::{Store, StoreObject, ENCODING_EMBSTR, ENCODING_INT};
use redrust::protocol::cmd::Command;
use redrust::protocol::eval;

const T0: i64 = 1_700_000_000_000;

fn store_with(keys_limit: i32) -> Store {
    Store::new(Config {
        host: "0.0.0.0".to_owned(),
        port: 7379,
        keys_limit,
        eviction_strategy: "simple-first".to_owned(),
        aof_file: "./redrust-master.aof".to_owned(),
    })
}

fn args(list: &[&str]) -> Vec<String> {
    list.iter().map(|s| s.to_string()).collect()
}

fn cmd(name: &str, list: &[&str]) -> Command {
    Command { cmd: name.to_owned(), args: args(list) }
}

#[test]
fn ping_answers_pong_or_echoes() {
    assert_eq!(eval::ping(args(&[])), b"+PONG\r\n".to_vec());
    assert_eq!(eval::ping(args(&["hello"])), b"$5\r\nhello\r\n".to_vec());
    assert_eq!(
        eval::ping(args(&["a", "b"])),
        b"-ERR wrong number of arguments for 'ping' commands\r\n".to_vec()
    );
}

#[test]
fn set_then_get_returns_the_value() {
    let mut store = store_with(5);
    assert_eq!(eval::set(args(&["k", "some value"]), &mut store, T0), b"+OK\r\n".to_vec());
    assert_eq!(eval::get(args(&["k"]), &mut store, T0 + 5), b"$10\r\nsome value\r\n".to_vec());
}

#[test]
fn get_of_an_absent_key_is_nil() {
    let mut store = store_with(5);
    assert_eq!(eval::get(args(&["nope"]), &mut store, T0), b"$-1\r\n".to_vec());
}

#[test]
fn arity_errors_name_the_command() {
    let mut store = store_with(5);
    assert_eq!(
        eval::get(args(&[]), &mut store, T0),
        b"-ERR wrong number of arguments for 'get' commands\r\n".to_vec()
    );
    assert_eq!(
        eval::get(args(&["a", "b"]), &mut store, T0),
        b"-ERR wrong number of arguments for 'get' commands\r\n".to_vec()
    );
    assert_eq!(
        eval::set(args(&["k"]), &mut store, T0),
        b"-ERR wrong number of arguments for 'set' commands\r\n".to_vec()
    );
    assert_eq!(
        eval::ttl(args(&[]), &mut store, T0),
        b"-ERR wrong number of arguments for 'ttl' commands\r\n".to_vec()
    );
    assert_eq!(
        eval::expire(args(&["k"]), &mut store, T0),
        b"-ERR wrong number of arguments for 'expire' commands\r\n".to_vec()
    );
    assert_eq!(
        eval::incr(args(&[]), &mut store, T0),
        b"-ERR wrong number of arguments for 'incr' commands\r\n".to_vec()
    );
    assert_eq!(store.len(), 0);
}

#[test]
fn set_with_ex_sets_the_expiry_from_the_token_after_ex() {
    let mut store = store_with(5);
    assert_eq!(eval::set(args(&["k", "v", "EX", "10"]), &mut store, T0), b"+OK\r\n".to_vec());
    assert_eq!(store.get(&"k".to_owned(), T0).unwrap().expires_at, T0 + 10_000);
    assert_eq!(eval::set(args(&["j", "v", "ex", "2"]), &mut store, T0), b"+OK\r\n".to_vec());
    assert_eq!(store.get(&"j".to_owned(), T0).unwrap().expires_at, T0 + 2_000);
    assert_eq!(eval::set(args(&["i", "v", "Ex", "3"]), &mut store, T0), b"+OK\r\n".to_vec());
    assert_eq!(store.get(&"i".to_owned(), T0).unwrap().expires_at, T0 + 3_000);
}

#[test]
fn set_with_repeated_ex_takes_the_last() {
    let mut store = store_with(5);
    assert_eq!(
        eval::set(args(&["k", "v", "EX", "10", "EX", "20"]), &mut store, T0),
        b"+OK\r\n".to_vec()
    );
    assert_eq!(store.get(&"k".to_owned(), T0).unwrap().expires_at, T0 + 20_000);
}

#[test]
fn set_with_ex_zero_or_negative_sets_no_expiry() {
    let mut store = store_with(5);
    assert_eq!(eval::set(args(&["k", "v", "EX", "0"]), &mut store, T0), b"+OK\r\n".to_vec());
    assert_eq!(store.get(&"k".to_owned(), T0).unwrap().expires_at, -1);
    assert_eq!(eval::set(args(&["n", "v", "EX", "-4"]), &mut store, T0), b"+OK\r\n".to_vec());
    assert_eq!(store.get(&"n".to_owned(), T0).unwrap().expires_at, -1);
    assert_eq!(eval::ttl(args(&["k"]), &mut store, T0 + 1_000_000), b":-1\r\n".to_vec());
}

#[test]
fn set_option_errors_leave_the_store_alone() {
    let mut store = store_with(5);
    assert_eq!(
        eval::set(args(&["k", "v", "PX", "10"]), &mut store, T0),
        b"-ERR syntax error\r\n".to_vec()
    );
    assert_eq!(eval::set(args(&["k", "v", "EX"]), &mut store, T0), b"-ERR syntax error\r\n".to_vec());
    assert_eq!(
        eval::set(args(&["k", "v", "EX", "ten"]), &mut store, T0),
        b"-ERR value is not an integer or out of range\r\n".to_vec()
    );
    assert_eq!(
        eval::set(args(&["k", "v", "EX", "9223372036854775807"]), &mut store, T0),
        b"-ERR value is not an integer or out of range\r\n".to_vec()
    );
    assert_eq!(
        eval::set(args(&["k", "v", "EX", "9223372036854775"]), &mut store, T0),
        b"-ERR value is not an integer or out of range\r\n".to_vec()
    );
    assert_eq!(
        eval::set(args(&["k", "v", "EX", "1", "NX"]), &mut store, T0),
        b"-ERR syntax error\r\n".to_vec()
    );
    assert_eq!(store.len(), 0);
}

#[test]
fn set_records_the_encoding_hint() {
    let mut store = store_with(5);
    eval::set(args(&["n", "5"]), &mut store, T0);
    eval::set(args(&["s", "abc"]), &mut store, T0);
    let long = "x".repeat(45);
    eval::set(args(&["l", &long]), &mut store, T0);
    assert_eq!(store.get(&"n".to_owned(), T0).unwrap().type_encoding, ENCODING_INT);
    assert_eq!(store.get(&"s".to_owned(), T0).unwrap().type_encoding, ENCODING_EMBSTR);
    assert_eq!(store.get(&"l".to_owned(), T0).unwrap().type_encoding, 0);
}

#[test]
fn ttl_lifecycle() {
    let mut store = store_with(5);
    assert_eq!(eval::set(args(&["k", "v", "EX", "1"]), &mut store, T0), b"+OK\r\n".to_vec());
    assert_eq!(eval::ttl(args(&["k"]), &mut store, T0), b":1\r\n".to_vec());
    assert_eq!(eval::ttl(args(&["k"]), &mut store, T0 + 1), b":0\r\n".to_vec());
    assert_eq!(eval::ttl(args(&["k"]), &mut store, T0 + 999), b":0\r\n".to_vec());
    assert_eq!(store.len(), 1);
    assert_eq!(eval::ttl(args(&["k"]), &mut store, T0 + 1500), b":-2\r\n".to_vec());
    assert_eq!(store.len(), 0);
    assert_eq!(eval::get(args(&["k"]), &mut store, T0 + 1500), b"$-1\r\n".to_vec());
}

#[test]
fn ttl_reports_whole_seconds_left() {
    let mut store = store_with(5);
    eval::set(args(&["k", "v", "EX", "100"]), &mut store, T0);
    assert_eq!(eval::ttl(args(&["k"]), &mut store, T0), b":100\r\n".to_vec());
    assert_eq!(eval::ttl(args(&["k"]), &mut store, T0 + 1), b":99\r\n".to_vec());
    assert_eq!(eval::ttl(args(&["k"]), &mut store, T0 + 99_000), b":1\r\n".to_vec());
    assert_eq!(eval::ttl(args(&["k"]), &mut store, T0 + 100_000), b":-2\r\n".to_vec());
}

#[test]
fn ttl_of_absent_and_of_unexpiring_keys() {
    let mut store = store_with(5);
    assert_eq!(eval::ttl(args(&["nope"]), &mut store, T0), b":-2\r\n".to_vec());
    eval::set(args(&["k", "v"]), &mut store, T0);
    assert_eq!(eval::ttl(args(&["k"]), &mut store, T0), b":-1\r\n".to_vec());
}

#[test]
fn ttl_survives_the_extremes_of_the_clock() {
    let mut store = store_with(5);
    store.put(
        "k".to_owned(),
        StoreObject { type_encoding: 0, value: Value::String("v".to_owned()), expires_at: i64::MAX },
    );
    assert_eq!(eval::ttl(args(&["k"]), &mut store, i64::MIN), b":18446744073709551\r\n".to_vec());
}

#[test]
fn expired_key_reads_as_absent_and_is_removed() {
    let mut store = store_with(5);
    eval::set(args(&["k", "v", "EX", "1"]), &mut store, T0);
    assert_eq!(eval::get(args(&["k"]), &mut store, T0 + 1000), b"$-1\r\n".to_vec());
    assert_eq!(store.len(), 0);
}

#[test]
fn del_counts_the_keys_that_were_there() {
    let mut store = store_with(5);
    eval::set(args(&["a", "1"]), &mut store, T0);
    eval::set(args(&["b", "2"]), &mut store, T0);
    assert_eq!(eval::del(args(&["a", "zzz", "b", "a"]), &mut store), b":2\r\n".to_vec());
    assert_eq!(eval::get(args(&["a"]), &mut store, T0), b"$-1\r\n".to_vec());
    assert_eq!(eval::get(args(&["b"]), &mut store, T0), b"$-1\r\n".to_vec());
    assert_eq!(eval::del(args(&[]), &mut store), b":0\r\n".to_vec());
}

#[test]
fn expire_sets_the_expiry_of_a_live_key() {
    let mut store = store_with(5);
    assert_eq!(eval::expire(args(&["k", "10"]), &mut store, T0), b":0\r\n".to_vec());
    eval::set(args(&["k", "v"]), &mut store, T0);
    assert_eq!(eval::expire(args(&["k", "10"]), &mut store, T0), b":1\r\n".to_vec());
    assert_eq!(eval::ttl(args(&["k"]), &mut store, T0), b":10\r\n".to_vec());
    assert_eq!(eval::get(args(&["k"]), &mut store, T0 + 9_999), b"$1\r\nv\r\n".to_vec());
    assert_eq!(eval::get(args(&["k"]), &mut store, T0 + 10_000), b"$-1\r\n".to_vec());
}

#[test]
fn expire_zero_makes_the_next_access_a_miss() {
    let mut store = store_with(5);
    eval::set(args(&["k", "v"]), &mut store, T0);
    assert_eq!(eval::expire(args(&["k", "0"]), &mut store, T0), b":1\r\n".to_vec());
    assert_eq!(store.len(), 1);
    assert_eq!(eval::get(args(&["k"]), &mut store, T0), b"$-1\r\n".to_vec());
    assert_eq!(store.len(), 0);
}

#[test]
fn expire_rejects_what_is_no_integer_in_range() {
    let mut store = store_with(5);
    eval::set(args(&["k", "v"]), &mut store, T0);
    assert_eq!(
        eval::expire(args(&["k", "soon"]), &mut store, T0),
        b"-ERR value is not an integer or out of range\r\n".to_vec()
    );
    assert_eq!(
        eval::expire(args(&["k", "9223372036854775807"]), &mut store, T0),
        b"-ERR value is not an integer or out of range\r\n".to_vec()
    );
    assert_eq!(eval::ttl(args(&["k"]), &mut store, T0), b":-1\r\n".to_vec());
}

#[test]
fn incr_on_a_fresh_key_counts_from_zero() {
    let mut store = store_with(5);
    assert_eq!(eval::incr(args(&["c"]), &mut store, T0), b":1\r\n".to_vec());
    assert_eq!(eval::incr(args(&["c"]), &mut store, T0), b":2\r\n".to_vec());
    assert_eq!(eval::get(args(&["c"]), &mut store, T0), b"$1\r\n2\r\n".to_vec());
}

#[test]
fn incr_after_set_adds_to_the_stored_integer() {
    let mut store = store_with(5);
    eval::set(args(&["k", "5"]), &mut store, T0);
    for n in 1..=7 {
        assert_eq!(eval::incr(args(&["k"]), &mut store, T0), format!(":{}\r\n", 5 + n).into_bytes());
    }
    assert_eq!(eval::get(args(&["k"]), &mut store, T0), b"$2\r\n12\r\n".to_vec());
}

#[test]
fn incr_crosses_zero() {
    let mut store = store_with(5);
    eval::set(args(&["k", "-2"]), &mut store, T0);
    assert_eq!(eval::incr(args(&["k"]), &mut store, T0), b":-1\r\n".to_vec());
    assert_eq!(eval::incr(args(&["k"]), &mut store, T0), b":0\r\n".to_vec());
    assert_eq!(eval::incr(args(&["k"]), &mut store, T0), b":1\r\n".to_vec());
}

#[test]
fn incr_on_a_non_integer_is_an_error() {
    let mut store = store_with(5);
    eval::set(args(&["k", "abc"]), &mut store, T0);
    assert_eq!(
        eval::incr(args(&["k"]), &mut store, T0),
        b"-ERR value is not an integer or out of range\r\n".to_vec()
    );
    assert_eq!(eval::get(args(&["k"]), &mut store, T0), b"$3\r\nabc\r\n".to_vec());
}

#[test]
fn incr_on_another_type_is_an_error() {
    let mut store = store_with(5);
    store.put(
        "k".to_owned(),
        StoreObject::new(Value::String("1".to_owned()), 0, 0x10, ENCODING_INT, T0),
    );
    assert_eq!(
        eval::incr(args(&["k"]), &mut store, T0),
        b"-the operation is not permitted on this type\r\n".to_vec()
    );
}

#[test]
fn incr_on_a_mislabelled_value_is_an_error() {
    let mut store = store_with(5);
    store.put(
        "k".to_owned(),
        StoreObject::new(Value::String("abc".to_owned()), 0, 0, ENCODING_INT, T0),
    );
    assert_eq!(
        eval::incr(args(&["k"]), &mut store, T0),
        b"-wrong data type for 'incr' command\r\n".to_vec()
    );
    store.put("n".to_owned(), StoreObject::new(Value::Int64(1), 0, 0, ENCODING_INT, T0));
    assert_eq!(
        eval::incr(args(&["n"]), &mut store, T0),
        b"-wrong data type for 'incr' command\r\n".to_vec()
    );
}

#[test]
fn incr_at_the_largest_integer_is_an_error() {
    let mut store = store_with(5);
    eval::set(args(&["k", "9223372036854775807"]), &mut store, T0);
    assert_eq!(
        eval::incr(args(&["k"]), &mut store, T0),
        b"-ERR value is not an integer or out of range\r\n".to_vec()
    );
    assert_eq!(
        eval::get(args(&["k"]), &mut store, T0),
        b"$19\r\n9223372036854775807\r\n".to_vec()
    );
}

#[test]
fn incr_keeps_the_expiry_and_restarts_after_it() {
    let mut store = store_with(5);
    eval::set(args(&["k", "41", "EX", "10"]), &mut store, T0);
    assert_eq!(eval::incr(args(&["k"]), &mut store, T0 + 1), b":42\r\n".to_vec());
    assert_eq!(eval::ttl(args(&["k"]), &mut store, T0 + 1), b":9\r\n".to_vec());
    assert_eq!(eval::incr(args(&["k"]), &mut store, T0 + 10_000), b":1\r\n".to_vec());
    assert_eq!(eval::ttl(args(&["k"]), &mut store, T0 + 10_000), b":-1\r\n".to_vec());
}

#[test]
fn eviction_at_limit_two() {
    let mut store = store_with(2);
    eval::set(args(&["a", "1"]), &mut store, T0);
    eval::set(args(&["b", "2"]), &mut store, T0);
    eval::set(args(&["c", "3"]), &mut store, T0);
    let replies = [
        eval::get(args(&["a"]), &mut store, T0),
        eval::get(args(&["b"]), &mut store, T0),
        eval::get(args(&["c"]), &mut store, T0),
    ];
    let nil = replies.iter().filter(|r| r.as_slice() == b"$-1\r\n").count();
    let bulk = replies.iter().filter(|r| r.starts_with(b"$1\r\n")).count();
    assert_eq!(nil, 1);
    assert_eq!(bulk, 2);
    assert_eq!(replies[2], b"$1\r\n3\r\n".to_vec());
}

#[test]
fn bg_rewrite_aof_answers_ok_and_hands_over_the_snapshot() {
    let mut store = store_with(5);
    eval::set(args(&["k", "v"]), &mut store, T0);
    let (reply, snapshot) = eval::bg_rewrite_aof(args(&[]), &store);
    assert_eq!(reply, b"+OK\r\n".to_vec());
    assert_eq!(snapshot, b"*3\r\n$3\r\nSET\r\n$1\r\nk\r\n$1\r\nv\r\n".to_vec());
}

#[test]
fn execute_dispatches_by_name() {
    let mut store = store_with(5);
    assert_eq!(eval::execute(cmd("PING", &[]), &mut store, T0).reply, b"+PONG\r\n".to_vec());
    assert_eq!(eval::execute(cmd("SET", &["k", "1"]), &mut store, T0).reply, b"+OK\r\n".to_vec());
    assert_eq!(eval::execute(cmd("GET", &["k"]), &mut store, T0).reply, b"$1\r\n1\r\n".to_vec());
    assert_eq!(eval::execute(cmd("INCR", &["k"]), &mut store, T0).reply, b":2\r\n".to_vec());
    assert_eq!(eval::execute(cmd("EXPIRE", &["k", "5"]), &mut store, T0).reply, b":1\r\n".to_vec());
    assert_eq!(eval::execute(cmd("TTL", &["k"]), &mut store, T0).reply, b":5\r\n".to_vec());
    assert_eq!(eval::execute(cmd("DEL", &["k"]), &mut store, T0).reply, b":1\r\n".to_vec());
    assert!(eval::execute(cmd("DEL", &["k"]), &mut store, T0).snapshot.is_none());
}

#[test]
fn unknown_commands_are_answered_as_ping() {
    let mut store = store_with(5);
    assert_eq!(eval::execute(cmd("FLUSHALL", &[]), &mut store, T0).reply, b"+PONG\r\n".to_vec());
    assert_eq!(eval::execute(cmd("ECHO", &["hi"]), &mut store, T0).reply, b"$2\r\nhi\r\n".to_vec());
    assert_eq!(eval::execute(cmd("get", &["k"]), &mut store, T0).reply, b"$1\r\nk\r\n".to_vec());
}

#[test]
fn execute_hands_over_a_snapshot_only_for_a_rewrite() {
    let mut store = store_with(5);
    eval::execute(cmd("SET", &["k", "v"]), &mut store, T0);
    let outcome = eval::execute(cmd("BGREWRITEAOF", &[]), &mut store, T0);
    assert_eq!(outcome.reply, b"+OK\r\n".to_vec());
    assert_eq!(outcome.snapshot, Some(b"*3\r\n$3\r\nSET\r\n$1\r\nk\r\n$1\r\nv\r\n".to_vec()));
}

#[test]
fn respond_answers_a_pipeline_in_order() {
    let mut store = store_with(5);
    let outcome = eval::respond(
        vec![cmd("PING", &[]), cmd("SET", &["k", "v"]), cmd("GET", &["k"])],
        &mut store,
    );
    assert_eq!(outcome.reply, b"+PONG\r\n+OK\r\n$1\r\nv\r\n".to_vec());
    assert!(outcome.snapshot.is_none());
}

#[test]
fn respond_keeps_the_snapshot_of_the_last_rewrite() {
    let mut store = store_with(5);
    let outcome = eval::respond(
        vec![
            cmd("SET", &["a", "1"]),
            cmd("BGREWRITEAOF", &[]),
            cmd("SET", &["b", "2"]),
            cmd("BGREWRITEAOF", &[]),
            cmd("DEL", &["a", "b"]),
        ],
        &mut store,
    );
    assert_eq!(outcome.reply, b"+OK\r\n+OK\r\n+OK\r\n+OK\r\n:2\r\n".to_vec());
    assert_eq!(
        outcome.snapshot,
        Some(b"*3\r\n$3\r\nSET\r\n$1\r\na\r\n$1\r\n1\r\n*3\r\n$3\r\nSET\r\n$1\r\nb\r\n$1\r\n2\r\n".to_vec())
    );
}

#[test]
fn respond_reads_the_clock_for_expiry() {
    let mut store = store_with(5);
    let outcome = eval::respond(
        vec![cmd("SET", &["k", "v", "EX", "100"]), cmd("TTL", &["k"])],
        &mut store,
    );
    assert!(
        outcome.reply == b"+OK\r\n:100\r\n".to_vec() || outcome.reply == b"+OK\r\n:99\r\n".to_vec()
    );
    let at = store.get(&"k".to_owned(), 0).unwrap().expires_at;
    assert!(at > 1_600_000_000_000 + 100_000);
}

#[test]
fn respond_to_nothing_is_nothing() {
    let mut store = store_with(5);
    let outcome = eval::respond(Vec::new(), &mut store);
    assert_eq!(outcome.reply, Vec::<u8>::new());
    assert!(outcome.snapshot.is_none());
}

#[test]
fn every_reply_decodes_to_one_value() {
    let mut store = store_with(5);
    let long = "x".repeat(300);
    let commands = vec![
        cmd("PING", &[]),
        cmd("PING", &["hello\r\nworld"]),
        cmd("PING", &["a", "b"]),
        cmd("SET", &["k", "v"]),
        cmd("SET", &["k"]),
        cmd("SET", &["n", "41", "EX", "100"]),
        cmd("SET", &["l", &long]),
        cmd("SET", &["k", "v", "EX", "x"]),
        cmd("SET", &["k", "v", "NX"]),
        cmd("GET", &["k"]),
        cmd("GET", &["l"]),
        cmd("GET", &["missing"]),
        cmd("GET", &[]),
        cmd("TTL", &["k"]),
        cmd("TTL", &["n"]),
        cmd("TTL", &["missing"]),
        cmd("TTL", &[]),
        cmd("INCR", &["n"]),
        cmd("INCR", &["k"]),
        cmd("INCR", &["fresh"]),
        cmd("INCR", &[]),
        cmd("EXPIRE", &["k", "10"]),
        cmd("EXPIRE", &["missing", "10"]),
        cmd("EXPIRE", &["k", "x"]),
        cmd("EXPIRE", &["k"]),
        cmd("DEL", &["k", "n", "missing"]),
        cmd("DEL", &[]),
        cmd("BGREWRITEAOF", &[]),
        cmd("WHATEVER", &["x"]),
    ];
    for c in commands {
        let name = format!("{:?}", c);
        let outcome = eval::execute(c, &mut store, T0);
        let values = redrust::protocol::resp::decode(&outcome.reply);
        assert!(matches!(values.as_deref(), Ok([_])), "{} -> {:?}", name, outcome.reply);
    }
}

#[test]
fn snapshot_of_a_rewrite_decodes_to_set_commands() {
    let mut store = store_with(5);
    eval::set(args(&["a", "1"]), &mut store, T0);
    eval::set(args(&["b", "two words"]), &mut store, T0);
    let (_, snapshot) = eval::bg_rewrite_aof(args(&[]), &store);
    let cmds = redrust::server::sync_tcp::read_command(&snapshot).unwrap();
    assert_eq!(cmds.len(), 2);
    assert_eq!(cmds[0].cmd, "SET");
    assert_eq!(cmds[0].args, args(&["a", "1"]));
    assert_eq!(cmds[1].cmd, "SET");
    assert_eq!(cmds[1].args, args(&["b", "two words"]));
}
