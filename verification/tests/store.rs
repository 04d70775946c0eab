use redrust::common::Value;
use redrust::config::Config;
use redrust::data::store::{
    deduce_type_encoding, Store, StoreObject, EMBED_STRING_MAX_LENGTH, ENCODING_EMBSTR,
    ENCODING_INT, ENCODING_RAW, TYPE_STRING,
};
use redrust::error::Error;

fn config(keys_limit: i32, strategy: &str) -> Config {
    Config {
        host: "0.0.0.0".to_owned(),
        port: 7379,
        keys_limit,
        eviction_strategy: strategy.to_owned(),
        aof_file: "./redrust-master.aof".to_owned(),
    }
}

fn text(v: &str, duration_ms: i64, now: i64) -> StoreObject {
    StoreObject::new(Value::String(v.to_owned()), duration_ms, TYPE_STRING, ENCODING_EMBSTR, now)
}

fn value_at(store: &mut Store, k: &str, now: i64) -> Option<Value> {
    store.get(&k.to_owned(), now).map(|o| o.value.clone())
}

#[test]
fn default_config_has_the_documented_values() {
    let c = Config::default();
    assert_eq!(c.host, "0.0.0.0");
    assert_eq!(c.port, 7379);
    assert_eq!(c.keys_limit, 5);
    assert_eq!(c.eviction_strategy, "simple-first");
    assert_eq!(c.aof_file, "./redrust-master.aof");
}

#[test]
fn store_object_new_sets_expiry_only_for_positive_durations() {
    assert_eq!(text("v", 0, 1000).expires_at, -1);
    assert_eq!(text("v", -5, 1000).expires_at, -1);
    assert_eq!(text("v", 1, 1000).expires_at, 1001);
    assert_eq!(text("v", 2500, 1_700_000_000_000).expires_at, 1_700_000_002_500);
}

#[test]
fn store_object_packs_type_and_encoding() {
    let o = StoreObject::new(Value::String("1".to_owned()), 0, 0x10, ENCODING_INT, 0);
    assert_eq!(o.type_encoding, 0x11);
    assert_eq!(o.get_type(), 0x10);
    assert_eq!(o.get_encoding(), 0x01);
    assert_eq!(o.assert_type(0x10), Ok(()));
    assert_eq!(o.assert_type(TYPE_STRING), Err(Error::WrongType));
    assert_eq!(o.assert_encoding(ENCODING_INT), Ok(()));
    assert_eq!(o.assert_encoding(ENCODING_EMBSTR), Err(Error::NotAnInteger));
    assert_eq!(o.assert_encoding(ENCODING_RAW), Err(Error::NotAnInteger));
}

#[test]
fn deduce_type_encoding_follows_value_shape() {
    assert_eq!(deduce_type_encoding(&"123".to_owned()), (TYPE_STRING, ENCODING_INT));
    assert_eq!(deduce_type_encoding(&"-9".to_owned()), (TYPE_STRING, ENCODING_INT));
    assert_eq!(deduce_type_encoding(&"abc".to_owned()), (TYPE_STRING, ENCODING_EMBSTR));
    assert_eq!(deduce_type_encoding(&"".to_owned()), (TYPE_STRING, ENCODING_EMBSTR));
    assert_eq!(
        deduce_type_encoding(&"9223372036854775808".to_owned()),
        (TYPE_STRING, ENCODING_EMBSTR)
    );
    assert_eq!(EMBED_STRING_MAX_LENGTH, 44);
    assert_eq!(deduce_type_encoding(&"x".repeat(44)), (TYPE_STRING, ENCODING_EMBSTR));
    assert_eq!(deduce_type_encoding(&"x".repeat(45)), (TYPE_STRING, ENCODING_RAW));
    assert_eq!(deduce_type_encoding(&"\u{e9}".repeat(22)), (TYPE_STRING, ENCODING_EMBSTR));
    assert_eq!(deduce_type_encoding(&"\u{e9}".repeat(23)), (TYPE_STRING, ENCODING_RAW));
}

#[test]
fn put_then_get_returns_the_object() {
    let mut store = Store::new(config(5, "simple-first"));
    assert_eq!(store.len(), 0);
    assert!(store.put("a".to_owned(), text("1", 0, 100)).is_none());
    assert_eq!(store.len(), 1);
    assert_eq!(value_at(&mut store, "a", 100), Some(Value::String("1".to_owned())));
    assert_eq!(value_at(&mut store, "b", 100), None);
}

#[test]
fn put_overwrites_and_hands_back_the_previous_object() {
    let mut store = Store::new(config(5, "simple-first"));
    store.put("a".to_owned(), text("1", 0, 100));
    let previous = store.put("a".to_owned(), text("2", 0, 100)).unwrap();
    assert_eq!(previous.value, Value::String("1".to_owned()));
    assert_eq!(store.len(), 1);
    assert_eq!(value_at(&mut store, "a", 100), Some(Value::String("2".to_owned())));
}

#[test]
fn del_reports_presence() {
    let mut store = Store::new(config(5, "simple-first"));
    store.put("a".to_owned(), text("1", 0, 100));
    assert!(store.del("a".to_owned()));
    assert!(!store.del("a".to_owned()));
    assert!(!store.del("zzz".to_owned()));
    assert_eq!(store.len(), 0);
}

#[test]
fn del_removes_an_expired_key_that_no_access_met() {
    let mut store = Store::new(config(5, "simple-first"));
    store.put("a".to_owned(), text("1", 10, 100));
    assert!(store.del("a".to_owned()));
}

#[test]
fn lazy_expiry_removes_on_access() {
    let mut store = Store::new(config(5, "simple-first"));
    store.put("a".to_owned(), text("1", 1000, 100));
    assert_eq!(value_at(&mut store, "a", 1099), Some(Value::String("1".to_owned())));
    assert_eq!(store.len(), 1);
    assert_eq!(value_at(&mut store, "a", 1100), None);
    assert_eq!(store.len(), 0);
}

#[test]
fn may_remove_gives_the_position_of_a_live_key() {
    let mut store = Store::new(config(5, "simple-first"));
    store.put("a".to_owned(), text("1", 0, 100));
    store.put("b".to_owned(), text("2", 50, 100));
    assert_eq!(store.may_remove(&"b".to_owned(), 120), Some(1));
    assert_eq!(store.may_remove(&"b".to_owned(), 150), None);
    assert_eq!(store.may_remove(&"a".to_owned(), 150), Some(0));
    assert_eq!(store.may_remove(&"c".to_owned(), 150), None);
    assert_eq!(store.len(), 1);
}

#[test]
fn get_mut_changes_the_stored_object() {
    let mut store = Store::new(config(5, "simple-first"));
    store.put("a".to_owned(), text("1", 0, 100));
    store.get_mut(&"a".to_owned(), 100).unwrap().expires_at = 500;
    assert_eq!(store.get(&"a".to_owned(), 499).unwrap().expires_at, 500);
    assert!(store.get_mut(&"a".to_owned(), 500).is_none());
    assert!(store.get_mut(&"missing".to_owned(), 500).is_none());
}

#[test]
fn get_or_insert_inserts_only_when_absent() {
    let mut store = Store::new(config(5, "simple-first"));
    let o = store.get_or_insert(&"a".to_owned(), text("d", 0, 100), 100);
    assert_eq!(o.value, Value::String("d".to_owned()));
    o.value = Value::String("changed".to_owned());
    let o = store.get_or_insert(&"a".to_owned(), text("d", 0, 100), 100);
    assert_eq!(o.value, Value::String("changed".to_owned()));
    assert_eq!(store.len(), 1);
}

#[test]
fn get_or_insert_replaces_an_expired_object() {
    let mut store = Store::new(config(5, "simple-first"));
    store.put("a".to_owned(), text("old", 10, 100));
    let o = store.get_or_insert(&"a".to_owned(), text("fresh", 0, 200), 200);
    assert_eq!(o.value, Value::String("fresh".to_owned()));
    assert_eq!(store.len(), 1);
}

#[test]
fn get_or_insert_does_not_evict() {
    let mut store = Store::new(config(1, "simple-first"));
    store.put("a".to_owned(), text("1", 0, 100));
    store.get_or_insert(&"b".to_owned(), text("2", 0, 100), 100);
    assert_eq!(store.len(), 2);
}

#[test]
fn put_at_the_limit_evicts_the_first_entry() {
    let mut store = Store::new(config(2, "simple-first"));
    store.put("a".to_owned(), text("1", 0, 100));
    store.put("b".to_owned(), text("2", 0, 100));
    store.put("c".to_owned(), text("3", 0, 100));
    assert_eq!(store.len(), 2);
    assert_eq!(value_at(&mut store, "a", 100), None);
    assert_eq!(value_at(&mut store, "b", 100), Some(Value::String("2".to_owned())));
    assert_eq!(value_at(&mut store, "c", 100), Some(Value::String("3".to_owned())));
}

#[test]
fn overwrite_at_the_limit_still_evicts() {
    let mut store = Store::new(config(2, "simple-first"));
    store.put("a".to_owned(), text("1", 0, 100));
    store.put("b".to_owned(), text("2", 0, 100));
    store.put("b".to_owned(), text("3", 0, 100));
    assert_eq!(store.len(), 1);
    assert_eq!(value_at(&mut store, "b", 100), Some(Value::String("3".to_owned())));
}

#[test]
fn unknown_strategy_evicts_nothing() {
    let mut store = Store::new(config(2, "none"));
    store.put("a".to_owned(), text("1", 0, 100));
    store.put("b".to_owned(), text("2", 0, 100));
    store.put("c".to_owned(), text("3", 0, 100));
    assert_eq!(store.len(), 3);
    store.evict();
    assert_eq!(store.len(), 3);
    store.evict_first();
    assert_eq!(store.len(), 2);
}

#[test]
fn negative_limit_is_unbounded() {
    let mut store = Store::new(config(-1, "simple-first"));
    for i in 0..50 {
        store.put(format!("k{}", i), text("v", 0, 100));
    }
    assert_eq!(store.len(), 50);
}

#[test]
fn zero_limit_evicts_before_every_put() {
    let mut store = Store::new(config(0, "simple-first"));
    store.put("a".to_owned(), text("1", 0, 100));
    assert_eq!(store.len(), 1);
    store.put("b".to_owned(), text("2", 0, 100));
    assert_eq!(store.len(), 1);
    assert_eq!(value_at(&mut store, "b", 100), Some(Value::String("2".to_owned())));
}

#[test]
fn evict_on_an_empty_store_does_nothing() {
    let mut store = Store::new(config(0, "simple-first"));
    store.evict();
    store.evict_first();
    assert_eq!(store.len(), 0);
}

#[test]
fn sample_removes_expired_keys_within_the_budget() {
    let mut store = Store::new(config(-1, "simple-first"));
    for i in 0..30 {
        store.put(format!("dead{}", i), text("v", 10, 100));
    }
    store.put("live".to_owned(), text("v", 0, 100));
    assert_eq!(store.expire_sample(1000), 20);
    assert_eq!(store.len(), 11);
    assert_eq!(store.expire_sample(1000), 10);
    assert_eq!(store.len(), 1);
    assert_eq!(store.expire_sample(1000), 0);
}

#[test]
fn sample_counts_unexpired_keys_with_expiry_toward_the_budget() {
    let mut store = Store::new(config(-1, "simple-first"));
    for i in 0..20 {
        store.put(format!("later{}", i), text("v", 1_000_000, 100));
    }
    store.put("dead".to_owned(), text("v", 10, 100));
    assert_eq!(store.expire_sample(1000), 0);
    assert_eq!(store.len(), 21);
}

#[test]
fn sample_skips_keys_without_expiry_for_free() {
    let mut store = Store::new(config(-1, "simple-first"));
    for i in 0..40 {
        store.put(format!("forever{}", i), text("v", 0, 100));
    }
    store.put("dead".to_owned(), text("v", 10, 100));
    assert_eq!(store.expire_sample(1000), 1);
    assert_eq!(store.len(), 40);
}

#[test]
fn sweep_repeats_while_a_quarter_of_the_sample_expired() {
    let mut store = Store::new(config(-1, "simple-first"));
    for i in 0..45 {
        store.put(format!("dead{}", i), text("v", 10, 100));
    }
    store.put("live".to_owned(), text("v", 0, 100));
    store.delete_expired_keys(1000);
    assert_eq!(store.len(), 1);
    assert_eq!(value_at(&mut store, "live", 1000), Some(Value::String("v".to_owned())));
}

#[test]
fn sweep_stops_after_a_sample_with_few_expired_keys() {
    let mut store = Store::new(config(-1, "simple-first"));
    for i in 0..4 {
        store.put(format!("dead{}", i), text("v", 10, 100));
    }
    for i in 0..16 {
        store.put(format!("later{}", i), text("v", 1_000_000, 100));
    }
    for i in 0..10 {
        store.put(format!("more{}", i), text("v", 10, 100));
    }
    store.delete_expired_keys(1000);
    assert_eq!(store.len(), 26);
}

#[test]
fn sweep_keeps_keys_that_are_not_yet_due() {
    let mut store = Store::new(config(-1, "simple-first"));
    store.put("a".to_owned(), text("v", 1000, 100));
    store.delete_expired_keys(1099);
    assert_eq!(store.len(), 1);
    store.delete_expired_keys(1100);
    assert_eq!(store.len(), 0);
}

#[test]
fn dump_writes_one_set_command_per_key() {
    let mut store = Store::new(config(5, "simple-first"));
    assert_eq!(store.dump_all_aof(), Vec::<u8>::new());
    store.put("k".to_owned(), text("v", 0, 100));
    store.put("key two".to_owned(), text("hello world", 5000, 100));
    assert_eq!(
        store.dump_all_aof(),
        b"*3\r\n$3\r\nSET\r\n$1\r\nk\r\n$1\r\nv\r\n*3\r\n$3\r\nSET\r\n$7\r\nkey two\r\n$11\r\nhello world\r\n"
            .to_vec()
    );
}

#[test]
fn dump_key_renders_the_value_as_text() {
    let o = StoreObject::new(Value::Int64(-12), 0, TYPE_STRING, ENCODING_INT, 0);
    assert_eq!(
        Store::dump_key(&"n".to_owned(), &o),
        b"*3\r\n$3\r\nSET\r\n$1\r\nn\r\n$3\r\n-12\r\n".to_vec()
    );
}
