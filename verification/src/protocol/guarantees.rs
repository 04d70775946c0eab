//! What sequences of commands guarantee, proved from what each command is
//! specified to do.

use vstd::prelude::*;
use vstd::utf8::encode_utf8;
use crate::common::ValueView;
use crate::data::store::model::{
    lemma_purge, lemma_put_within_limit, lemma_with, lemma_without, Keyspace, StoreObjectView,
};
use crate::data::store::{deduce_spec, ENCODING_INT, TYPE_STRING};
use crate::error::Error;
use crate::protocol::cmd::{CommandView, Verb};
use crate::protocol::decimal::{lemma_parse_decimal, parse_i64_spec};
use crate::protocol::eval::{
    del_fold, del_spec, execute_spec, expire_spec, failure, fresh_counter, get_spec, incr_spec,
    is_ex, set_object, set_options, set_spec, ttl_spec,
};
use crate::protocol::resp::{
    bulk_frame, int_frame, RESP_MINUS_TWO, RESP_NIL, RESP_OK, RESP_ONE, RESP_ZERO,
};
use crate::protocol::roundtrip::{
    lemma_bulk_frame_decodes, lemma_encoded_value_decodes, lemma_error_frame_decodes,
    lemma_fixed_replies_decode, lemma_int_frame_decodes, lemma_simple_frame_decodes,
    lemma_small_frames, one_frame, short_tokens,
};
use crate::protocol::text::{decimal_text, lemma_decimal_ascii};

verus! {

/// After `SET k v`, `GET k` answers the bulk string of `v`, whatever the
/// keyspace held before and whenever the two commands run.
pub proof fn lemma_set_then_get(
    k: Seq<char>,
    v: Seq<char>,
    m: Keyspace,
    set_time: i64,
    get_time: i64,
)
    requires
        m.wf(),
    ensures
        set_spec(seq![k, v], m, set_time).0 == RESP_OK@,
        set_spec(seq![k, v], m, set_time).1.wf(),
        get_spec(seq![k], set_spec(seq![k, v], m, set_time).1, get_time).0 == bulk_frame(v),
{
    let args = seq![k, v];
    assert(set_options(args, 2, -1i64) == Ok::<i64, Error>(-1i64));
    let obj = set_object(v, -1i64, set_time);
    lemma_put_within_limit(m, k, obj);
    lemma_purge(m.put(k, obj), k, get_time);
}

/// After `SET k v EX s` at time `t0` with `s` above zero, `TTL k` at a
/// later time `t1` answers the whole seconds that are left, a number from
/// zero to `s`, as long as less than `s` seconds have passed; from then on
/// it answers -2, the key is gone and `GET k` answers nil. Times count from
/// the epoch on: an expiry time of -1 would read as none.
pub proof fn lemma_ttl_after_set_ex(
    k: Seq<char>,
    v: Seq<char>,
    ex: Seq<char>,
    seconds: Seq<char>,
    s: i64,
    m: Keyspace,
    t0: i64,
    t1: i64,
)
    requires
        m.wf(),
        is_ex(ex),
        parse_i64_spec(encode_utf8(seconds)) == Some(s),
        s > 0,
        s * 1000 <= i64::MAX,
        t0 + s * 1000 <= i64::MAX,
        0 <= t0 <= t1,
    ensures
        set_spec(seq![k, v, ex, seconds], m, t0).0 == RESP_OK@,
        t1 < t0 + s * 1000 ==> ttl_spec(seq![k], set_spec(seq![k, v, ex, seconds], m, t0).1, t1).0
            == int_frame((t0 + s * 1000 - t1) / 1000) && 0 <= (t0 + s * 1000 - t1) / 1000 <= s,
        t1 >= t0 + s * 1000 ==> ttl_spec(seq![k], set_spec(seq![k, v, ex, seconds], m, t0).1, t1).0
            == RESP_MINUS_TWO@ && !ttl_spec(
            seq![k],
            set_spec(seq![k, v, ex, seconds], m, t0).1,
            t1,
        ).1.contains(k) && get_spec(
            seq![k],
            ttl_spec(seq![k], set_spec(seq![k, v, ex, seconds], m, t0).1, t1).1,
            t1,
        ).0 == RESP_NIL@,
{
    let args = seq![k, v, ex, seconds];
    let ms = (s * 1000) as i64;
    assert(set_options(args, 4, ms) == Ok::<i64, Error>(ms));
    assert(set_options(args, 2, -1i64) == Ok::<i64, Error>(ms));
    let obj = set_object(v, ms, t0);
    let stored = m.put(k, obj);
    lemma_put_within_limit(m, k, obj);
    lemma_purge(stored, k, t1);
    let after = stored.purge(k, t1);
    lemma_purge(after, k, t1);
}

/// `DEL` leaves none of its keys behind, so that `GET` of any of them
/// answers nil, and the number it answers is the number of keys that left
/// the keyspace: the keys among its arguments that were present, each
/// counted once, whether their time had come or not.
pub proof fn lemma_del(keys: Seq<Seq<char>>, m: Keyspace, now: i64)
    requires
        m.wf(),
    ensures
        del_fold(keys, m).1.wf(),
        del_fold(keys, m).0 == m.len() - del_fold(keys, m).1.len(),
        forall|i: int| 0 <= i < keys.len() ==> !del_fold(keys, m).1.contains(#[trigger] keys[i]),
        forall|i: int|
            0 <= i < keys.len() ==> get_spec(seq![#[trigger] keys[i]], del_spec(keys, m).1, now).0
                == RESP_NIL@,
        forall|other: Seq<char>|
            !keys.contains(other) ==> del_fold(keys, m).1.lookup(other) == #[trigger] m.lookup(
                other,
            ),
    decreases keys.len(),
{
    if keys.len() > 0 {
        let front = keys.drop_last();
        let last = keys.last();
        lemma_del(front, m, now);
        let before = del_fold(front, m).1;
        lemma_without(before, last);
        let after = del_fold(keys, m).1;
        assert(after == before.without(last));
        assert forall|i: int| 0 <= i < keys.len() implies !after.contains(#[trigger] keys[i]) by {
            if i < keys.len() - 1 {
                assert(front[i] == keys[i]);
                assert(!before.contains(front[i]));
                if keys[i] != last {
                    assert(after.lookup(keys[i]) == before.lookup(keys[i]));
                }
            }
        }
        assert forall|other: Seq<char>| !keys.contains(other) implies after.lookup(other)
            == #[trigger] m.lookup(other) by {
            assert(other != last) by {
                if other == last {
                    assert(keys[keys.len() - 1] == other);
                }
            }
            if front.contains(other) {
                let j = choose|j: int| 0 <= j < front.len() && front[j] == other;
                assert(keys[j] == other);
            }
            assert(before.lookup(other) == m.lookup(other));
            assert(after.lookup(other) == before.lookup(other));
        }
    }
    assert forall|i: int| 0 <= i < keys.len() implies get_spec(
        seq![#[trigger] keys[i]],
        del_spec(keys, m).1,
        now,
    ).0 == RESP_NIL@ by {
        lemma_purge(del_fold(keys, m).1, keys[i], now);
    }
}

/// `DEL k` answers one where `k` is present and zero where it is not.
pub proof fn lemma_del_one(k: Seq<char>, m: Keyspace)
    requires
        m.wf(),
    ensures
        del_spec(seq![k], m).0 == if m.contains(k) {
            RESP_ONE@
        } else {
            RESP_ZERO@
        },
        del_spec(seq![k], m).1 == m.without(k),
{
    let keys = seq![k];
    assert(keys.drop_last() =~= Seq::<Seq<char>>::empty());
    assert(del_fold(keys.drop_last(), m) == (0nat, m));
    reveal_with_fuel(del_fold, 2);
    lemma_small_frames();
}

/// `TTL` on a key whose time has come answers -2 and removes the key, so
/// that `GET` answers nil.
pub proof fn lemma_ttl_of_expired(k: Seq<char>, m: Keyspace, now: i64)
    requires
        m.wf(),
        m.contains(k),
        m.object(k).expired(now),
    ensures
        ttl_spec(seq![k], m, now) == (RESP_MINUS_TWO@, m.without(k)),
        !m.without(k).contains(k),
        get_spec(seq![k], m.without(k), now).0 == RESP_NIL@,
{
    lemma_without(m, k);
    lemma_purge(m, k, now);
    lemma_purge(m.without(k), k, now);
}

/// `SET k v EX s` with `s` at zero or below stores an object that never
/// expires.
pub proof fn lemma_set_ex_not_positive(
    k: Seq<char>,
    v: Seq<char>,
    ex: Seq<char>,
    seconds: Seq<char>,
    s: i64,
    m: Keyspace,
    now: i64,
)
    requires
        m.wf(),
        is_ex(ex),
        parse_i64_spec(encode_utf8(seconds)) == Some(s),
        s <= 0,
        i64::MIN <= s * 1000,
    ensures
        set_spec(seq![k, v, ex, seconds], m, now).0 == RESP_OK@,
        set_spec(seq![k, v, ex, seconds], m, now).1.lookup(k) is Some,
        set_spec(seq![k, v, ex, seconds], m, now).1.object(k).expires_at == -1,
{
    let args = seq![k, v, ex, seconds];
    let ms = (s * 1000) as i64;
    assert(set_options(args, 4, ms) == Ok::<i64, Error>(ms));
    assert(set_options(args, 2, -1i64) == Ok::<i64, Error>(ms));
    lemma_put_within_limit(m, k, set_object(v, ms, now));
}

/// `EXPIRE k 0` on a live key sets its expiry time to the time of the
/// command, so that the next access, at that time or later, finds no key.
pub proof fn lemma_expire_zero(k: Seq<char>, seconds: Seq<char>, m: Keyspace, now: i64, later: i64)
    requires
        m.wf(),
        parse_i64_spec(encode_utf8(seconds)) == Some(0i64),
        m.contains(k),
        !m.object(k).expired(now),
        now != -1,
        now <= later,
    ensures
        expire_spec(seq![k, seconds], m, now).0 == RESP_ONE@,
        expire_spec(seq![k, seconds], m, now).1.lookup(k) is Some,
        expire_spec(seq![k, seconds], m, now).1.object(k).expires_at == now,
        get_spec(seq![k], expire_spec(seq![k, seconds], m, now).1, later).0 == RESP_NIL@,
        !get_spec(seq![k], expire_spec(seq![k, seconds], m, now).1, later).1.contains(k),
{
    lemma_purge(m, k, now);
    let after = m.purge(k, now);
    let obj = after.object(k);
    let changed = StoreObjectView {
        type_encoding: obj.type_encoding,
        value: obj.value,
        expires_at: now,
    };
    lemma_with(after, k, changed);
    let result = after.with(k, changed);
    lemma_purge(result, k, later);
    lemma_without(result, k);
}

/// The keyspace after `INCR k` has run once at each of the times, in order.
pub open spec fn incr_many(k: Seq<char>, m: Keyspace, times: Seq<i64>) -> Keyspace
    decreases times.len(),
{
    if times.len() == 0 {
        m
    } else {
        incr_spec(seq![k], incr_many(k, m, times.drop_last()), times.last()).1
    }
}

/// The object that holds a counter which never expires.
pub open spec fn counter(i: int) -> StoreObjectView {
    StoreObjectView {
        type_encoding: TYPE_STRING | ENCODING_INT,
        value: ValueView::String(decimal_text(i)),
        expires_at: -1i64,
    }
}

/// `INCR` on a key that holds the counter `i` answers `i + 1` and leaves
/// the counter `i + 1` under the key.
pub proof fn lemma_incr_counter(k: Seq<char>, m: Keyspace, i: int, now: i64)
    requires
        m.wf(),
        m.lookup(k) == Some(counter(i)),
        i64::MIN <= i < i64::MAX,
    ensures
        incr_spec(seq![k], m, now).0 == int_frame(i + 1),
        incr_spec(seq![k], m, now).1.wf(),
        incr_spec(seq![k], m, now).1.lookup(k) == Some(counter(i + 1)),
{
    lemma_purge(m, k, now);
    lemma_decimal_ascii(i);
    lemma_parse_decimal(i);
    let obj = counter(i);
    assert(obj.object_type() == TYPE_STRING && obj.encoding() == ENCODING_INT) by {
        assert((0u8 | 1u8) & 0xf0u8 == 0u8) by (bit_vector);
        assert((0u8 | 1u8) & 0x0fu8 == 1u8) by (bit_vector);
    }
    lemma_with(m, k, counter(i + 1));
}

/// After `SET k v` with `v` the decimal text of an integer `i`, and then
/// `INCR k` as many times as there are `times`, `GET k` answers the decimal
/// text of `i` plus that many, as long as that sum is a 64-bit integer.
pub proof fn lemma_set_then_incr(
    k: Seq<char>,
    i: i64,
    m: Keyspace,
    set_time: i64,
    times: Seq<i64>,
    get_time: i64,
)
    requires
        m.wf(),
        i + times.len() <= i64::MAX,
    ensures
        incr_many(k, set_spec(seq![k, decimal_text(i as int)], m, set_time).1, times).wf(),
        incr_many(k, set_spec(seq![k, decimal_text(i as int)], m, set_time).1, times).lookup(k)
            == Some(counter(i + times.len())),
        get_spec(
            seq![k],
            incr_many(k, set_spec(seq![k, decimal_text(i as int)], m, set_time).1, times),
            get_time,
        ).0 == bulk_frame(decimal_text(i + times.len())),
    decreases times.len(),
{
    let v = decimal_text(i as int);
    let start = set_spec(seq![k, v], m, set_time).1;
    if times.len() == 0 {
        lemma_set_then_get(k, v, m, set_time, get_time);
        lemma_decimal_ascii(i as int);
        lemma_parse_decimal(i as int);
        assert(set_options(seq![k, v], 2, -1i64) == Ok::<i64, Error>(-1i64));
        assert(deduce_spec(v) == (TYPE_STRING, ENCODING_INT));
        lemma_put_within_limit(m, k, set_object(v, -1i64, set_time));
        assert(set_object(v, -1i64, set_time) == counter(i as int));
    } else {
        lemma_set_then_incr(k, i, m, set_time, times.drop_last(), get_time);
        let before = incr_many(k, start, times.drop_last());
        lemma_incr_counter(k, before, i + times.len() - 1, times.last());
    }
    lemma_purge(incr_many(k, start, times), k, get_time);
}

/// After `SET k 5` and then `INCR k` as many times as there are `times`,
/// `GET k` answers the decimal text of five plus that many.
pub proof fn lemma_set_five_then_incr(
    k: Seq<char>,
    m: Keyspace,
    set_time: i64,
    times: Seq<i64>,
    get_time: i64,
)
    requires
        m.wf(),
        5 + times.len() <= i64::MAX,
    ensures
        get_spec(seq![k], incr_many(k, set_spec(seq![k, "5"@], m, set_time).1, times), get_time).0
            == bulk_frame(decimal_text(5int + times.len())),
{
    reveal_strlit("5");
    assert("5"@ =~= decimal_text(5));
    lemma_set_then_incr(k, 5i64, m, set_time, times, get_time);
}

/// Every string that the keyspace holds is short enough for its length to
/// fit the header of a bulk frame.
pub open spec fn short_values(m: Keyspace) -> bool {
    forall|i: int|
        0 <= i < m.entries.len() ==> ((#[trigger] m.entries[i]).1.value is String ==> encode_utf8(
            m.entries[i].1.value->String_0,
        ).len() <= i32::MAX)
}

/// The reply to every command is a frame of the protocol: it decodes, and
/// to exactly one value. The arguments and the strings in the keyspace are
/// short enough for their lengths to fit the header of a bulk frame.
pub proof fn lemma_reply_decodes(cmd: CommandView, m: Keyspace, now: i64)
    requires
        m.wf(),
        short_values(m),
        short_tokens(cmd.args),
    ensures
        one_frame(execute_spec(cmd, m, now).0),
{
    let args = cmd.args;
    lemma_fixed_replies_decode();
    assert forall|e: Error| one_frame(#[trigger] failure(e)) by {
        lemma_error_frame_decodes(e);
    }
    match Verb::spec_of(cmd.cmd) {
        Verb::Ping => {
            if args.len() == 0 {
                reveal_strlit("PONG");
                lemma_simple_frame_decodes("PONG"@);
            } else if args.len() == 1 {
                lemma_bulk_frame_decodes(args[0]);
            }
        },
        Verb::SetValue => {},
        Verb::GetValue => {
            if args.len() == 1 {
                lemma_purge(m, args[0], now);
                if m.purge(args[0], now).lookup(args[0]) is Some {
                    let i = m.index_of(args[0]);
                    assert(m.entries[i].1 == m.object(args[0]));
                    lemma_encoded_value_decodes(m.object(args[0]).value);
                }
            }
        },
        Verb::Ttl => {
            if args.len() == 1 {
                lemma_purge(m, args[0], now);
                match m.purge(args[0], now).lookup(args[0]) {
                    Some(obj) => {
                        if obj.expires_at != -1 {
                            lemma_int_frame_decodes(((obj.expires_at - now) / 1000) as i64);
                        }
                    },
                    None => {},
                }
            }
        },
        Verb::Del => {
            let count = del_fold(args, m).0;
            lemma_int_frame_decodes(
                if count <= i32::MAX {
                    count as i64
                } else {
                    i32::MAX as i64
                },
            );
        },
        Verb::Expire => {},
        Verb::BgRewriteAof => {},
        Verb::Incr => {
            if args.len() == 1 {
                let ready = m.ensure(args[0], fresh_counter(), now);
                match ready.object(args[0]).value {
                    ValueView::String(text) => match parse_i64_spec(encode_utf8(text)) {
                        Some(i) => {
                            if i < i64::MAX {
                                lemma_int_frame_decodes((i + 1) as i64);
                            }
                        },
                        None => {},
                    },
                    _ => {},
                }
            }
        },
    }
}

} // verus!
