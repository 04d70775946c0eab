//! The command evaluator: what each command answers and what it does to
//! the keyspace, at a given time.

use vstd::prelude::*;
use vstd::slice::slice_to_vec;
use vstd::utf8::encode_utf8;
use crate::clock::now_millis;
use crate::common::{clone_strings, clone_value, strings_view, Value, ValueView};
use crate::data::store::aof::dump_spec;
use crate::data::store::model::{lemma_with, lemma_without, Keyspace, StoreObjectView};
use crate::data::store::{
    deduce_spec, deduce_type_encoding, Store, StoreObject, ENCODING_INT, TYPE_STRING,
};
use crate::error::Error;
use crate::protocol::cmd::{commands_view, Command, CommandView, Commands, Verb};
use crate::protocol::decimal::{parse_i64, parse_i64_spec};
use crate::protocol::resp::{
    bulk_frame, encode, encode_error, encode_spec, error_frame, int_frame, simple_frame,
    RESP_MINUS_ONE, RESP_MINUS_TWO, RESP_NIL, RESP_OK, RESP_ONE, RESP_ZERO,
};
use crate::protocol::text::{decimal_string, decimal_text};

verus! {

/// The reply that reports a failure.
pub open spec fn failure(e: Error) -> Seq<u8> {
    error_frame(e.spec_message())
}

/// What `PING` answers.
pub open spec fn ping_spec(args: Seq<Seq<char>>) -> Seq<u8> {
    if args.len() >= 2 {
        failure(Error::WrongArity(Verb::Ping))
    } else if args.len() == 0 {
        simple_frame("PONG"@)
    } else {
        bulk_frame(args[0])
    }
}

/// `PING`: without an argument `PONG` as a simple string, with one the
/// argument as a bulk string, with more an error.
pub fn ping(args: Vec<String>) -> (out: Vec<u8>)
    ensures
        out@ == ping_spec(strings_view(args@)),
{
    if args.len() >= 2 {
        return encode_error(Error::WrongArity(Verb::Ping));
    }
    if args.len() == 0 {
        encode(Value::String("PONG".to_owned()), true)
    } else {
        encode(Value::String(args[0].clone()), false)
    }
}

/// What `GET` answers at time `now`, and the keyspace it leaves.
pub open spec fn get_spec(args: Seq<Seq<char>>, m: Keyspace, now: i64) -> (Seq<u8>, Keyspace) {
    if args.len() != 1 {
        (failure(Error::WrongArity(Verb::GetValue)), m)
    } else {
        let after = m.purge(args[0], now);
        match after.lookup(args[0]) {
            Some(obj) => (encode_spec(obj.value, false), after),
            None => (RESP_NIL@, after),
        }
    }
}

/// `GET key`: the live value as a bulk string, nil where there is none.
pub fn get(args: Vec<String>, store: &mut Store, now: i64) -> (out: Vec<u8>)
    ensures
        final(store)@.wf(),
        out@ == get_spec(strings_view(args@), old(store)@, now).0,
        final(store)@ == get_spec(strings_view(args@), old(store)@, now).1,
{
    proof {
        use_type_invariant(&*store);
        store.lemma_inv();
    }
    if args.len() != 1 {
        return encode_error(Error::WrongArity(Verb::GetValue));
    }
    match store.get(&args[0], now) {
        Some(obj) => encode(clone_value(&obj.value), false),
        None => slice_to_vec(RESP_NIL.as_slice()),
    }
}

/// The token is the option `EX`, in either case of either letter.
pub open spec fn is_ex(token: Seq<char>) -> bool {
    token == "EX"@ || token == "ex"@ || token == "Ex"@ || token == "eX"@
}

fn is_ex_token(token: &String) -> (r: bool)
    ensures
        r == is_ex(token@),
{
    *token == "EX".to_owned() || *token == "ex".to_owned() || *token == "Ex".to_owned() || *token
        == "eX".to_owned()
}

/// The expiry duration in milliseconds that the options of a `SET` from
/// position `i` on ask for, `duration_ms` being what the options before
/// asked for. `EX` takes its seconds from the token behind it.
pub open spec fn set_options(args: Seq<Seq<char>>, i: int, duration_ms: i64) -> Result<i64, Error>
    decreases args.len() - i,
{
    if i < 0 || i >= args.len() {
        Ok(duration_ms)
    } else if !is_ex(args[i]) || i + 1 >= args.len() {
        Err(Error::Syntax)
    } else {
        match parse_i64_spec(encode_utf8(args[i + 1])) {
            None => Err(Error::NotAnInteger),
            Some(seconds) => if i64::MIN <= seconds * 1000 <= i64::MAX {
                set_options(args, i + 2, (seconds * 1000) as i64)
            } else {
                Err(Error::NotAnInteger)
            },
        }
    }
}

/// The object that `SET` stores for a value and a duration at time `now`.
pub open spec fn set_object(value: Seq<char>, duration_ms: i64, now: i64) -> StoreObjectView {
    StoreObjectView {
        type_encoding: deduce_spec(value).0 | deduce_spec(value).1,
        value: ValueView::String(value),
        expires_at: if duration_ms > 0 {
            (now + duration_ms) as i64
        } else {
            -1i64
        },
    }
}

/// What `SET` answers at time `now`, and the keyspace it leaves. A failure
/// leaves the keyspace as it was.
pub open spec fn set_spec(args: Seq<Seq<char>>, m: Keyspace, now: i64) -> (Seq<u8>, Keyspace) {
    if args.len() <= 1 {
        (failure(Error::WrongArity(Verb::SetValue)), m)
    } else {
        match set_options(args, 2, -1i64) {
            Err(e) => (failure(e), m),
            Ok(duration_ms) => if duration_ms > 0 && now + duration_ms > i64::MAX {
                (failure(Error::NotAnInteger), m)
            } else {
                (RESP_OK@, m.put(args[0], set_object(args[1], duration_ms, now)))
            },
        }
    }
}

/// `SET key value [EX seconds]`: stores the value as a string object.
pub fn set(args: Vec<String>, store: &mut Store, now: i64) -> (out: Vec<u8>)
    ensures
        final(store)@.wf(),
        out@ == set_spec(strings_view(args@), old(store)@, now).0,
        final(store)@ == set_spec(strings_view(args@), old(store)@, now).1,
{
    proof {
        use_type_invariant(&*store);
        store.lemma_inv();
    }
    if args.len() <= 1 {
        return encode_error(Error::WrongArity(Verb::SetValue));
    }
    let ghost texts = strings_view(args@);
    let ghost before = store@;
    let mut duration_ms: i64 = -1;
    let mut i: usize = 2;
    while i < args.len()
        invariant
            2 <= i,
            args@.len() >= 2,
            store@.wf(),
            store@ == before,
            texts == strings_view(args@),
            set_options(texts, 2, -1i64) == set_options(texts, i as int, duration_ms),
        decreases args@.len() - i,
    {
        if !is_ex_token(&args[i]) || args.len() - i <= 1 {
            return encode_error(Error::Syntax);
        }
        let seconds = match parse_i64(args[i + 1].as_str().as_bytes()) {
            Some(seconds) => seconds,
            None => {
                return encode_error(Error::NotAnInteger);
            },
        };
        if seconds > 9223372036854775 || seconds < -9223372036854775 {
            return encode_error(Error::NotAnInteger);
        }
        duration_ms = seconds * 1000;
        i += 2;
    }
    if duration_ms > 0 && now > i64::MAX - duration_ms {
        return encode_error(Error::NotAnInteger);
    }
    let (obj_type, obj_encoding) = deduce_type_encoding(&args[1]);
    let value = Value::String(args[1].clone());
    store.put(args[0].clone(), StoreObject::new(value, duration_ms, obj_type, obj_encoding, now));
    slice_to_vec(RESP_OK.as_slice())
}

/// What `TTL` answers at time `now`, and the keyspace it leaves: -2 for
/// no live object, -1 for one that never expires, else the whole seconds
/// that are left.
pub open spec fn ttl_spec(args: Seq<Seq<char>>, m: Keyspace, now: i64) -> (Seq<u8>, Keyspace) {
    if args.len() != 1 {
        (failure(Error::WrongArity(Verb::Ttl)), m)
    } else {
        let after = m.purge(args[0], now);
        match after.lookup(args[0]) {
            None => (RESP_MINUS_TWO@, after),
            Some(obj) => if obj.expires_at == -1 {
                (RESP_MINUS_ONE@, after)
            } else {
                (int_frame((obj.expires_at - now) / 1000), after)
            },
        }
    }
}

/// `TTL key`: the seconds that the key has left.
pub fn ttl(args: Vec<String>, store: &mut Store, now: i64) -> (out: Vec<u8>)
    ensures
        final(store)@.wf(),
        out@ == ttl_spec(strings_view(args@), old(store)@, now).0,
        final(store)@ == ttl_spec(strings_view(args@), old(store)@, now).1,
{
    proof {
        use_type_invariant(&*store);
        store.lemma_inv();
    }
    if args.len() != 1 {
        return encode_error(Error::WrongArity(Verb::Ttl));
    }
    let expires_at = match store.get(&args[0], now) {
        Some(obj) => obj.expires_at,
        None => {
            return slice_to_vec(RESP_MINUS_TWO.as_slice());
        },
    };
    if expires_at == -1 {
        return slice_to_vec(RESP_MINUS_ONE.as_slice());
    }
    let left: i128 = expires_at as i128 - now as i128;
    encode(Value::Int64((left / 1000) as i64), false)
}

/// How many of the keys `DEL` removes, and the keyspace it leaves. A key
/// counts where it is present when its turn comes.
pub open spec fn del_fold(keys: Seq<Seq<char>>, m: Keyspace) -> (nat, Keyspace)
    decreases keys.len(),
{
    if keys.len() == 0 {
        (0, m)
    } else {
        let (count, before) = del_fold(keys.drop_last(), m);
        (
            if before.contains(keys.last()) {
                count + 1
            } else {
                count
            },
            before.without(keys.last()),
        )
    }
}

/// What `DEL` answers, and the keyspace it leaves. The count is sent as a
/// 32-bit integer and stops at the largest one.
pub open spec fn del_spec(args: Seq<Seq<char>>, m: Keyspace) -> (Seq<u8>, Keyspace) {
    let (count, after) = del_fold(args, m);
    (
        int_frame(
            if count <= i32::MAX {
                count as int
            } else {
                i32::MAX as int
            },
        ),
        after,
    )
}

/// `DEL key ...`: removes the keys and answers how many were there.
pub fn del(args: Vec<String>, store: &mut Store) -> (out: Vec<u8>)
    ensures
        final(store)@.wf(),
        out@ == del_spec(strings_view(args@), old(store)@).0,
        final(store)@ == del_spec(strings_view(args@), old(store)@).1,
{
    proof {
        use_type_invariant(&*store);
        store.lemma_inv();
    }
    let ghost texts = strings_view(args@);
    let ghost start = store@;
    let mut count_deleted: i32 = 0;
    let mut i: usize = 0;
    assert(texts.take(0) =~= Seq::<Seq<char>>::empty());
    while i < args.len()
        invariant
            i <= args@.len(),
            texts == strings_view(args@),
            store@.wf(),
            store@ == del_fold(texts.take(i as int), start).1,
            count_deleted == if del_fold(texts.take(i as int), start).0 <= i32::MAX {
                del_fold(texts.take(i as int), start).0 as int
            } else {
                i32::MAX as int
            },
        decreases args@.len() - i,
    {
        assert(texts.take(i + 1).drop_last() =~= texts.take(i as int));
        assert(texts.take(i + 1).last() == args@[i as int]@);
        if store.del(args[i].clone()) {
            if count_deleted < i32::MAX {
                count_deleted += 1;
            }
        }
        i += 1;
    }
    assert(texts.take(i as int) =~= texts);
    encode(Value::Int32(count_deleted), false)
}

/// What `EXPIRE` answers at time `now`, and the keyspace it leaves: the
/// live object gets the expiry time `now` plus the seconds.
pub open spec fn expire_spec(args: Seq<Seq<char>>, m: Keyspace, now: i64) -> (Seq<u8>, Keyspace) {
    if args.len() <= 1 {
        (failure(Error::WrongArity(Verb::Expire)), m)
    } else {
        match parse_i64_spec(encode_utf8(args[1])) {
            None => (failure(Error::NotAnInteger), m),
            Some(seconds) => if !(i64::MIN <= now + seconds * 1000 <= i64::MAX) {
                (failure(Error::NotAnInteger), m)
            } else {
                let after = m.purge(args[0], now);
                match after.lookup(args[0]) {
                    None => (RESP_ZERO@, after),
                    Some(obj) => (
                        RESP_ONE@,
                        after.with(
                            args[0],
                            StoreObjectView {
                                type_encoding: obj.type_encoding,
                                value: obj.value,
                                expires_at: (now + seconds * 1000) as i64,
                            },
                        ),
                    ),
                }
            },
        }
    }
}

/// `EXPIRE key seconds`: sets the expiry time of a live key.
pub fn expire(args: Vec<String>, store: &mut Store, now: i64) -> (out: Vec<u8>)
    ensures
        final(store)@.wf(),
        out@ == expire_spec(strings_view(args@), old(store)@, now).0,
        final(store)@ == expire_spec(strings_view(args@), old(store)@, now).1,
{
    proof {
        use_type_invariant(&*store);
        store.lemma_inv();
    }
    if args.len() <= 1 {
        return encode_error(Error::WrongArity(Verb::Expire));
    }
    let seconds = match parse_i64(args[1].as_str().as_bytes()) {
        Some(seconds) => seconds,
        None => {
            return encode_error(Error::NotAnInteger);
        },
    };
    let at: i128 = now as i128 + (seconds as i128) * 1000;
    if at < -9223372036854775808 || at > 9223372036854775807 {
        return encode_error(Error::NotAnInteger);
    }
    proof {
        lemma_without(store@, args@[0]@);
    }
    match store.get_mut(&args[0], now) {
        Some(obj) => {
            obj.expires_at = at as i64;
        },
        None => {
            return slice_to_vec(RESP_ZERO.as_slice());
        },
    }
    proof {
        let after = old(store)@.purge(args@[0]@, now);
        lemma_with(after, args@[0]@, after.object(args@[0]@));
        let obj = after.object(args@[0]@);
        lemma_with(
            after,
            args@[0]@,
            StoreObjectView {
                type_encoding: obj.type_encoding,
                value: obj.value,
                expires_at: at as i64,
            },
        );
    }
    slice_to_vec(RESP_ONE.as_slice())
}

/// The object that `INCR` puts under a key that has none.
pub open spec fn fresh_counter() -> StoreObjectView {
    StoreObjectView {
        type_encoding: TYPE_STRING | ENCODING_INT,
        value: ValueView::String("0"@),
        expires_at: -1i64,
    }
}

/// What `INCR` answers at time `now`, and the keyspace it leaves. The
/// object must be a string with the integer hint that reads as a 64-bit
/// integer below the largest one; its value becomes the decimal text of the
/// next integer, which is also the answer.
pub open spec fn incr_spec(args: Seq<Seq<char>>, m: Keyspace, now: i64) -> (Seq<u8>, Keyspace) {
    if args.len() != 1 {
        (failure(Error::WrongArity(Verb::Incr)), m)
    } else {
        let ready = m.ensure(args[0], fresh_counter(), now);
        let obj = ready.object(args[0]);
        if obj.object_type() != TYPE_STRING {
            (failure(Error::WrongType), ready)
        } else if obj.encoding() != ENCODING_INT {
            (failure(Error::NotAnInteger), ready)
        } else {
            match obj.value {
                ValueView::String(s) => match parse_i64_spec(encode_utf8(s)) {
                    None => (failure(Error::WrongData), ready),
                    Some(i) => if i == i64::MAX {
                        (failure(Error::NotAnInteger), ready)
                    } else {
                        (
                            int_frame(i + 1),
                            ready.with(
                                args[0],
                                StoreObjectView {
                                    type_encoding: obj.type_encoding,
                                    value: ValueView::String(decimal_text(i + 1)),
                                    expires_at: obj.expires_at,
                                },
                            ),
                        )
                    },
                },
                _ => (failure(Error::WrongData), ready),
            }
        }
    }
}

/// `INCR key`: adds one to the integer that the key holds, a key without a
/// live object counting from zero.
pub fn incr(args: Vec<String>, store: &mut Store, now: i64) -> (out: Vec<u8>)
    ensures
        final(store)@.wf(),
        out@ == incr_spec(strings_view(args@), old(store)@, now).0,
        final(store)@ == incr_spec(strings_view(args@), old(store)@, now).1,
{
    proof {
        use_type_invariant(&*store);
        store.lemma_inv();
    }
    if args.len() != 1 {
        return encode_error(Error::WrongArity(Verb::Incr));
    }
    let ghost k = args@[0]@;
    let ghost ready = store@.ensure(k, fresh_counter(), now);
    proof {
        lemma_without(store@, k);
        lemma_with(store@.purge(k, now), k, fresh_counter());
        lemma_with(ready, k, ready.object(k));
    }
    let fresh = StoreObject::new(Value::String("0".to_owned()), -1, TYPE_STRING, ENCODING_INT, now);
    let obj = store.get_or_insert(&args[0], fresh, now);
    let ghost found = (*obj)@;
    if let Err(e) = obj.assert_type(TYPE_STRING) {
        return encode_error(e);
    }
    if let Err(e) = obj.assert_encoding(ENCODING_INT) {
        return encode_error(e);
    }
    let current = match &obj.value {
        Value::String(s) => parse_i64(s.as_str().as_bytes()),
        _ => None,
    };
    let next = match current {
        Some(i) => {
            if i == i64::MAX {
                return encode_error(Error::NotAnInteger);
            }
            i + 1
        },
        None => {
            return encode_error(Error::WrongData);
        },
    };
    obj.value = Value::String(decimal_string(next));
    proof {
        lemma_with(
            ready,
            k,
            StoreObjectView {
                type_encoding: found.type_encoding,
                value: ValueView::String(decimal_text(next as int)),
                expires_at: found.expires_at,
            },
        );
    }
    encode(Value::Int64(next), false)
}

/// `BGREWRITEAOF`: answers `OK` and hands over the snapshot that is to
/// fill the log file.
pub fn bg_rewrite_aof(args: Vec<String>, store: &Store) -> (r: (Vec<u8>, Vec<u8>))
    ensures
        r.0@ == RESP_OK@,
        r.1@ == dump_spec(store@.entries),
{
    let snapshot = store.dump_all_aof();
    (slice_to_vec(RESP_OK.as_slice()), snapshot)
}

/// What a command answers at time `now`, and the keyspace it leaves. A
/// name that is no known command is answered as `PING`.
pub open spec fn execute_spec(cmd: CommandView, m: Keyspace, now: i64) -> (Seq<u8>, Keyspace) {
    match Verb::spec_of(cmd.cmd) {
        Verb::Ping => (ping_spec(cmd.args), m),
        Verb::SetValue => set_spec(cmd.args, m, now),
        Verb::GetValue => get_spec(cmd.args, m, now),
        Verb::Ttl => ttl_spec(cmd.args, m, now),
        Verb::Del => del_spec(cmd.args, m),
        Verb::Expire => expire_spec(cmd.args, m, now),
        Verb::BgRewriteAof => (RESP_OK@, m),
        Verb::Incr => incr_spec(cmd.args, m, now),
    }
}

/// The snapshot that a command asks to be written: that of the keyspace as
/// `BGREWRITEAOF` finds it, none for any other command.
pub open spec fn snapshot_spec(cmd: CommandView, m: Keyspace) -> Option<Seq<u8>> {
    if Verb::spec_of(cmd.cmd) == Verb::BgRewriteAof {
        Some(dump_spec(m.entries))
    } else {
        None
    }
}

/// What evaluating one command gives.
pub struct Outcome {
    /// The bytes to send back.
    pub reply: Vec<u8>,
    /// The content to fill the log file with, where the command asked for
    /// a rewrite.
    pub snapshot: Option<Vec<u8>>,
}

impl Outcome {
    /// The snapshot as a mathematical value.
    pub open spec fn spec_snapshot(self) -> Option<Seq<u8>> {
        match self.snapshot {
            Some(bytes) => Some(bytes@),
            None => None,
        }
    }
}

/// Evaluates one command at time `now`.
pub fn execute(cmd: Command, store: &mut Store, now: i64) -> (r: Outcome)
    ensures
        final(store)@.wf(),
        r.reply@ == execute_spec(cmd@, old(store)@, now).0,
        final(store)@ == execute_spec(cmd@, old(store)@, now).1,
        r.spec_snapshot() == snapshot_spec(cmd@, old(store)@),
{
    proof {
        use_type_invariant(&*store);
        store.lemma_inv();
    }
    let verb = Verb::of(&cmd.cmd);
    match verb {
        Verb::Ping => Outcome { reply: ping(cmd.args), snapshot: None },
        Verb::SetValue => Outcome { reply: set(cmd.args, store, now), snapshot: None },
        Verb::GetValue => Outcome { reply: get(cmd.args, store, now), snapshot: None },
        Verb::Ttl => Outcome { reply: ttl(cmd.args, store, now), snapshot: None },
        Verb::Del => Outcome { reply: del(cmd.args, store), snapshot: None },
        Verb::Expire => Outcome { reply: expire(cmd.args, store, now), snapshot: None },
        Verb::BgRewriteAof => {
            let (reply, snapshot) = bg_rewrite_aof(cmd.args, store);
            Outcome { reply, snapshot: Some(snapshot) }
        },
        Verb::Incr => Outcome { reply: incr(cmd.args, store, now), snapshot: None },
    }
}

/// What a pipeline of commands gives where command `i` is evaluated at
/// `times[i]`: the replies in order, the keyspace left, and the snapshot
/// that the last rewrite among them asked for.
pub open spec fn respond_spec(cmds: Seq<CommandView>, m: Keyspace, times: Seq<i64>) -> (
    Seq<u8>,
    Keyspace,
    Option<Seq<u8>>,
)
    decreases cmds.len(),
{
    if cmds.len() == 0 {
        (Seq::<u8>::empty(), m, None)
    } else {
        let (replies, mid, snapshot) = respond_spec(cmds.drop_last(), m, times.drop_last());
        let (reply, after) = execute_spec(cmds.last(), mid, times.last());
        (
            replies + reply,
            after,
            match snapshot_spec(cmds.last(), mid) {
                Some(bytes) => Some(bytes),
                None => snapshot,
            },
        )
    }
}

/// The outcome and the keyspace `after` are what the pipeline gives on the
/// keyspace `before` for some times at which its commands are evaluated.
pub open spec fn responded(
    cmds: Seq<CommandView>,
    before: Keyspace,
    outcome: Outcome,
    after: Keyspace,
) -> bool {
    exists|times: Seq<i64>|
        times.len() == cmds.len() && (outcome.reply@, after, outcome.spec_snapshot())
            == #[trigger] respond_spec(cmds, before, times)
}

/// Evaluates the commands of one read in order, each at the time that the
/// clock shows when its turn comes, and collects the replies.
pub fn respond(cmds: Commands, store: &mut Store) -> (r: Outcome)
    ensures
        final(store)@.wf(),
        responded(commands_view(cmds@), old(store)@, r, final(store)@),
{
    proof {
        use_type_invariant(&*store);
        store.lemma_inv();
    }
    let ghost all = commands_view(cmds@);
    let ghost start = store@;
    let ghost mut times = Seq::<i64>::empty();
    let mut replies: Vec<u8> = Vec::new();
    let mut snapshot: Option<Vec<u8>> = None;
    let mut i: usize = 0;
    assert(all.take(0) =~= Seq::<CommandView>::empty());
    while i < cmds.len()
        invariant
            i <= cmds@.len(),
            all == commands_view(cmds@),
            store@.wf(),
            times.len() == i,
            (
                replies@,
                store@,
                match snapshot {
                    Some(bytes) => Some(bytes@),
                    None => None,
                },
            ) == respond_spec(all.take(i as int), start, times),
        decreases cmds@.len() - i,
    {
        let now = now_millis();
        let cmd = Command { cmd: cmds[i].cmd.clone(), args: clone_strings(&cmds[i].args) };
        proof {
            assert(cmd@.args =~= cmds@[i as int]@.args);
            assert(all.take(i + 1).drop_last() =~= all.take(i as int));
            assert(all.take(i + 1).last() == cmd@);
            assert(times.push(now).drop_last() =~= times);
            times = times.push(now);
        }
        let mut outcome = execute(cmd, store, now);
        replies.append(&mut outcome.reply);
        if outcome.snapshot.is_some() {
            snapshot = outcome.snapshot;
        }
        i += 1;
    }
    assert(all.take(i as int) =~= all);
    let outcome = Outcome { reply: replies, snapshot };
    assert((outcome.reply@, store@, outcome.spec_snapshot()) == respond_spec(all, start, times));
    outcome
}

} // verus!
