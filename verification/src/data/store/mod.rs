//! The keyspace: keys to stored objects, with lazy expiry on access,
//! eviction on capacity, an active expiry sweep and a snapshot dump.

pub mod aof;
pub mod eviction;
pub mod expire;
pub mod model;

use vstd::prelude::*;
use vstd::utf8::encode_utf8;
use crate::common::Value;
use crate::config::Config;
use crate::data::store::model::{
    lemma_evict, lemma_index_of, lemma_with, lemma_without, Keyspace, StoreObjectView,
};
use crate::error::Error;
use crate::protocol::decimal::{parse_i64, parse_i64_spec};

verus! {

/// The only type of stored object: a string.
pub const TYPE_STRING: u8 = 0;

/// Encoding hint of a long string.
pub const ENCODING_RAW: u8 = 0;

/// Encoding hint of a string that reads as a 64-bit integer.
pub const ENCODING_INT: u8 = 1;

/// Encoding hint of a short string.
pub const ENCODING_EMBSTR: u8 = 8;

/// The longest string, in bytes, that counts as short.
pub const EMBED_STRING_MAX_LENGTH: usize = 44;

/// What the keyspace holds under a key.
pub struct StoreObject {
    /// Type in the high four bits, encoding in the low four.
    pub type_encoding: u8,
    pub value: Value,
    /// Milliseconds since the epoch, or -1 for no expiry.
    pub expires_at: i64,
}

impl View for StoreObject {
    type V = StoreObjectView;

    open spec fn view(&self) -> StoreObjectView {
        StoreObjectView {
            type_encoding: self.type_encoding,
            value: self.value@,
            expires_at: self.expires_at,
        }
    }
}

impl StoreObject {
    /// An object that holds `value`. It expires `duration_ms` milliseconds
    /// after `now` where the duration is positive, and never where it is
    /// not.
    pub fn new(value: Value, duration_ms: i64, obj_type: u8, obj_encoding: u8, now: i64) -> (obj:
        StoreObject)
        requires
            duration_ms > 0 ==> now + duration_ms <= i64::MAX,
        ensures
            obj.type_encoding == obj_type | obj_encoding,
            obj.value == value,
            obj.expires_at == if duration_ms > 0 {
                now + duration_ms
            } else {
                -1
            },
    {
        let mut expires_at: i64 = -1;
        if duration_ms > 0 {
            expires_at = now + duration_ms;
        }
        StoreObject { type_encoding: obj_type | obj_encoding, value, expires_at }
    }

    /// `Ok` where the object is of type `t`.
    pub fn assert_type(&self, t: u8) -> (r: Result<(), Error>)
        ensures
            r == if self@.object_type() == t {
                Ok::<(), Error>(())
            } else {
                Err::<(), Error>(Error::WrongType)
            },
    {
        if self.get_type() != t {
            return Err(Error::WrongType);
        }
        Ok(())
    }

    /// `Ok` where the object has the encoding hint `t`.
    pub fn assert_encoding(&self, t: u8) -> (r: Result<(), Error>)
        ensures
            r == if self@.encoding() == t {
                Ok::<(), Error>(())
            } else {
                Err::<(), Error>(Error::NotAnInteger)
            },
    {
        if self.get_encoding() != t {
            return Err(Error::NotAnInteger);
        }
        Ok(())
    }

    /// The type: the high four bits of the tag byte.
    pub fn get_type(&self) -> (t: u8)
        ensures
            t == self@.object_type(),
    {
        self.type_encoding & 0b11110000
    }

    /// The encoding hint: the low four bits of the tag byte.
    pub fn get_encoding(&self) -> (t: u8)
        ensures
            t == self@.encoding(),
    {
        self.type_encoding & 0b00001111
    }
}

/// Type and encoding hint for a string that is about to be stored: the
/// integer hint where it reads as a 64-bit integer, else the short-string
/// hint up to 44 bytes, else the raw one.
pub open spec fn deduce_spec(value: Seq<char>) -> (u8, u8) {
    let bytes = encode_utf8(value);
    if parse_i64_spec(bytes) is Some {
        (TYPE_STRING, ENCODING_INT)
    } else if bytes.len() <= EMBED_STRING_MAX_LENGTH {
        (TYPE_STRING, ENCODING_EMBSTR)
    } else {
        (TYPE_STRING, ENCODING_RAW)
    }
}

/// Type and encoding hint for a string that is about to be stored.
pub fn deduce_type_encoding(value: &String) -> (r: (u8, u8))
    ensures
        r == deduce_spec(value@),
{
    let bytes = value.as_str().as_bytes();
    if parse_i64(bytes).is_some() {
        return (TYPE_STRING, ENCODING_INT);
    }
    if bytes.len() <= EMBED_STRING_MAX_LENGTH {
        return (TYPE_STRING, ENCODING_EMBSTR);
    }
    (TYPE_STRING, ENCODING_RAW)
}

/// Keys and their objects side by side: the object at a position belongs
/// to the key at that position.
struct Table {
    keys: Vec<String>,
    objects: Vec<StoreObject>,
}

impl Table {
    /// The entries in the order of the positions.
    spec fn entries(self) -> Seq<(Seq<char>, StoreObjectView)> {
        Seq::new(self.keys@.len(), |i: int| (self.keys@[i]@, self.objects@[i]@))
    }

    /// Every key has its object and no key occurs twice.
    spec fn wf(self) -> bool {
        &&& self.keys@.len() == self.objects@.len()
        &&& forall|i: int, j: int|
            0 <= i < j < self.keys@.len() ==> self.keys@[i]@ != self.keys@[j]@
    }

    /// A table without entries.
    fn empty() -> (table: Table)
        ensures
            table.wf(),
            table.entries() == Seq::<(Seq<char>, StoreObjectView)>::empty(),
    {
        let table = Table { keys: Vec::new(), objects: Vec::new() };
        assert(table.entries() =~= Seq::<(Seq<char>, StoreObjectView)>::empty());
        table
    }

    /// The position of the key, if it is present.
    fn find(&self, k: &String) -> (r: Option<usize>)
        requires
            self.wf(),
        ensures
            match r {
                Some(i) => i < self.keys@.len() && self.keys@[i as int]@ == k@,
                None => forall|j: int| 0 <= j < self.keys@.len() ==> self.keys@[j]@ != k@,
            },
    {
        let mut i: usize = 0;
        while i < self.keys.len()
            invariant
                i <= self.keys@.len(),
                forall|j: int| 0 <= j < i ==> self.keys@[j]@ != k@,
            decreases self.keys@.len() - i,
        {
            if self.keys[i] == *k {
                return Some(i);
            }
            i += 1;
        }
        None
    }

    /// Takes out the entry at a position.
    fn remove_at(&mut self, i: usize) -> (obj: StoreObject)
        requires
            old(self).wf(),
            i < old(self).keys@.len(),
        ensures
            final(self).wf(),
            final(self).entries() == old(self).entries().remove(i as int),
            obj@ == old(self).entries()[i as int].1,
    {
        self.keys.remove(i);
        let obj = self.objects.remove(i);
        assert(self.entries() =~= old(self).entries().remove(i as int));
        obj
    }

    /// Adds an entry for a key that is not present.
    fn push(&mut self, k: String, obj: StoreObject)
        requires
            old(self).wf(),
            forall|j: int| 0 <= j < old(self).keys@.len() ==> old(self).keys@[j]@ != k@,
        ensures
            final(self).wf(),
            final(self).entries() == old(self).entries().push((k@, obj@)),
    {
        self.keys.push(k);
        self.objects.push(obj);
        assert(self.entries() =~= old(self).entries().push((k@, obj@)));
    }

    /// Puts another object at a position and hands back the one that was
    /// there.
    fn replace(&mut self, i: usize, obj: StoreObject) -> (previous: StoreObject)
        requires
            old(self).wf(),
            i < old(self).keys@.len(),
        ensures
            final(self).wf(),
            final(self).entries() == old(self).entries().update(
                i as int,
                (old(self).entries()[i as int].0, obj@),
            ),
            previous@ == old(self).entries()[i as int].1,
        no_unwind
    {
        let ghost put = obj@;
        let mut obj = obj;
        core::mem::swap(&mut self.objects[i], &mut obj);
        assert(self.entries() =~= old(self).entries().update(
            i as int,
            (old(self).entries()[i as int].0, put),
        ));
        obj
    }
}

/// The keyspace of one server.
pub struct Store {
    table: Table,
    config: Config,
}

impl View for Store {
    type V = Keyspace;

    closed spec fn view(&self) -> Keyspace {
        Keyspace {
            entries: self.table.entries(),
            keys_limit: self.config.keys_limit,
            strategy: self.config.eviction_strategy@,
        }
    }
}

impl Store {
    /// What holds of every store at any time: every key has its object and
    /// no key occurs twice.
    #[verifier::type_invariant]
    pub closed spec fn inv(self) -> bool {
        self.table.wf()
    }

    /// The content of a store holds no key twice.
    pub proof fn lemma_inv(self)
        requires
            self.inv(),
        ensures
            self@.wf(),
    {
        assert forall|i: int, j: int| 0 <= i < j < self@.entries.len() implies (
        #[trigger] self@.entries[i]).0 != (#[trigger] self@.entries[j]).0 by {
            assert(self.table.keys@[i]@ != self.table.keys@[j]@);
        }
    }

    /// An empty keyspace under the given settings.
    pub fn new(config: Config) -> (store: Store)
        ensures
            store@.wf(),
            store@.entries == Seq::<(Seq<char>, StoreObjectView)>::empty(),
            store@.keys_limit == config.keys_limit,
            store@.strategy == config.eviction_strategy@,
    {
        Store { table: Table::empty(), config }
    }

    /// The number of keys, expired ones that no access has met included.
    pub fn len(&self) -> (n: usize)
        ensures
            n == self@.len(),
    {
        self.table.keys.len()
    }

    /// Where the key stands, if it is present.
    fn find(&self, k: &String) -> (r: Option<usize>)
        ensures
            self@.wf(),
            match r {
                Some(i) => i < self@.entries.len() && self@.entries[i as int].0 == k@
                    && self@.contains(k@) && self@.index_of(k@) == i,
                None => !self@.contains(k@),
            },
    {
        proof {
            use_type_invariant(self);
            self.lemma_inv();
        }
        let r = self.table.find(k);
        proof {
            match r {
                Some(i) => {
                    lemma_index_of(self@, k@, i as int);
                },
                None => {
                    if self@.contains(k@) {
                        let j = self@.index_of(k@);
                        assert(self.table.keys@[j]@ == k@);
                    }
                },
            }
        }
        r
    }

    /// Takes the table out for work that happens in more than one step,
    /// leaving an empty one in its place.
    fn take_table(&mut self) -> (table: Table)
        ensures
            table == old(self).table,
            table.wf(),
            final(self).config == old(self).config,
    {
        proof {
            use_type_invariant(&*self);
        }
        let mut table = Table::empty();
        core::mem::swap(&mut self.table, &mut table);
        table
    }

    /// Puts the table back.
    fn set_table(&mut self, table: Table)
        requires
            table.wf(),
        ensures
            final(self).table == table,
            final(self).config == old(self).config,
    {
        self.table = table;
    }

    /// Takes out the entry at a position.
    fn remove_at(&mut self, i: usize) -> (obj: StoreObject)
        requires
            i < old(self)@.entries.len(),
        ensures
            final(self)@.wf(),
            final(self)@ == old(self)@.without(old(self)@.entries[i as int].0),
            obj@ == old(self)@.entries[i as int].1,
    {
        proof {
            use_type_invariant(&*self);
            self.lemma_inv();
            lemma_index_of(self@, self@.entries[i as int].0, i as int);
            lemma_without(self@, self@.entries[i as int].0);
        }
        let mut table = self.take_table();
        let obj = table.remove_at(i);
        self.set_table(table);
        obj
    }

    /// Lazy expiry on an access to `k` at time `now`: an entry whose time has
    /// come is removed. Gives the position of the entry that is still there.
    pub fn may_remove(&mut self, k: &String, now: i64) -> (r: Option<usize>)
        ensures
            final(self)@.wf(),
            final(self)@ == old(self)@.purge(k@, now),
            match r {
                Some(i) => i < final(self)@.entries.len() && final(self)@.contains(k@)
                    && final(self)@.index_of(k@) == i,
                None => !final(self)@.contains(k@),
            },
    {
        match self.find(k) {
            Some(i) => {
                proof {
                    use_type_invariant(&*self);
                }
                let expires_at = self.table.objects[i].expires_at;
                if expires_at != -1 && expires_at <= now {
                    proof {
                        lemma_without(self@, k@);
                    }
                    self.remove_at(i);
                    None
                } else {
                    Some(i)
                }
            },
            None => None,
        }
    }

    /// The live object under `k` at time `now`, after lazy expiry.
    pub fn get(&mut self, k: &String, now: i64) -> (r: Option<&StoreObject>)
        ensures
            final(self)@.wf(),
            final(self)@ == old(self)@.purge(k@, now),
            match r {
                Some(obj) => final(self)@.lookup(k@) == Some(obj@),
                None => final(self)@.lookup(k@) is None,
            },
    {
        match self.may_remove(k, now) {
            Some(i) => {
                proof {
                    use_type_invariant(&*self);
                }
                Some(&self.table.objects[i])
            },
            None => None,
        }
    }

    /// The live object under `k` at time `now`, after lazy expiry, for
    /// changing it in place. What the caller leaves in the object is what
    /// the keyspace then holds under `k`.
    pub fn get_mut(&mut self, k: &String, now: i64) -> (r: Option<&mut StoreObject>)
        ensures
            match r {
                Some(obj) => old(self)@.purge(k@, now).lookup(k@) == Some((*obj)@) && final(self)@
                    =~~= old(self)@.purge(k@, now).with(k@, (*final(obj))@),
                None => old(self)@.purge(k@, now).lookup(k@) is None && final(self)@ == old(
                    self,
                )@.purge(k@, now),
            },
    {
        match self.may_remove(k, now) {
            Some(i) => {
                proof {
                    use_type_invariant(&*self);
                }
                Some(&mut self.table.objects[i])
            },
            None => None,
        }
    }

    /// The live object under `k` at time `now` for changing it in place;
    /// `default` is put under `k` first where lazy expiry leaves no object
    /// there. No eviction takes place.
    pub fn get_or_insert(&mut self, k: &String, default: StoreObject, now: i64) -> (r:
        &mut StoreObject)
        ensures
            old(self)@.ensure(k@, default@, now).lookup(k@) == Some((*r)@),
            final(self)@ =~~= old(self)@.ensure(k@, default@, now).with(k@, (*final(r))@),
    {
        let i = match self.may_remove(k, now) {
            Some(i) => i,
            None => {
                proof {
                    use_type_invariant(&*self);
                    lemma_with(self@, k@, default@);
                    assert forall|j: int| 0 <= j < self.table.keys@.len() implies self.table.keys@[j]@
                        != k@ by {
                        assert(self@.entries[j].0 == self.table.keys@[j]@);
                    }
                }
                let mut table = self.take_table();
                table.push(k.clone(), default);
                self.set_table(table);
                proof {
                    self.lemma_inv();
                    lemma_index_of(self@, k@, self@.entries.len() - 1);
                }
                self.table.keys.len() - 1
            },
        };
        proof {
            use_type_invariant(&*self);
        }
        &mut self.table.objects[i]
    }

    /// Puts `obj` under `k`, in the place of the object that was there if
    /// there was one, which is handed back. Where the number of keys has
    /// reached a limit that is not negative, the eviction policy runs
    /// first.
    pub fn put(&mut self, k: String, obj: StoreObject) -> (previous: Option<StoreObject>)
        ensures
            final(self)@.wf(),
            final(self)@ == old(self)@.put(k@, obj@),
            match previous {
                Some(p) => old(self)@.make_room().lookup(k@) == Some(p@),
                None => old(self)@.make_room().lookup(k@) is None,
            },
    {
        proof {
            use_type_invariant(&*self);
            self.lemma_inv();
        }
        let limit = self.config.keys_limit;
        if limit >= 0 && self.table.keys.len() >= limit as usize {
            self.evict();
        }
        proof {
            use_type_invariant(&*self);
            self.lemma_inv();
            lemma_evict(old(self)@);
            lemma_with(self@, k@, obj@);
        }
        match self.find(&k) {
            Some(i) => Some(self.table.replace(i, obj)),
            None => {
                proof {
                    assert forall|j: int| 0 <= j < self.table.keys@.len() implies self.table.keys@[j]@
                        != k@ by {
                        assert(self@.entries[j].0 == self.table.keys@[j]@);
                    }
                }
                let mut table = self.take_table();
                table.push(k, obj);
                self.set_table(table);
                None
            },
        }
    }

    /// Removes `k`, whether its time has come or not. Says whether it was
    /// there.
    pub fn del(&mut self, k: String) -> (removed: bool)
        ensures
            final(self)@.wf(),
            final(self)@ == old(self)@.without(k@),
            removed == old(self)@.contains(k@),
    {
        match self.find(&k) {
            Some(i) => {
                self.remove_at(i);
                true
            },
            None => false,
        }
    }
}

} // verus!
