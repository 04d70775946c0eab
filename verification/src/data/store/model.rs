//! The keyspace as a mathematical object: an ordered list of distinct keys
//! with their objects, and the operations of the store as functions on it.

use vstd::prelude::*;
use crate::common::ValueView;

verus! {

/// The mathematical content of a stored object.
pub struct StoreObjectView {
    pub type_encoding: u8,
    pub value: ValueView,
    pub expires_at: i64,
}

impl StoreObjectView {
    /// The type: the high four bits of the tag byte.
    pub open spec fn object_type(self) -> u8 {
        self.type_encoding & 0xf0
    }

    /// The encoding hint: the low four bits of the tag byte.
    pub open spec fn encoding(self) -> u8 {
        self.type_encoding & 0x0f
    }

    /// The object has an expiry time and that time has come.
    pub open spec fn expired(self, now: i64) -> bool {
        self.expires_at != -1 && self.expires_at <= now
    }
}

/// The mathematical content of a store: its entries in the order in which
/// a walk meets them, and the two settings that its operations consult.
#[verifier::ext_equal]
pub struct Keyspace {
    pub entries: Seq<(Seq<char>, StoreObjectView)>,
    pub keys_limit: i32,
    pub strategy: Seq<char>,
}

impl Keyspace {
    /// No key occurs twice.
    pub open spec fn wf(self) -> bool {
        forall|i: int, j: int|
            0 <= i < j < self.entries.len() ==> (#[trigger] self.entries[i]).0
                != (#[trigger] self.entries[j]).0
    }

    /// The key is present.
    pub open spec fn contains(self, k: Seq<char>) -> bool {
        exists|i: int| 0 <= i < self.entries.len() && (#[trigger] self.entries[i]).0 == k
    }

    /// Where the key stands, for a key that is present.
    pub open spec fn index_of(self, k: Seq<char>) -> int {
        choose|i: int| 0 <= i < self.entries.len() && (#[trigger] self.entries[i]).0 == k
    }

    /// The object under a key that is present.
    pub open spec fn object(self, k: Seq<char>) -> StoreObjectView {
        self.entries[self.index_of(k)].1
    }

    /// The object under the key, if there is one.
    pub open spec fn lookup(self, k: Seq<char>) -> Option<StoreObjectView> {
        if self.contains(k) {
            Some(self.object(k))
        } else {
            None
        }
    }

    /// The number of keys.
    pub open spec fn len(self) -> nat {
        self.entries.len()
    }

    /// The same settings around other entries.
    pub open spec fn with_entries(self, entries: Seq<(Seq<char>, StoreObjectView)>) -> Keyspace {
        Keyspace { entries, keys_limit: self.keys_limit, strategy: self.strategy }
    }

    /// The keyspace without the key.
    pub open spec fn without(self, k: Seq<char>) -> Keyspace {
        if self.contains(k) {
            self.with_entries(self.entries.remove(self.index_of(k)))
        } else {
            self
        }
    }

    /// The keyspace with the object under the key: in the place of the
    /// object that was there, or at the end.
    pub open spec fn with(self, k: Seq<char>, obj: StoreObjectView) -> Keyspace {
        if self.contains(k) {
            self.with_entries(self.entries.update(self.index_of(k), (k, obj)))
        } else {
            self.with_entries(self.entries.push((k, obj)))
        }
    }

    /// Lazy expiry: the keyspace after an access to the key at time `now`.
    /// An object whose time has come is gone.
    pub open spec fn purge(self, k: Seq<char>, now: i64) -> Keyspace {
        if self.contains(k) && self.object(k).expired(now) {
            self.without(k)
        } else {
            self
        }
    }

    /// The eviction policy removes keys.
    pub open spec fn evicts(self) -> bool {
        self.strategy == "simple-first"@
    }

    /// Eviction: under the policy `simple-first` the first entry goes, under
    /// any other nothing does.
    pub open spec fn evict(self) -> Keyspace {
        if self.evicts() && self.entries.len() > 0 {
            self.with_entries(self.entries.drop_first())
        } else {
            self
        }
    }

    /// A put has to make room first: the limit is not negative and reached.
    pub open spec fn full(self) -> bool {
        0 <= self.keys_limit <= self.entries.len()
    }

    /// The keyspace as a put finds it once room is made.
    pub open spec fn make_room(self) -> Keyspace {
        if self.full() {
            self.evict()
        } else {
            self
        }
    }

    /// The keyspace after a put.
    pub open spec fn put(self, k: Seq<char>, obj: StoreObjectView) -> Keyspace {
        self.make_room().with(k, obj)
    }

    /// The keyspace once the key is sure to be there: after lazy expiry, and
    /// with `default` under the key where the key is absent.
    pub open spec fn ensure(self, k: Seq<char>, default: StoreObjectView, now: i64) -> Keyspace {
        let purged = self.purge(k, now);
        if purged.contains(k) {
            purged
        } else {
            purged.with(k, default)
        }
    }
}

/// In a keyspace without repeated keys a key stands where it is found.
pub proof fn lemma_index_of(m: Keyspace, k: Seq<char>, i: int)
    requires
        m.wf(),
        0 <= i < m.entries.len(),
        m.entries[i].0 == k,
    ensures
        m.contains(k),
        m.index_of(k) == i,
        m.object(k) == m.entries[i].1,
{
    let j = m.index_of(k);
    assert(m.entries[j].0 == k);
    if i < j {
        assert(m.entries[i].0 != m.entries[j].0);
    } else if j < i {
        assert(m.entries[j].0 != m.entries[i].0);
    }
}

/// Removing a key keeps the keys distinct, takes exactly that key away and
/// leaves every other key with its object.
pub proof fn lemma_without(m: Keyspace, k: Seq<char>)
    requires
        m.wf(),
    ensures
        m.without(k).wf(),
        !m.without(k).contains(k),
        m.without(k).len() == m.len() - if m.contains(k) {
            1int
        } else {
            0int
        },
        forall|other: Seq<char>|
            other != k ==> m.without(k).lookup(other) == #[trigger] m.lookup(other),
{
    let r = m.without(k);
    if m.contains(k) {
        let p = m.index_of(k);
        assert(m.entries[p].0 == k);
        assert forall|i: int, j: int| 0 <= i < j < r.entries.len() implies (
        #[trigger] r.entries[i]).0 != (#[trigger] r.entries[j]).0 by {
            let a = if i < p { i } else { i + 1 };
            let b = if j < p { j } else { j + 1 };
            assert(r.entries[i] == m.entries[a]);
            assert(r.entries[j] == m.entries[b]);
        }
        if r.contains(k) {
            let q = r.index_of(k);
            let a = if q < p { q } else { q + 1 };
            assert(r.entries[q] == m.entries[a]);
            lemma_index_of(m, k, a);
        }
        assert forall|other: Seq<char>| other != k implies r.lookup(other) == #[trigger] m.lookup(
            other,
        ) by {
            if m.contains(other) {
                let a = m.index_of(other);
                assert(m.entries[a].0 == other);
                let q = if a < p { a } else { a - 1 };
                assert(r.entries[q] == m.entries[a]);
                lemma_index_of(r, other, q);
            } else if r.contains(other) {
                let q = r.index_of(other);
                let a = if q < p { q } else { q + 1 };
                assert(r.entries[q] == m.entries[a]);
                assert(m.entries[a].0 == other);
            }
        }
    }
}

/// Putting an object under a key keeps the keys distinct, makes the key
/// hold that object and leaves every other key with its object.
pub proof fn lemma_with(m: Keyspace, k: Seq<char>, obj: StoreObjectView)
    requires
        m.wf(),
    ensures
        m.with(k, obj).wf(),
        m.with(k, obj).lookup(k) == Some(obj),
        m.with(k, obj).len() == m.len() + if m.contains(k) {
            0int
        } else {
            1int
        },
        forall|other: Seq<char>|
            other != k ==> m.with(k, obj).lookup(other) == #[trigger] m.lookup(other),
{
    let r = m.with(k, obj);
    let p = if m.contains(k) { m.index_of(k) } else { m.entries.len() as int };
    if m.contains(k) {
        assert(m.entries[p].0 == k);
    }
    assert(r.entries[p] == (k, obj));
    assert forall|i: int, j: int| 0 <= i < j < r.entries.len() implies (#[trigger] r.entries[i]).0
        != (#[trigger] r.entries[j]).0 by {
        if i != p {
            assert(r.entries[i] == m.entries[i]);
        }
        if j != p {
            assert(r.entries[j] == m.entries[j]);
        }
        if i == p && m.contains(k) {
            assert(m.entries[i].0 != m.entries[j].0);
        }
        if j == p && m.contains(k) {
            assert(m.entries[i].0 != m.entries[j].0);
        }
    }
    lemma_index_of(r, k, p);
    assert forall|other: Seq<char>| other != k implies r.lookup(other) == #[trigger] m.lookup(
        other,
    ) by {
        if m.contains(other) {
            let a = m.index_of(other);
            assert(m.entries[a].0 == other);
            assert(r.entries[a] == m.entries[a]);
            lemma_index_of(r, other, a);
        } else if r.contains(other) {
            let q = r.index_of(other);
            assert(r.entries[q].0 == other);
            assert(r.entries[q] == m.entries[q]);
        }
    }
}

/// Eviction keeps the keys distinct and takes away at most one key.
pub proof fn lemma_evict(m: Keyspace)
    requires
        m.wf(),
    ensures
        m.evict().wf(),
        m.evict().len() == m.len() - if m.evicts() && m.len() > 0 {
            1int
        } else {
            0int
        },
        m.make_room().wf(),
{
    let r = m.evict();
    if m.evicts() && m.entries.len() > 0 {
        assert forall|i: int, j: int| 0 <= i < j < r.entries.len() implies (
        #[trigger] r.entries[i]).0 != (#[trigger] r.entries[j]).0 by {
            assert(r.entries[i] == m.entries[i + 1]);
            assert(r.entries[j] == m.entries[j + 1]);
        }
    }
}

/// A put into a keyspace that holds exactly as many keys as its limit
/// allows, of a key that is not among them, leaves as many keys as before,
/// the new key among them. This is the case under the policy that evicts,
/// for a limit above zero.
pub proof fn lemma_put_at_limit(m: Keyspace, k: Seq<char>, obj: StoreObjectView)
    requires
        m.wf(),
        m.evicts(),
        m.keys_limit > 0,
        m.len() == m.keys_limit,
        !m.contains(k),
    ensures
        m.put(k, obj).wf(),
        m.put(k, obj).len() == m.keys_limit,
        m.put(k, obj).lookup(k) == Some(obj),
{
    lemma_evict(m);
    let room = m.make_room();
    assert(room.entries == m.entries.drop_first());
    if room.contains(k) {
        let q = room.index_of(k);
        assert(room.entries[q] == m.entries[q + 1]);
        assert(m.entries[q + 1].0 == k);
    }
    lemma_with(room, k, obj);
}

/// A put never leaves more keys than the limit allows, where the keyspace
/// was within its limit before, the limit is above zero and the policy
/// evicts. The key that was put is there afterwards under any settings.
pub proof fn lemma_put_within_limit(m: Keyspace, k: Seq<char>, obj: StoreObjectView)
    requires
        m.wf(),
    ensures
        m.put(k, obj).wf(),
        m.put(k, obj).lookup(k) == Some(obj),
        m.evicts() && 0 < m.keys_limit && m.len() <= m.keys_limit ==> m.put(k, obj).len()
            <= m.keys_limit,
        m.keys_limit < 0 ==> m.put(k, obj).len() >= m.len(),
{
    lemma_evict(m);
    lemma_with(m.make_room(), k, obj);
}

/// Lazy expiry keeps the keys distinct and touches no key but the one that
/// is accessed; that key is there afterwards exactly where it was there
/// before with an object whose time has not come.
pub proof fn lemma_purge(m: Keyspace, k: Seq<char>, now: i64)
    requires
        m.wf(),
    ensures
        m.purge(k, now).wf(),
        m.purge(k, now).lookup(k) == if m.contains(k) && !m.object(k).expired(now) {
            Some(m.object(k))
        } else {
            None
        },
        forall|other: Seq<char>|
            other != k ==> m.purge(k, now).lookup(other) == #[trigger] m.lookup(other),
{
    lemma_without(m, k);
}

} // verus!
