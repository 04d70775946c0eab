//! Active expiry: a periodic sweep that removes keys whose time has come
//! without waiting for an access to meet them.

use vstd::prelude::*;
use crate::common::strings_view;
use crate::data::store::model::{lemma_index_of, lemma_without, Keyspace, StoreObjectView};
use crate::data::store::Store;

verus! {

/// How many keys with an expiry time one sample looks at.
pub const SAMPLE_SIZE: usize = 20;

/// A sample that removed at least this many keys is followed by another:
/// a quarter of the sample size.
pub const REPEAT_THRESHOLD: usize = 5;

/// The keys that one sample removes at time `now`: a walk over the entries
/// that stops after `budget` entries with an expiry time picks those among
/// them whose time has come.
pub open spec fn doomed(entries: Seq<(Seq<char>, StoreObjectView)>, budget: nat, now: i64) -> Seq<
    Seq<char>,
>
    decreases entries.len(),
{
    if entries.len() == 0 || budget == 0 {
        Seq::<Seq<char>>::empty()
    } else if entries[0].1.expires_at == -1 {
        doomed(entries.drop_first(), budget, now)
    } else if entries[0].1.expires_at <= now {
        seq![entries[0].0] + doomed(entries.drop_first(), (budget - 1) as nat, now)
    } else {
        doomed(entries.drop_first(), (budget - 1) as nat, now)
    }
}

/// The keyspace without the keys, removed one after the other.
pub open spec fn without_all(m: Keyspace, keys: Seq<Seq<char>>) -> Keyspace
    decreases keys.len(),
{
    if keys.len() == 0 {
        m
    } else {
        without_all(m.without(keys[0]), keys.drop_first())
    }
}

/// The keyspace after one sample at time `now`.
pub open spec fn sample_spec(m: Keyspace, now: i64) -> Keyspace {
    without_all(m, doomed(m.entries, SAMPLE_SIZE as nat, now))
}

/// The keyspace after a sweep at time `now`: samples are taken as long as
/// the one before removed a quarter of the sample size or more.
pub open spec fn sweep_spec(m: Keyspace, now: i64) -> Keyspace
    decreases m.entries.len(),
{
    let after = sample_spec(m, now);
    if doomed(m.entries, SAMPLE_SIZE as nat, now).len() >= REPEAT_THRESHOLD && after.entries.len()
        < m.entries.len() {
        sweep_spec(after, now)
    } else {
        after
    }
}

/// The keys are distinct and all present in the keyspace.
pub open spec fn distinct_present(m: Keyspace, keys: Seq<Seq<char>>) -> bool {
    &&& forall|i: int, j: int| 0 <= i < j < keys.len() ==> keys[i] != keys[j]
    &&& forall|i: int| 0 <= i < keys.len() ==> m.contains(#[trigger] keys[i])
}

/// Removing distinct keys that are present takes exactly those keys away.
pub proof fn lemma_without_all(m: Keyspace, keys: Seq<Seq<char>>)
    requires
        m.wf(),
        distinct_present(m, keys),
    ensures
        without_all(m, keys).wf(),
        without_all(m, keys).len() == m.len() - keys.len(),
        forall|k: Seq<char>|
            #[trigger] without_all(m, keys).lookup(k) == if keys.contains(k) {
                None
            } else {
                m.lookup(k)
            },
    decreases keys.len(),
{
    if keys.len() == 0 {
        assert forall|k: Seq<char>| !keys.contains(k) by {}
    } else {
        let first = keys[0];
        let rest = keys.drop_first();
        let next = m.without(first);
        lemma_without(m, first);
        assert(m.contains(first));
        assert forall|i: int| 0 <= i < rest.len() implies next.contains(#[trigger] rest[i]) by {
            assert(rest[i] == keys[i + 1]);
            assert(keys[0] != keys[i + 1]);
            assert(m.contains(keys[i + 1]));
            assert(next.lookup(rest[i]) == m.lookup(rest[i]));
        }
        assert forall|i: int, j: int| 0 <= i < j < rest.len() implies rest[i] != rest[j] by {
            assert(keys[i + 1] != keys[j + 1]);
        }
        lemma_without_all(next, rest);
        assert forall|k: Seq<char>| #[trigger]
            without_all(m, keys).lookup(k) == if keys.contains(k) {
                None
            } else {
                m.lookup(k)
            } by {
            if k == first {
                assert(keys[0] == k);
                if rest.contains(k) {
                    let j = choose|j: int| 0 <= j < rest.len() && rest[j] == k;
                    assert(keys[j + 1] == k);
                }
                assert(next.lookup(k) is None);
            } else {
                assert(next.lookup(k) == m.lookup(k));
                if rest.contains(k) {
                    let j = choose|j: int| 0 <= j < rest.len() && rest[j] == k;
                    assert(keys[j + 1] == k);
                } else if keys.contains(k) {
                    let j = choose|j: int| 0 <= j < keys.len() && keys[j] == k;
                    assert(rest[j - 1] == k);
                }
            }
        }
    }
}

/// What a sample picks: no more keys than the budget, each the key of an
/// entry whose time has come, none twice.
pub proof fn lemma_doomed(m: Keyspace, budget: nat, now: i64)
    requires
        m.wf(),
    ensures
        doomed(m.entries, budget, now).len() <= budget,
        doomed(m.entries, budget, now).len() <= m.entries.len(),
        distinct_present(m, doomed(m.entries, budget, now)),
        forall|i: int|
            0 <= i < doomed(m.entries, budget, now).len() ==> m.object(
                #[trigger] doomed(m.entries, budget, now)[i],
            ).expired(now),
    decreases m.entries.len(),
{
    let d = doomed(m.entries, budget, now);
    if m.entries.len() == 0 || budget == 0 {
    } else {
        let rest = m.with_entries(m.entries.drop_first());
        assert forall|i: int, j: int| 0 <= i < j < rest.entries.len() implies (
        #[trigger] rest.entries[i]).0 != (#[trigger] rest.entries[j]).0 by {
            assert(rest.entries[i] == m.entries[i + 1]);
            assert(rest.entries[j] == m.entries[j + 1]);
        }
        let b: nat = if m.entries[0].1.expires_at == -1 {
            budget
        } else {
            (budget - 1) as nat
        };
        lemma_doomed(rest, b, now);
        let inner = doomed(rest.entries, b, now);
        assert forall|i: int| 0 <= i < inner.len() implies m.contains(#[trigger] inner[i])
            && inner[i] != m.entries[0].0 && m.object(inner[i]) == rest.object(inner[i]) by {
            let q = rest.index_of(inner[i]);
            assert(rest.contains(inner[i]));
            assert(rest.entries[q].0 == inner[i]);
            assert(rest.entries[q] == m.entries[q + 1]);
            assert(m.entries[0].0 != m.entries[q + 1].0);
            lemma_index_of(m, inner[i], q + 1);
            lemma_index_of(rest, inner[i], q);
        }
        if m.entries[0].1.expires_at != -1 && m.entries[0].1.expires_at <= now {
            lemma_index_of(m, m.entries[0].0, 0);
            assert forall|i: int| 0 <= i < d.len() implies m.contains(#[trigger] d[i]) && m.object(
                d[i],
            ).expired(now) by {
                if i > 0 {
                    assert(d[i] == inner[i - 1]);
                }
            }
            assert forall|i: int, j: int| 0 <= i < j < d.len() implies d[i] != d[j] by {
                assert(d[j] == inner[j - 1]);
                if i > 0 {
                    assert(d[i] == inner[i - 1]);
                }
            }
        } else {
            assert(d == inner);
        }
    }
}

/// A sample removes only keys whose time has come: every other key keeps
/// its object, and every key that is left had its object before.
pub proof fn lemma_sample(m: Keyspace, now: i64)
    requires
        m.wf(),
    ensures
        sample_spec(m, now).wf(),
        sample_spec(m, now).len() == m.len() - doomed(m.entries, SAMPLE_SIZE as nat, now).len(),
        forall|k: Seq<char>|
            m.contains(k) && !m.object(k).expired(now) ==> #[trigger] sample_spec(m, now).lookup(k)
                == m.lookup(k),
        forall|k: Seq<char>|
            (#[trigger] sample_spec(m, now).lookup(k)) is Some ==> sample_spec(m, now).lookup(k)
                == m.lookup(k),
{
    let keys = doomed(m.entries, SAMPLE_SIZE as nat, now);
    lemma_doomed(m, SAMPLE_SIZE as nat, now);
    lemma_without_all(m, keys);
    assert forall|k: Seq<char>| m.contains(k) && !m.object(k).expired(now) implies #[trigger]
        sample_spec(m, now).lookup(k) == m.lookup(k) by {
        if keys.contains(k) {
            let j = choose|j: int| 0 <= j < keys.len() && keys[j] == k;
            assert(m.object(keys[j]).expired(now));
        }
    }
}

/// A sweep removes only keys whose time has come: every other key keeps
/// its object, and every key that is left had its object before.
pub proof fn lemma_sweep(m: Keyspace, now: i64)
    requires
        m.wf(),
    ensures
        sweep_spec(m, now).wf(),
        sweep_spec(m, now).len() <= m.len(),
        forall|k: Seq<char>|
            m.contains(k) && !m.object(k).expired(now) ==> #[trigger] sweep_spec(m, now).lookup(k)
                == m.lookup(k),
        forall|k: Seq<char>|
            (#[trigger] sweep_spec(m, now).lookup(k)) is Some ==> sweep_spec(m, now).lookup(k)
                == m.lookup(k),
    decreases m.entries.len(),
{
    let after = sample_spec(m, now);
    lemma_sample(m, now);
    if doomed(m.entries, SAMPLE_SIZE as nat, now).len() >= REPEAT_THRESHOLD && after.entries.len()
        < m.entries.len() {
        lemma_sweep(after, now);
        assert forall|k: Seq<char>| m.contains(k) && !m.object(k).expired(now) implies #[trigger]
            sweep_spec(m, now).lookup(k) == m.lookup(k) by {
            assert(after.lookup(k) == m.lookup(k));
            assert(after.contains(k) && !after.object(k).expired(now));
        }
        assert forall|k: Seq<char>| (#[trigger] sweep_spec(m, now).lookup(k)) is Some implies
            sweep_spec(m, now).lookup(k) == m.lookup(k) by {
            assert(sweep_spec(after, now).lookup(k) == after.lookup(k));
            assert(after.lookup(k) is Some);
        }
    }
}

impl Store {
    /// One sample at time `now`: looks at entries until it has met
    /// `SAMPLE_SIZE` with an expiry time, notes the keys among them whose
    /// time has come, and removes those once the walk is over. Gives the
    /// number of keys removed.
    pub fn expire_sample(&mut self, now: i64) -> (removed: usize)
        ensures
            final(self)@.wf(),
            final(self)@ == sample_spec(old(self)@, now),
            removed == doomed(old(self)@.entries, SAMPLE_SIZE as nat, now).len(),
            removed <= SAMPLE_SIZE,
            final(self)@.len() == old(self)@.len() - removed,
    {
        proof {
            use_type_invariant(&*self);
            self.lemma_inv();
        }
        let ghost start = self@;
        let ghost all = doomed(start.entries, SAMPLE_SIZE as nat, now);
        let mut limit: usize = SAMPLE_SIZE;
        let mut keys_to_remove: Vec<String> = Vec::new();
        let mut i: usize = 0;
        assert(start.entries.skip(0) =~= start.entries);
        assert(strings_view(keys_to_remove@) + all =~= all);
        while i < self.table.keys.len() && limit > 0
            invariant
                i <= self@.entries.len(),
                limit <= SAMPLE_SIZE,
                self.inv(),
                self@ == start,
                all == strings_view(keys_to_remove@) + doomed(
                    start.entries.skip(i as int),
                    limit as nat,
                    now,
                ),
            decreases self@.entries.len() - i,
        {
            let ghost tail = start.entries.skip(i as int);
            let ghost noted = strings_view(keys_to_remove@);
            assert(tail.drop_first() =~= start.entries.skip(i + 1));
            assert(tail[0] == start.entries[i as int]);
            let expires_at = self.table.objects[i].expires_at;
            if expires_at != -1 {
                limit -= 1;
                if expires_at <= now {
                    keys_to_remove.push(self.table.keys[i].clone());
                    assert(strings_view(keys_to_remove@) =~= noted + seq![tail[0].0]);
                    assert(all =~= strings_view(keys_to_remove@) + doomed(
                        start.entries.skip(i + 1),
                        limit as nat,
                        now,
                    ));
                }
            }
            i += 1;
        }
        assert(all =~= strings_view(keys_to_remove@));
        proof {
            lemma_doomed(start, SAMPLE_SIZE as nat, now);
            lemma_without_all(start, all);
        }
        let mut expired_count: usize = 0;
        assert(all.skip(0) =~= all);
        while expired_count < keys_to_remove.len()
            invariant
                expired_count <= keys_to_remove@.len(),
                all == strings_view(keys_to_remove@),
                self@.wf(),
                without_all(start, all) == without_all(self@, all.skip(expired_count as int)),
            decreases keys_to_remove@.len() - expired_count,
        {
            let ghost tail = all.skip(expired_count as int);
            assert(tail.drop_first() =~= all.skip(expired_count + 1));
            assert(tail[0] == keys_to_remove@[expired_count as int]@);
            self.del(keys_to_remove[expired_count].clone());
            expired_count += 1;
        }
        expired_count
    }

    /// The sweep of the periodic cron at time `now`: takes samples as long
    /// as the one before removed a quarter of the sample size or more.
    pub fn delete_expired_keys(&mut self, now: i64)
        ensures
            final(self)@.wf(),
            final(self)@ == sweep_spec(old(self)@, now),
    {
        proof {
            use_type_invariant(&*self);
            self.lemma_inv();
        }
        loop
            invariant_except_break
                sweep_spec(old(self)@, now) == sweep_spec(self@, now),
            ensures
                self@.wf(),
                self@ == sweep_spec(old(self)@, now),
            decreases self@.len(),
        {
            let removed = self.expire_sample(now);
            if removed < REPEAT_THRESHOLD {
                break ;
            }
        }
    }
}

} // verus!
