//! The decisions of the event loop that serves many connections from one
//! thread: when the expiry cron runs, and what follows from each event on a
//! socket. The loop itself, with its sockets and its readiness waits, is the
//! caller's; it reports events here and carries out the actions it gets
//! back.

use vstd::prelude::*;
use crate::clock::now_millis;
use crate::config::Config;
use crate::data::store::expire::sweep_spec;
use crate::data::store::model::{Keyspace, StoreObjectView};
use crate::data::store::Store;
use crate::protocol::eval::{responded, Outcome};
use crate::server::sync_tcp::{read_command, read_command_spec, respond};

verus! {

/// How many connections the listener queues and how many events one wait
/// takes at most.
pub const MAX_CLIENTS: usize = 20000;

/// The milliseconds that must have passed since the last sweep before the
/// next one runs.
pub const CRON_FREQUENCY_MS: i64 = 1000;

/// What the loop reports.
pub enum Event {
    /// The listener accepted a connection.
    Accepted,
    /// A read on a connection gave these bytes; none at the end of the
    /// connection.
    Received(Vec<u8>),
    /// A read on a connection failed.
    ReadFailed,
}

/// What the loop is to do.
pub enum Action {
    /// Watch the new connection for input.
    Register,
    /// Send the reply on the connection and, where there is a snapshot,
    /// fill the log file with it.
    Reply(Outcome),
    /// Close the connection.
    Close,
}

/// The state of a server between events.
pub struct Reactor {
    store: Store,
    con_clients: usize,
    last_cron_ms: i64,
}

/// A sweep is due: more than the cron frequency has passed since the last.
pub open spec fn cron_due(last_cron_ms: i64, now: i64) -> bool {
    now > last_cron_ms + CRON_FREQUENCY_MS
}

impl Reactor {
    /// The keyspace.
    pub closed spec fn keyspace(&self) -> Keyspace {
        self.store@
    }

    /// The number of open connections.
    pub closed spec fn connections(&self) -> nat {
        self.con_clients as nat
    }

    /// When the last sweep ran, or when the server started.
    pub closed spec fn last_cron(&self) -> i64 {
        self.last_cron_ms
    }

    /// The number of open connections.
    pub fn clients(&self) -> (n: usize)
        ensures
            n == self.connections(),
    {
        self.con_clients
    }

    /// The keyspace, for looking at.
    pub fn store(&self) -> (store: &Store)
        ensures
            store@ == self.keyspace(),
    {
        &self.store
    }

    /// A server with an empty keyspace and no connection whose cron clock
    /// starts at `now`.
    pub fn new_at(config: Config, now: i64) -> (r: Reactor)
        ensures
            r.keyspace().wf(),
            r.keyspace().entries == Seq::<(Seq<char>, StoreObjectView)>::empty(),
            r.keyspace().keys_limit == config.keys_limit,
            r.keyspace().strategy == config.eviction_strategy@,
            r.connections() == 0,
            r.last_cron() == now,
    {
        Reactor { store: Store::new(config), con_clients: 0, last_cron_ms: now }
    }

    /// A server with an empty keyspace and no connection whose cron clock
    /// starts at the time that the clock shows.
    pub fn new(config: Config) -> (r: Reactor)
        ensures
            r.keyspace().wf(),
            r.keyspace().entries == Seq::<(Seq<char>, StoreObjectView)>::empty(),
            r.keyspace().keys_limit == config.keys_limit,
            r.keyspace().strategy == config.eviction_strategy@,
            r.connections() == 0,
    {
        Reactor::new_at(config, now_millis())
    }

    /// The top of a loop iteration at time `now`: where a sweep is due it
    /// runs and the cron clock is set to `now`. Says whether it ran.
    pub fn cron_at(&mut self, now: i64) -> (ran: bool)
        ensures
            final(self).keyspace().wf(),
            ran == cron_due(old(self).last_cron(), now),
            final(self).connections() == old(self).connections(),
            final(self).keyspace() == if ran {
                sweep_spec(old(self).keyspace(), now)
            } else {
                old(self).keyspace()
            },
            final(self).last_cron() == if ran {
                now
            } else {
                old(self).last_cron()
            },
    {
        proof {
            use_type_invariant(&self.store);
            self.store.lemma_inv();
        }
        if now as i128 > self.last_cron_ms as i128 + CRON_FREQUENCY_MS as i128 {
            self.store.delete_expired_keys(now);
            self.last_cron_ms = now;
            true
        } else {
            false
        }
    }

    /// The top of a loop iteration, at the time that the clock shows.
    pub fn cron(&mut self) -> (ran: bool)
        ensures
            final(self).keyspace().wf(),
            final(self).connections() == old(self).connections(),
            exists|now: i64|
                ran == #[trigger] cron_due(old(self).last_cron(), now) && final(self).keyspace()
                    == (if ran {
                    sweep_spec(old(self).keyspace(), now)
                } else {
                    old(self).keyspace()
                }) && final(self).last_cron() == (if ran {
                    now
                } else {
                    old(self).last_cron()
                }),
    {
        let now = now_millis();
        let ran = self.cron_at(now);
        assert(ran == cron_due(old(self).last_cron(), now));
        ran
    }

    /// What follows from an event on a socket.
    ///
    /// A new connection is registered and counted. Bytes that hold
    /// commands are answered, the connection staying open. The end of a
    /// connection, a failed read and bytes that hold no commands close the
    /// connection without a reply, and take it off the count.
    pub fn step(&mut self, event: Event) -> (action: Action)
        ensures
            final(self).keyspace().wf(),
            final(self).last_cron() == old(self).last_cron(),
            match event {
                Event::Accepted => action is Register && final(self).keyspace() == old(
                    self,
                ).keyspace() && final(self).connections() == counted_up(old(self).connections()),
                Event::ReadFailed => action is Close && final(self).keyspace() == old(
                    self,
                ).keyspace() && final(self).connections() == counted_down(
                    old(self).connections(),
                ),
                Event::Received(data) => match read_command_spec(data@) {
                    Err(_) => action is Close && final(self).keyspace() == old(self).keyspace()
                        && final(self).connections() == counted_down(old(self).connections()),
                    Ok(cmds) => action is Reply && final(self).connections() == old(
                        self,
                    ).connections() && responded(
                        cmds,
                        old(self).keyspace(),
                        action->Reply_0,
                        final(self).keyspace(),
                    ),
                },
            },
    {
        proof {
            use_type_invariant(&self.store);
            self.store.lemma_inv();
        }
        match event {
            Event::Accepted => {
                if self.con_clients < usize::MAX {
                    self.con_clients += 1;
                }
                Action::Register
            },
            Event::ReadFailed => {
                self.drop_client();
                Action::Close
            },
            Event::Received(data) => match read_command(data.as_slice()) {
                Ok(cmds) => Action::Reply(respond(cmds, &mut self.store)),
                Err(_) => {
                    self.drop_client();
                    Action::Close
                },
            },
        }
    }

    fn drop_client(&mut self)
        ensures
            final(self).store == old(self).store,
            final(self).last_cron_ms == old(self).last_cron_ms,
            final(self).con_clients as nat == counted_down(old(self).con_clients as nat),
    {
        if self.con_clients > 0 {
            self.con_clients -= 1;
        }
    }
}

/// The count after one more connection. It stops at the largest number
/// that the machine counts to.
pub open spec fn counted_up(n: nat) -> nat {
    if n < usize::MAX {
        n + 1
    } else {
        n
    }
}

/// The count after one connection less.
pub open spec fn counted_down(n: nat) -> nat {
    if n > 0 {
        (n - 1) as nat
    } else {
        n
    }
}

} // verus!
