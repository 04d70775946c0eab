//! Settings of a server instance.

use vstd::prelude::*;

verus! {

/// What a server is started with.
#[derive(Debug, Clone)]
pub struct Config {
    /// Address to listen on.
    pub host: String,
    /// Port to listen on.
    pub port: u16,
    /// How many keys the keyspace may hold before a put evicts one.
    /// A negative limit means no bound.
    pub keys_limit: i32,
    /// Name of the eviction policy.
    pub eviction_strategy: String,
    /// Path of the file that a rewrite of the append-only log fills.
    pub aof_file: String,
}

impl Default for Config {
    fn default() -> (config: Config)
        ensures
            config.host@ == "0.0.0.0"@,
            config.port == 7379,
            config.keys_limit == 5,
            config.eviction_strategy@ == "simple-first"@,
            config.aof_file@ == "./redrust-master.aof"@,
    {
        Config {
            host: "0.0.0.0".to_owned(),
            port: 7379,
            keys_limit: 5,
            eviction_strategy: "simple-first".to_owned(),
            aof_file: "./redrust-master.aof".to_owned(),
        }
    }
}

} // verus!
