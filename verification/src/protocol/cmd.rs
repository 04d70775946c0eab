//! Commands as the evaluator receives them.

use vstd::prelude::*;
use crate::common::strings_view;

verus! {

/// One client command: the upper-cased name and the arguments in order.
#[derive(Debug)]
pub struct Command {
    pub cmd: String,
    pub args: Vec<String>,
}

/// The commands of one read, in the order in which they arrived.
pub type Commands = Vec<Command>;

/// The mathematical content of a [`Command`].
pub struct CommandView {
    pub cmd: Seq<char>,
    pub args: Seq<Seq<char>>,
}

/// The contents of a list of commands.
pub open spec fn commands_view(v: Seq<Command>) -> Seq<CommandView> {
    Seq::new(v.len(), |i: int| v[i]@)
}

impl View for Command {
    type V = CommandView;

    open spec fn view(&self) -> CommandView {
        CommandView { cmd: self.cmd@, args: strings_view(self.args@) }
    }
}

/// The operations that the evaluator knows.
#[derive(Debug, Clone, Copy, PartialEq, Eq, Structural)]
pub enum Verb {
    Ping,
    SetValue,
    GetValue,
    Ttl,
    Del,
    Expire,
    BgRewriteAof,
    Incr,
}

impl Verb {
    /// The operation that a command name selects. A name that is none of
    /// the known ones selects `Ping`.
    pub open spec fn spec_of(name: Seq<char>) -> Verb {
        if name == "SET"@ {
            Verb::SetValue
        } else if name == "GET"@ {
            Verb::GetValue
        } else if name == "TTL"@ {
            Verb::Ttl
        } else if name == "DEL"@ {
            Verb::Del
        } else if name == "EXPIRE"@ {
            Verb::Expire
        } else if name == "BGREWRITEAOF"@ {
            Verb::BgRewriteAof
        } else if name == "INCR"@ {
            Verb::Incr
        } else {
            Verb::Ping
        }
    }

    /// The operation that a command name selects.
    pub fn of(name: &String) -> (verb: Verb)
        ensures
            verb == Verb::spec_of(name@),
    {
        if *name == "SET".to_owned() {
            Verb::SetValue
        } else if *name == "GET".to_owned() {
            Verb::GetValue
        } else if *name == "TTL".to_owned() {
            Verb::Ttl
        } else if *name == "DEL".to_owned() {
            Verb::Del
        } else if *name == "EXPIRE".to_owned() {
            Verb::Expire
        } else if *name == "BGREWRITEAOF".to_owned() {
            Verb::BgRewriteAof
        } else if *name == "INCR".to_owned() {
            Verb::Incr
        } else {
            Verb::Ping
        }
    }

    /// The name under which error replies mention the operation.
    pub open spec fn spec_label(self) -> Seq<char> {
        match self {
            Verb::Ping => "ping"@,
            Verb::SetValue => "set"@,
            Verb::GetValue => "get"@,
            Verb::Ttl => "ttl"@,
            Verb::Del => "del"@,
            Verb::Expire => "expire"@,
            Verb::BgRewriteAof => "bgrewriteaof"@,
            Verb::Incr => "incr"@,
        }
    }

    /// The name under which error replies mention the operation.
    pub fn label(self) -> (r: String)
        ensures
            r@ == self.spec_label(),
    {
        match self {
            Verb::Ping => "ping".to_owned(),
            Verb::SetValue => "set".to_owned(),
            Verb::GetValue => "get".to_owned(),
            Verb::Ttl => "ttl".to_owned(),
            Verb::Del => "del".to_owned(),
            Verb::Expire => "expire".to_owned(),
            Verb::BgRewriteAof => "bgrewriteaof".to_owned(),
            Verb::Incr => "incr".to_owned(),
        }
    }
}

} // verus!
