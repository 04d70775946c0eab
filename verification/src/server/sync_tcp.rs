//! One connection at a time: from the bytes of a read to commands, and from
//! commands to the bytes of the replies.

use vstd::prelude::*;
use crate::common::{lemma_vector_view, strings_view, text_of, values_view, Value, ValueView};
use crate::data::store::Store;
use crate::error::{EOFError, Error};
use crate::protocol::cmd::{commands_view, Command, CommandView, Commands};
use crate::protocol::eval;
use crate::protocol::eval::{responded, Outcome};
use crate::protocol::resp::{command_frame, decode, decode_spec};
use crate::protocol::roundtrip::{lemma_decode_command_frame, short_tokens, string_values};
use crate::protocol::text::{upper, upper_case};

verus! {

/// How many bytes one read of a connection takes at most.
pub const READ_BUFFER_SIZE: usize = 512;

/// The texts of the values, in order.
pub open spec fn texts_of(values: Seq<ValueView>) -> Seq<Seq<char>> {
    Seq::new(values.len(), |i: int| text_of(values[i]))
}

/// The text of every value.
pub fn to_array_string(values: Vec<Value>) -> (r: Result<Vec<String>, Error>)
    ensures
        r is Ok,
        strings_view(r->Ok_0@) == texts_of(values_view(values@)),
{
    let mut arrs: Vec<String> = Vec::new();
    let mut i: usize = 0;
    while i < values.len()
        invariant
            i <= values@.len(),
            arrs@.len() == i,
            forall|j: int| 0 <= j < i ==> arrs@[j]@ == text_of(values@[j]@),
        decreases values@.len() - i,
    {
        arrs.push(values[i].custom_to_string());
        i += 1;
    }
    assert(strings_view(arrs@) =~= texts_of(values_view(values@)));
    Ok(arrs)
}

/// The command that a decoded value stands for: an array whose first
/// element, in upper case, is the name and whose other elements are the
/// arguments.
pub open spec fn command_of(value: ValueView) -> Result<CommandView, Error> {
    match value {
        ValueView::Vector(elems) => if elems.len() == 0 {
            Err(Error::EmptyCommand)
        } else {
            Ok(
                CommandView {
                    cmd: upper(text_of(elems[0])),
                    args: texts_of(elems).drop_first(),
                },
            )
        },
        _ => Err(Error::NotAnArray),
    }
}

/// The commands that decoded values stand for, or the failure of the first
/// value that stands for none.
pub open spec fn commands_of(values: Seq<ValueView>) -> Result<Seq<CommandView>, Error>
    decreases values.len(),
{
    if values.len() == 0 {
        Ok(Seq::<CommandView>::empty())
    } else {
        match commands_of(values.drop_last()) {
            Err(e) => Err(e),
            Ok(cmds) => match command_of(values.last()) {
                Err(e) => Err(e),
                Ok(cmd) => Ok(cmds.push(cmd)),
            },
        }
    }
}

/// The commands in the bytes of one read. A read of no bytes is the end of
/// the connection.
pub open spec fn read_command_spec(data: Seq<u8>) -> Result<Seq<CommandView>, Error> {
    if data.len() == 0 {
        Err(Error::EndOfFile)
    } else {
        match decode_spec(data) {
            Err(e) => Err(e),
            Ok(values) => commands_of(values),
        }
    }
}

/// Turns one decoded value into a command.
pub fn to_command(value: Value) -> (r: Result<Command, Error>)
    ensures
        match r {
            Ok(cmd) => command_of(value@) == Ok::<CommandView, Error>(cmd@),
            Err(e) => command_of(value@) == Err::<CommandView, Error>(e),
        },
{
    match value {
        Value::Vector(elems) => {
            proof {
                lemma_vector_view(elems);
            }
            let ghost texts = texts_of(values_view(elems@));
            let tokens = match to_array_string(elems) {
                Ok(tokens) => tokens,
                Err(e) => {
                    return Err(e);
                },
            };
            if tokens.len() == 0 {
                return Err(Error::EmptyCommand);
            }
            let name = upper_case(tokens[0].as_str());
            let mut args: Vec<String> = Vec::new();
            let mut i: usize = 1;
            while i < tokens.len()
                invariant
                    1 <= i <= tokens@.len(),
                    args@.len() == i - 1,
                    forall|j: int| 0 <= j < i - 1 ==> args@[j]@ == tokens@[j + 1]@,
                decreases tokens@.len() - i,
            {
                args.push(tokens[i].clone());
                i += 1;
            }
            assert(strings_view(args@) =~= texts.drop_first());
            assert(tokens@[0]@ == strings_view(tokens@)[0]);
            assert(texts[0] == text_of(values_view(elems@)[0]));
            let cmd = Command { cmd: name, args };
            assert(cmd@.args == texts.drop_first());
            Ok(cmd)
        },
        _ => Err(Error::NotAnArray),
    }
}

/// Reads the commands out of the bytes that one read of a connection gave.
pub fn read_command(data: &[u8]) -> (r: Result<Commands, Error>)
    ensures
        match r {
            Ok(cmds) => read_command_spec(data@) == Ok::<Seq<CommandView>, Error>(
                commands_view(cmds@),
            ),
            Err(e) => read_command_spec(data@) == Err::<Seq<CommandView>, Error>(e),
        },
{
    if data.len() == 0 {
        return Err(Error::from(EOFError));
    }
    let values = match decode(data) {
        Ok(values) => values,
        Err(e) => {
            return Err(e);
        },
    };
    let ghost all = values_view(values@);
    let mut cmds: Vec<Command> = Vec::new();
    let mut values = values;
    let mut i: usize = 0;
    assert(all.take(0) =~= Seq::<ValueView>::empty());
    assert(commands_view(cmds@) =~= Seq::<CommandView>::empty());
    while i < values.len()
        invariant
            i <= values@.len(),
            all.len() == values@.len(),
            data@.len() > 0,
            decode_spec(data@) == Ok::<Seq<ValueView>, Error>(all),
            forall|j: int| i <= j < values@.len() ==> values@[j]@ == all[j],
            commands_of(all.take(i as int)) == Ok::<Seq<CommandView>, Error>(commands_view(cmds@)),
        decreases values@.len() - i,
    {
        assert(all.take(i + 1).drop_last() =~= all.take(i as int));
        assert(all.take(i + 1).last() == all[i as int]);
        let mut value = Value::Empty;
        core::mem::swap(&mut values[i], &mut value);
        let ghost done = commands_view(cmds@);
        match to_command(value) {
            Ok(cmd) => {
                cmds.push(cmd);
                assert(commands_view(cmds@) =~= done.push(cmd@));
            },
            Err(e) => {
                proof {
                    lemma_commands_of_prefix(all, i + 1);
                }
                return Err(e);
            },
        }
        i += 1;
    }
    assert(all.take(i as int) =~= all);
    Ok(cmds)
}

/// A failure among the first values is the failure of them all.
pub proof fn lemma_commands_of_prefix(values: Seq<ValueView>, n: int)
    requires
        0 <= n <= values.len(),
        commands_of(values.take(n)) is Err,
    ensures
        commands_of(values) == commands_of(values.take(n)),
    decreases values.len() - n,
{
    if n == values.len() {
        assert(values.take(n) =~= values);
    } else {
        assert(values.take(n + 1).drop_last() =~= values.take(n));
        lemma_commands_of_prefix(values, n + 1);
    }
}

/// The frame that carries a command reads back as that command, its name
/// in upper case: the tokens are at least one and no more than a header can
/// count, each short enough for its own header.
pub proof fn lemma_read_command_frame(tokens: Seq<Seq<char>>)
    requires
        0 < tokens.len() <= i32::MAX,
        short_tokens(tokens),
    ensures
        read_command_spec(command_frame(tokens)) == Ok::<Seq<CommandView>, Error>(
            seq![CommandView { cmd: upper(tokens[0]), args: tokens.drop_first() }],
        ),
{
    lemma_decode_command_frame(tokens);
    let value = ValueView::Vector(string_values(tokens));
    let values = seq![value];
    assert(texts_of(string_values(tokens)) =~= tokens);
    assert(values.drop_last() =~= Seq::<ValueView>::empty());
    assert(commands_of(values.drop_last()) == Ok::<Seq<CommandView>, Error>(
        Seq::<CommandView>::empty(),
    ));
    assert(Seq::<CommandView>::empty().push(command_of(value)->Ok_0) =~= seq![
        command_of(value)->Ok_0,
    ]);
}

/// Evaluates the commands of one read and collects what is to be sent
/// back.
pub fn respond(cmds: Commands, store: &mut Store) -> (r: Outcome)
    ensures
        final(store)@.wf(),
        responded(commands_view(cmds@), old(store)@, r, final(store)@),
{
    eval::respond(cmds, store)
}

} // verus!
