//! The snapshot that a rewrite of the append-only log writes: for every
//! key one `SET` command that restores its value.

use vstd::prelude::*;
use vstd::utf8::{encode_utf8, is_ascii_chars, is_ascii_chars_encode_utf8};
use crate::common::{strings_view, text_of, ValueView};
use crate::error::Error;
use crate::protocol::resp::decode_spec;
use crate::protocol::roundtrip::{lemma_decode_command_frame, string_values};
use crate::data::store::{Store, StoreObject};
use crate::data::store::model::StoreObjectView;
use crate::protocol::resp::{command_frame, encode_command};

verus! {

/// The command that restores one key: `SET`, the key, the text of the value.
pub open spec fn dump_key_spec(key: Seq<char>, obj: StoreObjectView) -> Seq<u8> {
    command_frame(seq!["SET"@, key, text_of(obj.value)])
}

/// The commands that restore the entries, one after the other. Expiry times
/// are not part of it.
pub open spec fn dump_spec(entries: Seq<(Seq<char>, StoreObjectView)>) -> Seq<u8>
    decreases entries.len(),
{
    if entries.len() == 0 {
        Seq::<u8>::empty()
    } else {
        dump_spec(entries.drop_last()) + dump_key_spec(entries.last().0, entries.last().1)
    }
}

/// The command that restores a key decodes to the array of `SET`, the key
/// and the text of the value, key and text being short enough for their
/// lengths to fit the header of a bulk frame.
pub proof fn lemma_dump_key_decodes(key: Seq<char>, obj: StoreObjectView)
    requires
        encode_utf8(key).len() <= i32::MAX,
        encode_utf8(text_of(obj.value)).len() <= i32::MAX,
    ensures
        decode_spec(dump_key_spec(key, obj)) == Ok::<Seq<ValueView>, Error>(
            seq![ValueView::Vector(string_values(seq!["SET"@, key, text_of(obj.value)]))],
        ),
{
    reveal_strlit("SET");
    assert(is_ascii_chars("SET"@));
    is_ascii_chars_encode_utf8("SET"@);
    lemma_decode_command_frame(seq!["SET"@, key, text_of(obj.value)]);
}

impl Store {
    /// The bytes of the command that restores one key.
    pub fn dump_key(key: &String, obj: &StoreObject) -> (out: Vec<u8>)
        ensures
            out@ == dump_key_spec(key@, obj@),
    {
        let mut tokens: Vec<String> = Vec::new();
        tokens.push("SET".to_owned());
        tokens.push(key.clone());
        tokens.push(obj.value.custom_to_string());
        assert(strings_view(tokens@) =~= seq!["SET"@, key@, text_of(obj@.value)]);
        encode_command(&tokens)
    }

    /// The content of the log file after a rewrite: the commands that
    /// restore every key, in the order of the entries.
    pub fn dump_all_aof(&self) -> (out: Vec<u8>)
        ensures
            out@ == dump_spec(self@.entries),
    {
        proof {
            use_type_invariant(self);
        }
        let mut out: Vec<u8> = Vec::new();
        let mut i: usize = 0;
        assert(self@.entries.take(0) =~= Seq::<(Seq<char>, StoreObjectView)>::empty());
        while i < self.table.keys.len()
            invariant
                i <= self@.entries.len(),
                self.inv(),
                out@ == dump_spec(self@.entries.take(i as int)),
            decreases self@.entries.len() - i,
        {
            let ghost before = self@.entries.take(i as int);
            let ghost after = self@.entries.take(i + 1);
            assert(after.drop_last() =~= before);
            assert(after.last() == self@.entries[i as int]);
            let mut frame = Store::dump_key(&self.table.keys[i], &self.table.objects[i]);
            out.append(&mut frame);
            i += 1;
        }
        assert(self@.entries.take(i as int) =~= self@.entries);
        out
    }
}

} // verus!
