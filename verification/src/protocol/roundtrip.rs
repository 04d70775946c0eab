//! Encoding and decoding undo each other.

use vstd::prelude::*;
use vstd::utf8::{
    decode_utf8, encode_utf8, encode_utf8_decode_utf8, encode_utf8_valid_utf8, is_ascii_chars,
    is_ascii_chars_encode_utf8, valid_utf8,
};
use crate::common::ValueView;
use crate::error::Error;
use crate::protocol::cmd::Verb;
use crate::protocol::decimal::{
    all_digits, decimal, digits_of, is_digit, lemma_digits_of, lemma_parse_decimal,
};
use crate::protocol::resp::{
    array_spec, bulk_frame, bulk_frames, bulk_spec, command_frame, crlf, decode_spec, digit_run,
    elements_spec, encode_spec, error_frame, int_frame, length_spec, simple_frame, until_cr,
    value_spec, values_spec, RESP_MINUS_ONE, RESP_MINUS_TWO, RESP_NIL, RESP_OK, RESP_ONE,
    RESP_ZERO,
};
use crate::protocol::text::{ascii_chars, lemma_ascii_bytes};

verus! {

/// The fixed integer replies are the integer frames of their numbers.
pub proof fn lemma_small_frames()
    ensures
        int_frame(0) == RESP_ZERO@,
        int_frame(1) == RESP_ONE@,
        int_frame(-1) == RESP_MINUS_ONE@,
        int_frame(-2) == RESP_MINUS_TWO@,
{
    assert(int_frame(0) =~= RESP_ZERO@);
    assert(int_frame(1) =~= RESP_ONE@);
    assert(int_frame(-1) =~= RESP_MINUS_ONE@);
    assert(int_frame(-2) =~= RESP_MINUS_TWO@);
}

/// No byte is a CR.
pub open spec fn no_cr(bytes: Seq<u8>) -> bool {
    forall|i: int| 0 <= i < bytes.len() ==> #[trigger] bytes[i] != 13
}

/// The bytes before the first CR of a sequence that starts with bytes
/// without CR and goes on with a CR are exactly those bytes.
pub proof fn lemma_until_cr(head: Seq<u8>, tail: Seq<u8>)
    requires
        no_cr(head),
        tail.len() > 0,
        tail[0] == 13,
    ensures
        until_cr(head + tail) == head.len(),
    decreases head.len(),
{
    let s = head + tail;
    if head.len() == 0 {
        assert(s[0] == tail[0]);
    } else {
        assert(s[0] == head[0]);
        assert(s.drop_first() =~= head.drop_first() + tail);
        assert forall|i: int| 0 <= i < head.drop_first().len() implies #[trigger] head.drop_first()[i]
            != 13 by {
            assert(head.drop_first()[i] == head[i + 1]);
        }
        lemma_until_cr(head.drop_first(), tail);
    }
}

/// The digits that start a sequence made of digits and then of something
/// that starts with no digit are exactly those digits.
pub proof fn lemma_digit_run_of(head: Seq<u8>, tail: Seq<u8>)
    requires
        all_digits(head),
        tail.len() > 0,
        !is_digit(tail[0]),
    ensures
        digit_run(head + tail) == head.len(),
    decreases head.len(),
{
    let s = head + tail;
    if head.len() == 0 {
        assert(s[0] == tail[0]);
    } else {
        assert(s[0] == head[0]);
        assert(s.drop_first() =~= head.drop_first() + tail);
        assert forall|i: int| 0 <= i < head.drop_first().len() implies is_digit(
            #[trigger] head.drop_first()[i],
        ) by {
            assert(head.drop_first()[i] == head[i + 1]);
        }
        lemma_digit_run_of(head.drop_first(), tail);
    }
}

/// The decimal text of an integer holds no CR and at least one byte.
pub proof fn lemma_decimal_no_cr(i: int)
    ensures
        no_cr(decimal(i)),
        decimal(i).len() >= 1,
{
    let d = decimal(i);
    if i < 0 {
        lemma_digits_of((-i) as nat);
        let digits = digits_of((-i) as nat);
        assert forall|j: int| 0 <= j < d.len() implies #[trigger] d[j] != 13 by {
            if j > 0 {
                assert(d[j] == digits[j - 1]);
                assert(is_digit(digits[j - 1]));
            }
        }
    } else {
        lemma_digits_of(i as nat);
        assert forall|j: int| 0 <= j < d.len() implies #[trigger] d[j] != 13 by {
            assert(is_digit(d[j]));
        }
    }
}

/// An integer frame, whatever follows it, reads back as its integer and
/// takes exactly its own bytes.
pub proof fn lemma_read_int_frame(i: i64, rest: Seq<u8>)
    ensures
        value_spec(int_frame(i as int) + rest) == Ok::<(int, ValueView), Error>(
            (int_frame(i as int).len() as int, ValueView::Int64(i)),
        ),
{
    let d = decimal(i as int);
    let s = int_frame(i as int) + rest;
    lemma_decimal_no_cr(i as int);
    lemma_parse_decimal(i as int);
    assert(s.skip(1) =~= d + (crlf() + rest));
    lemma_until_cr(d, crlf() + rest);
    assert(s.subrange(1, 1 + d.len() as int) =~= d);
    assert(s[0] == 58);
}

/// A bulk frame of a string of no more bytes than a length header can
/// state, whatever follows the frame, reads back as that string and takes
/// exactly its own bytes.
pub proof fn lemma_read_bulk_frame(text: Seq<char>, rest: Seq<u8>)
    requires
        encode_utf8(text).len() <= i32::MAX,
    ensures
        value_spec(bulk_frame(text) + rest) == Ok::<(int, ValueView), Error>(
            (bulk_frame(text).len() as int, ValueView::String(text)),
        ),
        bulk_spec(bulk_frame(text) + rest) == value_spec(bulk_frame(text) + rest),
{
    let bytes = encode_utf8(text);
    let digits = digits_of(bytes.len());
    let s = bulk_frame(text) + rest;
    lemma_digits_of(bytes.len());
    let after = crlf() + bytes + crlf() + rest;
    assert(s.skip(1) =~= digits + after);
    assert(after[0] == 13);
    lemma_digit_run_of(digits, after);
    assert(s.skip(1).take(digits.len() as int) =~= digits);
    assert(length_spec(s.skip(1)) == Ok::<(int, i32), Error>(
        (digits.len() as int + 2, bytes.len() as i32),
    ));
    let start = 1 + digits.len() as int + 2;
    assert(s.subrange(start, start + bytes.len() as int) =~= bytes);
    encode_utf8_valid_utf8(text);
    encode_utf8_decode_utf8(text);
    assert(s[0] == 36);
}

/// A simple string frame of a text whose bytes hold no CR, whatever follows
/// the frame, reads back as that text and takes exactly its own bytes. An
/// error frame reads back the same way.
pub proof fn lemma_read_simple_frame(prefix: u8, text: Seq<char>, rest: Seq<u8>)
    requires
        prefix == 43 || prefix == 45,
        no_cr(encode_utf8(text)),
    ensures
        value_spec(seq![prefix] + encode_utf8(text) + crlf() + rest) == Ok::<
            (int, ValueView),
            Error,
        >((encode_utf8(text).len() as int + 3, ValueView::String(text))),
{
    let bytes = encode_utf8(text);
    let s = seq![prefix] + bytes + crlf() + rest;
    assert(s.skip(1) =~= bytes + (crlf() + rest));
    lemma_until_cr(bytes, crlf() + rest);
    assert(s.subrange(1, 1 + bytes.len() as int) =~= bytes);
    encode_utf8_valid_utf8(text);
    encode_utf8_decode_utf8(text);
    assert(s[0] == prefix);
}

/// A buffer that is one frame decodes to the value of that frame.
pub proof fn lemma_decode_one_frame(frame: Seq<u8>, value: ValueView)
    requires
        frame.len() > 0,
        value_spec(frame) == Ok::<(int, ValueView), Error>((frame.len() as int, value)),
    ensures
        decode_spec(frame) == Ok::<Seq<ValueView>, Error>(seq![value]),
{
    assert(frame.skip(frame.len() as int) =~= Seq::<u8>::empty());
    assert(values_spec(Seq::<u8>::empty()) == Ok::<Seq<ValueView>, Error>(
        Seq::<ValueView>::empty(),
    ));
    assert(seq![value] + Seq::<ValueView>::empty() =~= seq![value]);
}

/// Decoding what `encode` wrote for a string or a 64-bit integer gives that
/// value back, and nothing else. A string must be short enough for its
/// length to fit the header.
pub proof fn lemma_decode_encode(value: ValueView)
    requires
        value is String || value is Int64,
        value is String ==> encode_utf8(value->String_0).len() <= i32::MAX,
    ensures
        decode_spec(encode_spec(value, false)) == Ok::<Seq<ValueView>, Error>(seq![value]),
{
    let frame = encode_spec(value, false);
    match value {
        ValueView::String(text) => {
            lemma_read_bulk_frame(text, Seq::<u8>::empty());
        },
        ValueView::Int64(i) => {
            lemma_read_int_frame(i, Seq::<u8>::empty());
        },
        _ => {},
    }
    assert(frame + Seq::<u8>::empty() =~= frame);
    lemma_decode_one_frame(frame, value);
}

/// The string values that tokens stand for, in order.
pub open spec fn string_values(tokens: Seq<Seq<char>>) -> Seq<ValueView> {
    Seq::new(tokens.len(), |i: int| ValueView::String(tokens[i]))
}

/// Every token is short enough for its length to fit a header.
pub open spec fn short_tokens(tokens: Seq<Seq<char>>) -> bool {
    forall|i: int| 0 <= i < tokens.len() ==> encode_utf8(#[trigger] tokens[i]).len() <= i32::MAX
}

/// The bulk frames of tokens start with the frame of the first token.
pub proof fn lemma_bulk_frames_front(tokens: Seq<Seq<char>>)
    requires
        tokens.len() > 0,
    ensures
        bulk_frames(tokens) == bulk_frame(tokens[0]) + bulk_frames(tokens.drop_first()),
    decreases tokens.len(),
{
    if tokens.len() == 1 {
        assert(tokens.drop_last() =~= Seq::<Seq<char>>::empty());
        assert(tokens.drop_first() =~= Seq::<Seq<char>>::empty());
        assert(bulk_frames(tokens) =~= bulk_frame(tokens[0]) + bulk_frames(tokens.drop_first()));
    } else {
        let front = tokens.drop_last();
        lemma_bulk_frames_front(front);
        assert(front.drop_first() =~= tokens.drop_first().drop_last());
        assert(tokens.drop_first().last() == tokens.last());
        assert(bulk_frames(tokens) =~= bulk_frame(tokens[0]) + bulk_frames(tokens.drop_first()));
    }
}

/// The bulk frames of tokens, whatever follows them, read back as the
/// tokens and take exactly their own bytes.
pub proof fn lemma_read_bulk_frames(tokens: Seq<Seq<char>>, rest: Seq<u8>)
    requires
        short_tokens(tokens),
    ensures
        elements_spec(bulk_frames(tokens) + rest, tokens.len()) == Ok::<
            (int, Seq<ValueView>),
            Error,
        >((bulk_frames(tokens).len() as int, string_values(tokens))),
    decreases tokens.len(),
{
    if tokens.len() == 0 {
        assert(string_values(tokens) =~= Seq::<ValueView>::empty());
    } else {
        let first = bulk_frame(tokens[0]);
        let others = tokens.drop_first();
        let s = bulk_frames(tokens) + rest;
        lemma_bulk_frames_front(tokens);
        assert(s =~= first + (bulk_frames(others) + rest));
        lemma_read_bulk_frame(tokens[0], bulk_frames(others) + rest);
        assert(s.skip(first.len() as int) =~= bulk_frames(others) + rest);
        assert forall|i: int| 0 <= i < others.len() implies encode_utf8(#[trigger] others[i]).len()
            <= i32::MAX by {
            assert(others[i] == tokens[i + 1]);
        }
        lemma_read_bulk_frames(others, rest);
        assert(seq![ValueView::String(tokens[0])] + string_values(others) =~= string_values(
            tokens,
        ));
    }
}

/// A command frame of no more tokens than a header can count, each short
/// enough for its own header, decodes to the array of the tokens and
/// nothing else.
pub proof fn lemma_decode_command_frame(tokens: Seq<Seq<char>>)
    requires
        tokens.len() <= i32::MAX,
        short_tokens(tokens),
    ensures
        decode_spec(command_frame(tokens)) == Ok::<Seq<ValueView>, Error>(
            seq![ValueView::Vector(string_values(tokens))],
        ),
{
    let digits = digits_of(tokens.len());
    let frame = command_frame(tokens);
    let body = bulk_frames(tokens);
    lemma_digits_of(tokens.len());
    let after = crlf() + body;
    assert(frame.skip(1) =~= digits + after);
    assert(after[0] == 13);
    lemma_digit_run_of(digits, after);
    assert(frame.skip(1).take(digits.len() as int) =~= digits);
    assert(length_spec(frame.skip(1)) == Ok::<(int, i32), Error>(
        (digits.len() as int + 2, tokens.len() as i32),
    ));
    assert(frame.skip(1 + (digits.len() as int + 2)) =~= body + Seq::<u8>::empty());
    lemma_read_bulk_frames(tokens, Seq::<u8>::empty());
    assert(frame[0] == 42);
    assert(array_spec(frame) == Ok::<(int, ValueView), Error>(
        (frame.len() as int, ValueView::Vector(string_values(tokens))),
    ));
    lemma_decode_one_frame(frame, ValueView::Vector(string_values(tokens)));
}

/// Every character is a printable ASCII character or a space.
pub open spec fn plain(s: Seq<char>) -> bool {
    forall|i: int| 0 <= i < s.len() ==> ' ' <= #[trigger] s[i] <= '~'
}

/// The bytes of a plain text hold no CR.
pub proof fn lemma_plain_no_cr(s: Seq<char>)
    requires
        plain(s),
    ensures
        no_cr(encode_utf8(s)),
{
    assert(is_ascii_chars(s)) by {
        assert forall|i: int| 0 <= i < s.len() implies '\0' <= #[trigger] s[i] <= '\u{7f}' by {
            assert(' ' <= s[i] <= '~');
        }
    }
    is_ascii_chars_encode_utf8(s);
    let bytes = encode_utf8(s);
    assert forall|i: int| 0 <= i < bytes.len() implies #[trigger] bytes[i] != 13 by {
        assert(' ' <= s[i] <= '~');
        assert(s[i] as u8 == bytes[i]);
    }
}

/// The label of every operation is plain.
pub proof fn lemma_label_plain(verb: Verb)
    ensures
        plain(verb.spec_label()),
{
    reveal_strlit("ping");
    reveal_strlit("set");
    reveal_strlit("get");
    reveal_strlit("ttl");
    reveal_strlit("del");
    reveal_strlit("expire");
    reveal_strlit("bgrewriteaof");
    reveal_strlit("incr");
}

/// The message of every failure is plain.
pub proof fn lemma_message_plain(e: Error)
    ensures
        plain(e.spec_message()),
{
    match e {
        Error::NoData => {
            reveal_strlit("No data");
        },
        Error::CrossProtocol => {
            reveal_strlit("possible cross protocol scripting attack detected");
        },
        Error::Incomplete => {
            reveal_strlit("incomplete frame");
        },
        Error::InvalidUtf8 => {
            reveal_strlit("invalid utf-8 sequence");
        },
        Error::InvalidNumber => {
            reveal_strlit("invalid number");
        },
        Error::EndOfFile => {
            reveal_strlit("End of file has reached!");
        },
        Error::NotAnArray => {
            reveal_strlit("Value is not a Vec type");
        },
        Error::EmptyCommand => {
            reveal_strlit("empty command");
        },
        Error::WrongArity(verb) => {
            reveal_strlit("ERR wrong number of arguments for '");
            reveal_strlit("' commands");
            lemma_label_plain(verb);
        },
        Error::Syntax => {
            reveal_strlit("ERR syntax error");
        },
        Error::NotAnInteger => {
            reveal_strlit("ERR value is not an integer or out of range");
        },
        Error::WrongType => {
            reveal_strlit("the operation is not permitted on this type");
        },
        Error::WrongData => {
            reveal_strlit("wrong data type for 'incr' command");
        },
    }
}

/// The bytes decode, and to exactly one value.
pub open spec fn one_frame(bytes: Seq<u8>) -> bool {
    decode_spec(bytes) is Ok && decode_spec(bytes)->Ok_0.len() == 1
}

/// Every integer frame of a 64-bit integer decodes to one value.
pub proof fn lemma_int_frame_decodes(i: i64)
    ensures
        one_frame(int_frame(i as int)),
{
    lemma_decode_encode(ValueView::Int64(i));
}

/// Every bulk frame of a string that is short enough decodes to one value.
pub proof fn lemma_bulk_frame_decodes(text: Seq<char>)
    requires
        encode_utf8(text).len() <= i32::MAX,
    ensures
        one_frame(bulk_frame(text)),
{
    lemma_decode_encode(ValueView::String(text));
}

/// Every simple frame of a plain text decodes to one value.
pub proof fn lemma_simple_frame_decodes(text: Seq<char>)
    requires
        plain(text),
    ensures
        one_frame(simple_frame(text)),
{
    lemma_plain_no_cr(text);
    lemma_read_simple_frame(43, text, Seq::<u8>::empty());
    let frame = simple_frame(text);
    assert(frame + Seq::<u8>::empty() =~= frame);
    lemma_decode_one_frame(frame, ValueView::String(text));
}

/// The error frame of every failure decodes to one value.
pub proof fn lemma_error_frame_decodes(e: Error)
    ensures
        one_frame(error_frame(e.spec_message())),
{
    let text = e.spec_message();
    lemma_message_plain(e);
    lemma_plain_no_cr(text);
    lemma_read_simple_frame(45, text, Seq::<u8>::empty());
    let frame = error_frame(text);
    assert(frame + Seq::<u8>::empty() =~= frame);
    lemma_decode_one_frame(frame, ValueView::String(text));
}

/// The fixed replies decode to one value each.
pub proof fn lemma_fixed_replies_decode()
    ensures
        one_frame(RESP_NIL@),
        one_frame(RESP_OK@),
        one_frame(RESP_ZERO@),
        one_frame(RESP_ONE@),
        one_frame(RESP_MINUS_ONE@),
        one_frame(RESP_MINUS_TWO@),
{
    lemma_small_frames();
    lemma_int_frame_decodes(0);
    lemma_int_frame_decodes(1);
    lemma_int_frame_decodes(-1i64);
    lemma_int_frame_decodes(-2i64);
    let ok = seq![79u8, 75u8];
    lemma_ascii_bytes(ok);
    lemma_read_simple_frame(43, ascii_chars(ok), Seq::<u8>::empty());
    assert(RESP_OK@ =~= seq![43u8] + ok + crlf() + Seq::<u8>::empty());
    lemma_decode_one_frame(RESP_OK@, ValueView::String(ascii_chars(ok)));
    let nil = RESP_NIL@;
    let header = nil.skip(1);
    assert(digit_run(header) == 0);
    assert(header.take(0) =~= Seq::<u8>::empty());
    assert(length_spec(header) == Ok::<(int, i32), Error>((2int, 0i32)));
    assert(nil.subrange(3, 3) =~= Seq::<u8>::empty());
    assert(valid_utf8(Seq::<u8>::empty()));
    assert(decode_utf8(Seq::<u8>::empty()) =~= Seq::<char>::empty());
    assert(bulk_spec(nil) == Ok::<(int, ValueView), Error>(
        (5int, ValueView::String(Seq::<char>::empty())),
    ));
    lemma_decode_one_frame(nil, ValueView::String(Seq::<char>::empty()));
}

/// What `encode` writes as a bulk reply for any value decodes to one value,
/// a string being short enough for its length to fit the header.
pub proof fn lemma_encoded_value_decodes(value: ValueView)
    requires
        value is String ==> encode_utf8(value->String_0).len() <= i32::MAX,
    ensures
        one_frame(encode_spec(value, false)),
{
    lemma_fixed_replies_decode();
    match value {
        ValueView::String(text) => {
            lemma_bulk_frame_decodes(text);
        },
        ValueView::Int64(i) => {
            lemma_int_frame_decodes(i);
        },
        ValueView::Int32(i) => {
            lemma_int_frame_decodes(i as i64);
        },
        _ => {},
    }
}

} // verus!
