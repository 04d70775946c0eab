//! The wire codec: frames of the protocol to values and back.
//!
//! Five frame types exist, each introduced by one byte: `+` simple string,
//! `-` error, `:` integer, `$` bulk string and `*` array. Headers and simple
//! payloads end in CR LF.

use vstd::prelude::*;
use vstd::slice::{slice_subrange, slice_to_vec};
use vstd::utf8::{decode_utf8, encode_utf8, valid_utf8};
use crate::common::{lemma_vector_view, strings_view, values_view, Value, ValueView};
use crate::error::Error;
use crate::protocol::decimal::{
    all_digits, decimal, digits_of, digits_value, format_i64, format_u64, is_digit, parse_i64,
    parse_i64_spec,
};
use crate::protocol::text::{string_bytes, string_from_utf8};

verus! {

pub const RESP_NIL: [u8; 5] = [36, 45, 49, 13, 10];

pub const RESP_OK: [u8; 5] = [43, 79, 75, 13, 10];

pub const RESP_ZERO: [u8; 4] = [58, 48, 13, 10];

pub const RESP_ONE: [u8; 4] = [58, 49, 13, 10];

pub const RESP_MINUS_ONE: [u8; 5] = [58, 45, 49, 13, 10];

pub const RESP_MINUS_TWO: [u8; 5] = [58, 45, 50, 13, 10];

/// The two bytes that end a header or a payload.
pub open spec fn crlf() -> Seq<u8> {
    seq![13u8, 10u8]
}

/// `+<text>\r\n`
pub open spec fn simple_frame(s: Seq<char>) -> Seq<u8> {
    seq![43u8] + encode_utf8(s) + crlf()
}

/// `$<length>\r\n<bytes>\r\n`, the length counting bytes.
pub open spec fn bulk_frame(s: Seq<char>) -> Seq<u8> {
    seq![36u8] + digits_of(encode_utf8(s).len()) + crlf() + encode_utf8(s) + crlf()
}

/// `:<decimal>\r\n`
pub open spec fn int_frame(i: int) -> Seq<u8> {
    seq![58u8] + decimal(i) + crlf()
}

/// `-<text>\r\n`
pub open spec fn error_frame(s: Seq<char>) -> Seq<u8> {
    seq![45u8] + encode_utf8(s) + crlf()
}

/// The reply bytes for a value: a string as a simple or a bulk frame, an
/// integer as an integer frame, anything else as the nil bulk string.
pub open spec fn encode_spec(value: ValueView, simple: bool) -> Seq<u8> {
    match value {
        ValueView::String(s) => if simple {
            simple_frame(s)
        } else {
            bulk_frame(s)
        },
        ValueView::Int64(i) => int_frame(i as int),
        ValueView::Int32(i) => int_frame(i as int),
        _ => RESP_NIL@,
    }
}

/// How many digits `s` starts with.
pub open spec fn digit_run(s: Seq<u8>) -> nat
    decreases s.len(),
{
    if s.len() == 0 || !is_digit(s[0]) {
        0
    } else {
        1 + digit_run(s.drop_first())
    }
}

/// How many bytes of `s` stand before its first CR; all of them where it has
/// none.
pub open spec fn until_cr(s: Seq<u8>) -> nat
    decreases s.len(),
{
    if s.len() == 0 || s[0] == 13 {
        0
    } else {
        1 + until_cr(s.drop_first())
    }
}

/// A length header, read from the byte after the type prefix: the digits up
/// to the first other byte, then two bytes that are skipped. Gives the
/// number of bytes read and the length.
pub open spec fn length_spec(s: Seq<u8>) -> Result<(int, i32), Error> {
    let e = digit_run(s) as int;
    if e + 2 > s.len() {
        Err(Error::Incomplete)
    } else if digits_value(s.take(e)) > i32::MAX {
        Err(Error::InvalidNumber)
    } else {
        Ok((e + 2, digits_value(s.take(e)) as i32))
    }
}

/// A simple string or error frame at the start of `s`.
pub open spec fn simple_spec(s: Seq<u8>) -> Result<(int, ValueView), Error> {
    if s.len() == 0 {
        Err(Error::NoData)
    } else {
        let e = until_cr(s.skip(1)) as int;
        let bytes = s.subrange(1, 1 + e);
        if e + 3 > s.len() {
            Err(Error::Incomplete)
        } else if !valid_utf8(bytes) {
            Err(Error::InvalidUtf8)
        } else {
            Ok((e + 3, ValueView::String(decode_utf8(bytes))))
        }
    }
}

/// An integer frame at the start of `s`. An empty payload reads as zero.
pub open spec fn int_spec(s: Seq<u8>) -> Result<(int, ValueView), Error> {
    if s.len() == 0 {
        Err(Error::NoData)
    } else {
        let e = until_cr(s.skip(1)) as int;
        let token = s.subrange(1, 1 + e);
        if e + 3 > s.len() {
            Err(Error::Incomplete)
        } else if e == 0 {
            Ok((3int, ValueView::Int64(0)))
        } else {
            match parse_i64_spec(token) {
                Some(v) => Ok((e + 3, ValueView::Int64(v))),
                None => Err(Error::InvalidNumber),
            }
        }
    }
}

/// A bulk string frame at the start of `s`. A header that declares a
/// negative length reads as length zero: the nil bulk string decodes to the
/// empty string.
pub open spec fn bulk_spec(s: Seq<u8>) -> Result<(int, ValueView), Error> {
    if s.len() == 0 {
        Err(Error::NoData)
    } else {
        match length_spec(s.skip(1)) {
            Err(e) => Err(e),
            Ok((d, len)) => {
                let start = 1 + d;
                let bytes = s.subrange(start, start + len);
                if start + len + 2 > s.len() {
                    Err(Error::Incomplete)
                } else if !valid_utf8(bytes) {
                    Err(Error::InvalidUtf8)
                } else {
                    Ok((start + len + 2, ValueView::String(decode_utf8(bytes))))
                }
            },
        }
    }
}

/// One frame of any type at the start of `s`: the number of bytes it takes
/// and the value it holds.
pub open spec fn value_spec(s: Seq<u8>) -> Result<(int, ValueView), Error>
    decreases s.len(), 2nat, 0nat,
{
    if s.len() == 0 {
        Err(Error::NoData)
    } else if s[0] == 43 || s[0] == 45 {
        simple_spec(s)
    } else if s[0] == 58 {
        int_spec(s)
    } else if s[0] == 36 {
        bulk_spec(s)
    } else if s[0] == 42 {
        array_spec(s)
    } else {
        Err(Error::CrossProtocol)
    }
}

/// An array frame at the start of `s`: the count, then that many frames.
pub open spec fn array_spec(s: Seq<u8>) -> Result<(int, ValueView), Error>
    decreases s.len(), 1nat, 0nat,
{
    if s.len() == 0 {
        Err(Error::NoData)
    } else {
        match length_spec(s.skip(1)) {
            Err(e) => Err(e),
            Ok((d, count)) => match elements_spec(s.skip(1 + d), count as nat) {
                Ok((n, elems)) => Ok((1 + d + n, ValueView::Vector(elems))),
                Err(e) => Err(e),
            },
        }
    }
}

/// `count` frames in a row at the start of `s`: the bytes they take together
/// and their values in order.
pub open spec fn elements_spec(s: Seq<u8>, count: nat) -> Result<(int, Seq<ValueView>), Error>
    decreases s.len(), 3nat, count,
{
    if count == 0 {
        Ok((0int, Seq::<ValueView>::empty()))
    } else {
        match value_spec(s) {
            Err(e) => Err(e),
            Ok((n, v)) => if 0 < n <= s.len() {
                join_elements(seq![v], n, elements_spec(s.skip(n), (count - 1) as nat))
            } else {
                Err(Error::Incomplete)
            },
        }
    }
}

/// Puts what was read before in front of what is read after.
pub open spec fn join_elements(
    done: Seq<ValueView>,
    used: int,
    rest: Result<(int, Seq<ValueView>), Error>,
) -> Result<(int, Seq<ValueView>), Error> {
    match rest {
        Ok((n, values)) => Ok((used + n, done + values)),
        Err(e) => Err(e),
    }
}

/// All the frames of a buffer that holds nothing else, in order.
pub open spec fn values_spec(s: Seq<u8>) -> Result<Seq<ValueView>, Error>
    decreases s.len(),
{
    if s.len() == 0 {
        Ok(Seq::<ValueView>::empty())
    } else {
        match value_spec(s) {
            Err(e) => Err(e),
            Ok((n, v)) => if 0 < n <= s.len() {
                join_values(seq![v], values_spec(s.skip(n)))
            } else {
                Err(Error::Incomplete)
            },
        }
    }
}

/// Puts what was read before in front of what is read after.
pub open spec fn join_values(done: Seq<ValueView>, rest: Result<Seq<ValueView>, Error>) -> Result<
    Seq<ValueView>,
    Error,
> {
    match rest {
        Ok(values) => Ok(done + values),
        Err(e) => Err(e),
    }
}

/// What decoding a buffer gives: the values of all its frames, or the first
/// failure. An empty buffer is a failure.
pub open spec fn decode_spec(s: Seq<u8>) -> Result<Seq<ValueView>, Error> {
    if s.len() == 0 {
        Err(Error::NoData)
    } else {
        values_spec(s)
    }
}

/// The frame that carries a command: an array of bulk strings.
pub open spec fn command_frame(tokens: Seq<Seq<char>>) -> Seq<u8> {
    seq![42u8] + digits_of(tokens.len()) + crlf() + bulk_frames(tokens)
}

/// The bulk frames of the tokens, one after the other.
pub open spec fn bulk_frames(tokens: Seq<Seq<char>>) -> Seq<u8>
    decreases tokens.len(),
{
    if tokens.len() == 0 {
        Seq::<u8>::empty()
    } else {
        bulk_frames(tokens.drop_last()) + bulk_frame(tokens.last())
    }
}

/// The nil bulk string.
pub fn nil() -> (out: Vec<u8>)
    ensures
        out@ == RESP_NIL@,
{
    let out = slice_to_vec(RESP_NIL.as_slice());
    out
}

/// Counts the digits that `data` starts with.
fn scan_digits(data: &[u8]) -> (e: usize)
    ensures
        e == digit_run(data@),
        e <= data@.len(),
{
    let mut i: usize = 0;
    assert(data@.skip(0) =~= data@);
    while i < data.len() && data[i] >= 48u8 && data[i] <= 57u8
        invariant
            i <= data@.len(),
            digit_run(data@) == i + digit_run(data@.skip(i as int)),
        decreases data@.len() - i,
    {
        assert(data@.skip(i as int).drop_first() =~= data@.skip(i + 1));
        i += 1;
    }
    i
}

/// Counts the bytes from `from` on that stand before the next CR.
fn scan_cr(data: &[u8], from: usize) -> (e: usize)
    requires
        from <= data@.len(),
    ensures
        e == until_cr(data@.skip(from as int)),
        from + e <= data@.len(),
{
    let mut i: usize = from;
    assert(data@.skip(from as int).skip(0) =~= data@.skip(from as int));
    while i < data.len() && data[i] != 13u8
        invariant
            from <= i <= data@.len(),
            until_cr(data@.skip(from as int)) == (i - from) + until_cr(data@.skip(i as int)),
        decreases data@.len() - i,
    {
        assert(data@.skip(i as int).drop_first() =~= data@.skip(i + 1));
        i += 1;
    }
    i - from
}

/// Reads a length header from the byte after the type prefix.
pub fn read_length(data: &[u8]) -> (r: Result<(usize, i32), Error>)
    ensures
        match r {
            Ok((n, len)) => length_spec(data@) == Ok::<(int, i32), Error>((n as int, len)) && 2
                <= n <= data@.len() && len >= 0,
            Err(e) => length_spec(data@) == Err::<(int, i32), Error>(e),
        },
{
    let e = scan_digits(data);
    if data.len() - e < 2 {
        return Err(Error::Incomplete);
    }
    if e == 0 {
        assert(data@.take(0) =~= Seq::<u8>::empty());
        return Ok((2, 0));
    }
    let token = slice_subrange(data, 0, e);
    proof {
        lemma_digit_run(data@);
        assert(token@ =~= data@.take(e as int));
        assert(is_digit(token@[0]));
    }
    match parse_i64(token) {
        Some(v) => {
            if v > 2147483647 {
                Err(Error::InvalidNumber)
            } else {
                Ok((e + 2, v as i32))
            }
        },
        None => Err(Error::InvalidNumber),
    }
}

/// The digits that `s` starts with are digits, and what follows them is
/// none.
pub proof fn lemma_digit_run(s: Seq<u8>)
    ensures
        digit_run(s) <= s.len(),
        all_digits(s.take(digit_run(s) as int)),
        digit_run(s) < s.len() ==> !is_digit(s[digit_run(s) as int]),
    decreases s.len(),
{
    if s.len() == 0 || !is_digit(s[0]) {
    } else {
        let t = s.drop_first();
        lemma_digit_run(t);
        let e = digit_run(s) as int;
        assert forall|i: int| 0 <= i < e implies is_digit(#[trigger] s.take(e)[i]) by {
            if i > 0 {
                assert(s.take(e)[i] == t.take(e - 1)[i - 1]);
            }
        }
    }
}

/// What a reader's result says: the bytes consumed and the content of the
/// value, or the failure.
pub open spec fn frame_result(r: Result<(usize, Value), Error>) -> Result<(int, ValueView), Error> {
    match r {
        Ok((n, v)) => Ok((n as int, v@)),
        Err(e) => Err(e),
    }
}

/// A successful read consumed at least one byte and no more than there are.
pub open spec fn within(r: Result<(usize, Value), Error>, len: nat) -> bool {
    match r {
        Ok((n, _)) => 0 < n <= len,
        Err(_) => true,
    }
}

/// Reads a simple string frame: the bytes between the prefix and the first
/// CR, then two bytes that are skipped.
pub fn read_simple_string(data: &[u8]) -> (r: Result<(usize, Value), Error>)
    ensures
        frame_result(r) == simple_spec(data@),
        within(r, data@.len()),
{
    if data.len() == 0 {
        return Err(Error::NoData);
    }
    let e = scan_cr(data, 1);
    if data.len() - e < 3 {
        return Err(Error::Incomplete);
    }
    let bytes = slice_to_vec(slice_subrange(data, 1, 1 + e));
    match string_from_utf8(bytes) {
        Some(s) => Ok((e + 3, Value::String(s))),
        None => Err(Error::InvalidUtf8),
    }
}

/// Reads an error frame, which has the shape of a simple string.
pub fn read_error(data: &[u8]) -> (r: Result<(usize, Value), Error>)
    ensures
        frame_result(r) == simple_spec(data@),
        within(r, data@.len()),
{
    read_simple_string(data)
}

/// Reads an integer frame.
pub fn read_i64(data: &[u8]) -> (r: Result<(usize, Value), Error>)
    ensures
        frame_result(r) == int_spec(data@),
        within(r, data@.len()),
{
    if data.len() == 0 {
        return Err(Error::NoData);
    }
    let e = scan_cr(data, 1);
    if data.len() - e < 3 {
        return Err(Error::Incomplete);
    }
    if e == 0 {
        return Ok((3, Value::Int64(0)));
    }
    match parse_i64(slice_subrange(data, 1, 1 + e)) {
        Some(v) => Ok((e + 3, Value::Int64(v))),
        None => Err(Error::InvalidNumber),
    }
}

/// Reads a bulk string frame.
pub fn read_bulk_string(data: &[u8]) -> (r: Result<(usize, Value), Error>)
    ensures
        frame_result(r) == bulk_spec(data@),
        within(r, data@.len()),
{
    if data.len() == 0 {
        return Err(Error::NoData);
    }
    let (delta, len) = match read_length(slice_subrange(data, 1, data.len())) {
        Ok(header) => header,
        Err(e) => {
            return Err(e);
        },
    };
    assert(data@.subrange(1, data@.len() as int) =~= data@.skip(1));
    let start = 1 + delta;
    let len = len as usize;
    if data.len() - start < len || data.len() - start - len < 2 {
        return Err(Error::Incomplete);
    }
    let bytes = slice_to_vec(slice_subrange(data, start, start + len));
    match string_from_utf8(bytes) {
        Some(s) => Ok((start + len + 2, Value::String(s))),
        None => Err(Error::InvalidUtf8),
    }
}

/// Reads an array frame and the frames of its elements.
pub fn read_array(data: &[u8]) -> (r: Result<(usize, Value), Error>)
    ensures
        frame_result(r) == array_spec(data@),
        within(r, data@.len()),
    decreases data@.len(), 0nat,
{
    if data.len() == 0 {
        return Err(Error::NoData);
    }
    let (delta, count) = match read_length(slice_subrange(data, 1, data.len())) {
        Ok(header) => header,
        Err(e) => {
            return Err(e);
        },
    };
    assert(data@.subrange(1, data@.len() as int) =~= data@.skip(1));
    let start: usize = 1 + delta;
    let mut pos: usize = start;
    let mut elems: Vec<Value> = Vec::new();
    let mut k: i32 = 0;
    let ghost body = data@.skip(start as int);
    assert(values_view(elems@) + elements_spec(body, count as nat)->Ok_0.1 =~= elements_spec(
        body,
        count as nat,
    )->Ok_0.1);
    while k < count
        invariant
            0 <= k <= count,
            1 <= start <= pos <= data@.len(),
            body == data@.skip(start as int),
            start == 1 + delta,
            length_spec(data@.skip(1)) == Ok::<(int, i32), Error>((delta as int, count)),
            elements_spec(body, count as nat) == join_elements(
                values_view(elems@),
                pos - start,
                elements_spec(data@.skip(pos as int), (count - k) as nat),
            ),
        decreases count - k,
    {
        let ghost tail = data@.skip(pos as int);
        let ghost done = values_view(elems@);
        assert(data@.subrange(pos as int, data@.len() as int) =~= tail);
        let (n, value) = match decode_one(slice_subrange(data, pos, data.len())) {
            Ok(element) => element,
            Err(e) => {
                return Err(e);
            },
        };
        proof {
            assert(tail.skip(n as int) =~= data@.skip(pos + n));
            let rest = elements_spec(data@.skip(pos + n), (count - k - 1) as nat);
            if rest is Ok {
                assert((done + seq![value@]) + rest->Ok_0.1 =~= done + (seq![value@]
                    + rest->Ok_0.1));
            }
        }
        elems.push(value);
        assert(values_view(elems@) =~= done + seq![value@]);
        pos = pos + n;
        k = k + 1;
    }
    proof {
        lemma_vector_view(elems);
        assert(values_view(elems@) + Seq::<ValueView>::empty() =~= values_view(elems@));
    }
    Ok((pos, Value::Vector(elems)))
}

/// Reads the one frame that `data` starts with. Gives the number of bytes
/// that it takes, the two closing bytes included, and its value.
pub fn decode_one(data: &[u8]) -> (r: Result<(usize, Value), Error>)
    ensures
        frame_result(r) == value_spec(data@),
        within(r, data@.len()),
    decreases data@.len(), 1nat,
{
    if data.len() == 0 {
        return Err(Error::NoData);
    }
    let prefix = data[0];
    if prefix == 43u8 {
        read_simple_string(data)
    } else if prefix == 45u8 {
        read_error(data)
    } else if prefix == 58u8 {
        read_i64(data)
    } else if prefix == 36u8 {
        read_bulk_string(data)
    } else if prefix == 42u8 {
        read_array(data)
    } else {
        Err(Error::CrossProtocol)
    }
}

/// Reads all the frames of a buffer.
pub fn decode(data: &[u8]) -> (r: Result<Vec<Value>, Error>)
    ensures
        match r {
            Ok(values) => decode_spec(data@) == Ok::<Seq<ValueView>, Error>(values_view(values@)),
            Err(e) => decode_spec(data@) == Err::<Seq<ValueView>, Error>(e),
        },
{
    if data.len() == 0 {
        return Err(Error::NoData);
    }
    let mut values: Vec<Value> = Vec::new();
    let mut index: usize = 0;
    assert(data@.skip(0) =~= data@);
    assert(values_view(values@) + values_spec(data@)->Ok_0 =~= values_spec(data@)->Ok_0);
    while index < data.len()
        invariant
            index <= data@.len(),
            values_spec(data@) == join_values(
                values_view(values@),
                values_spec(data@.skip(index as int)),
            ),
        decreases data@.len() - index,
    {
        let ghost tail = data@.skip(index as int);
        let ghost done = values_view(values@);
        assert(data@.subrange(index as int, data@.len() as int) =~= tail);
        let (n, value) = match decode_one(slice_subrange(data, index, data.len())) {
            Ok(element) => element,
            Err(e) => {
                return Err(e);
            },
        };
        proof {
            assert(tail.skip(n as int) =~= data@.skip(index + n));
            let rest = values_spec(data@.skip(index + n));
            if rest is Ok {
                assert((done + seq![value@]) + rest->Ok_0 =~= done + (seq![value@] + rest->Ok_0));
            }
        }
        values.push(value);
        assert(values_view(values@) =~= done + seq![value@]);
        index = index + n;
    }
    assert(values_view(values@) + Seq::<ValueView>::empty() =~= values_view(values@));
    Ok(values)
}

/// Appends CR LF.
fn push_crlf(out: &mut Vec<u8>)
    ensures
        final(out)@ == old(out)@ + crlf(),
{
    out.push(13u8);
    out.push(10u8);
    assert(out@ =~= old(out)@ + crlf());
}

/// One of the frames that is a prefix byte, a payload and CR LF.
fn line_frame(prefix: u8, payload: Vec<u8>) -> (out: Vec<u8>)
    ensures
        out@ == seq![prefix] + payload@ + crlf(),
{
    let mut out: Vec<u8> = Vec::new();
    let ghost bytes = payload@;
    let mut payload = payload;
    out.push(prefix);
    out.append(&mut payload);
    push_crlf(&mut out);
    assert(out@ =~= seq![prefix] + bytes + crlf());
    out
}

/// Appends the bulk frame of a string.
fn push_bulk(out: &mut Vec<u8>, s: &String)
    ensures
        final(out)@ == old(out)@ + bulk_frame(s@),
{
    let mut bytes = string_bytes(s);
    let mut length = format_u64(bytes.len() as u64);
    let ghost payload = bytes@;
    let ghost digits = length@;
    out.push(36u8);
    out.append(&mut length);
    push_crlf(out);
    out.append(&mut bytes);
    push_crlf(out);
    assert(out@ =~= old(out)@ + (seq![36u8] + digits + crlf() + payload + crlf()));
}

/// The reply bytes for a value: a string as a simple frame where `simple`
/// is set, else as a bulk frame; an integer as an integer frame; any other
/// value as the nil bulk string.
pub fn encode(value: Value, simple: bool) -> (out: Vec<u8>)
    ensures
        out@ == encode_spec(value@, simple),
{
    match value {
        Value::String(s) => {
            if simple {
                line_frame(43u8, string_bytes(&s))
            } else {
                let mut out: Vec<u8> = Vec::new();
                push_bulk(&mut out, &s);
                assert(out@ =~= bulk_frame(s@));
                out
            }
        },
        Value::Int64(i) => line_frame(58u8, format_i64(i)),
        Value::Int32(i) => line_frame(58u8, format_i64(i as i64)),
        _ => nil(),
    }
}

/// The error reply that carries the text of a failure.
pub fn encode_error(error: Error) -> (out: Vec<u8>)
    ensures
        out@ == error_frame(error.spec_message()),
{
    let text = error.message();
    line_frame(45u8, string_bytes(&text))
}

/// The frame that carries a command to a server: an array of bulk strings.
pub fn encode_command(tokens: &Vec<String>) -> (out: Vec<u8>)
    ensures
        out@ == command_frame(strings_view(tokens@)),
{
    let mut out: Vec<u8> = Vec::new();
    let mut count = format_u64(tokens.len() as u64);
    let ghost digits = count@;
    out.push(42u8);
    out.append(&mut count);
    push_crlf(&mut out);
    let ghost header = out@;
    assert(header =~= seq![42u8] + digits + crlf());
    let mut i: usize = 0;
    assert(strings_view(tokens@).take(0) =~= Seq::<Seq<char>>::empty());
    while i < tokens.len()
        invariant
            i <= tokens@.len(),
            out@ == header + bulk_frames(strings_view(tokens@).take(i as int)),
        decreases tokens@.len() - i,
    {
        let ghost before = strings_view(tokens@).take(i as int);
        let ghost after = strings_view(tokens@).take(i + 1);
        assert(after.drop_last() =~= before);
        assert(after.last() == tokens@[i as int]@);
        push_bulk(&mut out, &tokens[i]);
        assert(out@ =~= header + bulk_frames(after));
        i += 1;
    }
    assert(strings_view(tokens@).take(i as int) =~= strings_view(tokens@));
    out
}

} // verus!
