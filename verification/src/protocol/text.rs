//! Conversions between Rust strings and the bytes that carry them on the
//! wire. A string's content is its sequence of characters; its bytes are the
//! UTF-8 encoding of that sequence.

use vstd::prelude::*;
use vstd::string::StringExecFns;
use vstd::utf8::{
    decode_utf8, encode_utf8, encode_utf8_decode_utf8, encode_utf8_valid_utf8, is_ascii_chars,
    is_ascii_chars_encode_utf8, valid_utf8,
};
use crate::common::strings_view;
use crate::protocol::decimal::{decimal, digits_of, format_i64, is_digit, lemma_digits_of};

verus! {

/// Upper-case form of a string as the standard library computes it.
pub uninterp spec fn uppercase_of(s: Seq<char>) -> Seq<char>;

/// Every byte is below 128.
pub open spec fn is_ascii_bytes(bytes: Seq<u8>) -> bool {
    forall|i: int| 0 <= i < bytes.len() ==> #[trigger] bytes[i] < 128
}

/// The characters that ASCII bytes stand for, one per byte.
pub open spec fn ascii_chars(bytes: Seq<u8>) -> Seq<char> {
    Seq::new(bytes.len(), |i: int| bytes[i] as char)
}

/// `String::from_utf8` of the standard library: `Some` string whose UTF-8
/// encoding is exactly `bytes` where `bytes` is valid UTF-8, else `None`.
#[verifier::external_body]
pub(crate) fn string_from_utf8(bytes: Vec<u8>) -> (r: Option<String>)
    ensures
        match r {
            Some(s) => valid_utf8(bytes@) && s@ == decode_utf8(bytes@),
            None => !valid_utf8(bytes@),
        },
{
    String::from_utf8(bytes).ok()
}

/// `str::to_uppercase` of the standard library. The contract only gives the
/// result its name: the Unicode case tables are not restated.
#[verifier::external_body]
fn to_uppercase(s: &str) -> (r: String)
    ensures
        r@ == uppercase_of(s@),
{
    s.to_uppercase()
}

/// ASCII bytes are valid UTF-8 and encode one character per byte.
pub proof fn lemma_ascii_bytes(bytes: Seq<u8>)
    requires
        is_ascii_bytes(bytes),
    ensures
        valid_utf8(bytes),
        decode_utf8(bytes) == ascii_chars(bytes),
        encode_utf8(ascii_chars(bytes)) == bytes,
{
    let chars = ascii_chars(bytes);
    assert(is_ascii_chars(chars)) by {
        assert forall|i: int| 0 <= i < chars.len() implies '\0' <= #[trigger] chars[i]
            <= '\u{7f}' by {
            assert(bytes[i] < 128);
        }
    }
    is_ascii_chars_encode_utf8(chars);
    assert(encode_utf8(chars) =~= bytes) by {
        assert forall|i: int| 0 <= i < bytes.len() implies encode_utf8(chars)[i] == bytes[i] by {
            assert(bytes[i] < 128);
            assert(chars[i] as u8 == encode_utf8(chars)[i]);
        }
    }
    encode_utf8_valid_utf8(chars);
    encode_utf8_decode_utf8(chars);
}

/// The upper-case form of an ASCII letter, any other byte as it is.
pub open spec fn upper_byte(b: u8) -> u8 {
    if 97 <= b <= 122 {
        (b - 32) as u8
    } else {
        b
    }
}

/// An ASCII text with every small letter replaced by its capital.
pub open spec fn ascii_upper(s: Seq<char>) -> Seq<char> {
    Seq::new(s.len(), |i: int| upper_byte(s[i] as u8) as char)
}

/// The upper-case form of a text: for an ASCII text the capitals of its
/// letters, for any other what the standard library makes of it.
pub open spec fn upper(s: Seq<char>) -> Seq<char> {
    if is_ascii_chars(s) {
        ascii_upper(s)
    } else {
        uppercase_of(s)
    }
}

/// An ASCII text without small letters is its own upper-case form.
pub proof fn lemma_upper_of_capitals(s: Seq<char>)
    requires
        is_ascii_chars(s),
        forall|i: int| 0 <= i < s.len() ==> !('a' <= #[trigger] s[i] <= 'z'),
    ensures
        upper(s) == s,
{
    assert forall|i: int| 0 <= i < s.len() implies upper_byte(s[i] as u8) as char == s[i] by {
        assert('\0' <= s[i] <= '\u{7f}');
        assert(!('a' <= s[i] <= 'z'));
    }
    assert(ascii_upper(s) =~= s);
}

/// The upper-case form of an ASCII text is ASCII, as long as the text, and
/// its own upper-case form: texts that differ in the case of their letters
/// only have the same upper-case form.
pub proof fn lemma_upper_ascii(s: Seq<char>)
    requires
        is_ascii_chars(s),
    ensures
        is_ascii_chars(upper(s)),
        upper(s).len() == s.len(),
        upper(upper(s)) == upper(s),
{
    let u = ascii_upper(s);
    assert forall|i: int| 0 <= i < u.len() implies '\0' <= #[trigger] u[i] <= '\u{7f}'
        && upper_byte(u[i] as u8) as char == u[i] by {
        assert('\0' <= s[i] <= '\u{7f}');
    }
    assert(ascii_upper(u) =~= u);
}

/// The string that ASCII bytes spell.
pub(crate) fn ascii_string(bytes: Vec<u8>) -> (r: String)
    requires
        is_ascii_bytes(bytes@),
    ensures
        r@ == ascii_chars(bytes@),
        r@ == decode_utf8(bytes@),
        encode_utf8(r@) == bytes@,
{
    proof {
        lemma_ascii_bytes(bytes@);
    }
    match string_from_utf8(bytes) {
        Some(s) => s,
        None => String::new(),
    }
}

/// The upper-case form of a string.
pub fn upper_case(s: &str) -> (r: String)
    ensures
        r@ == upper(s@),
{
    if s.is_ascii() {
        let bytes = s.as_bytes();
        proof {
            is_ascii_chars_encode_utf8(s@);
        }
        let mut out: Vec<u8> = Vec::new();
        let mut i: usize = 0;
        while i < bytes.len()
            invariant
                i <= bytes@.len(),
                bytes@.len() == s@.len(),
                is_ascii_chars(s@),
                forall|j: int| 0 <= j < bytes@.len() ==> s@[j] as u8 == #[trigger] bytes@[j],
                out@.len() == i,
                forall|j: int| 0 <= j < i ==> #[trigger] out@[j] == upper_byte(bytes@[j]),
                is_ascii_bytes(out@),
            decreases bytes@.len() - i,
        {
            let b = bytes[i];
            assert('\0' <= s@[i as int] <= '\u{7f}');
            assert(b < 128);
            if 97 <= b && b <= 122 {
                out.push(b - 32);
            } else {
                out.push(b);
            }
            i += 1;
        }
        let ghost upper_bytes = out@;
        let r = ascii_string(out);
        assert(r@ =~= ascii_upper(s@)) by {
            assert forall|j: int| 0 <= j < s@.len() implies r@[j] == ascii_upper(s@)[j] by {
                assert(upper_bytes[j] == upper_byte(bytes@[j]));
            }
        }
        r
    } else {
        to_uppercase(s)
    }
}

/// The UTF-8 bytes of a string.
pub fn string_bytes(s: &String) -> (r: Vec<u8>)
    ensures
        r@ == encode_utf8(s@),
{
    vstd::slice::slice_to_vec(s.as_str().as_bytes())
}

/// The decimal text of an integer, as characters.
pub open spec fn decimal_text(i: int) -> Seq<char> {
    ascii_chars(decimal(i))
}

/// The decimal text of an integer is ASCII.
pub proof fn lemma_decimal_ascii(i: int)
    ensures
        is_ascii_bytes(decimal(i)),
        encode_utf8(decimal_text(i)) == decimal(i),
{
    let d = decimal(i);
    if i < 0 {
        lemma_digits_of((-i) as nat);
        let digits = digits_of((-i) as nat);
        assert forall|j: int| 0 <= j < d.len() implies #[trigger] d[j] < 128 by {
            if j > 0 {
                assert(d[j] == digits[j - 1]);
                assert(is_digit(digits[j - 1]));
            }
        }
    } else {
        lemma_digits_of(i as nat);
        assert forall|j: int| 0 <= j < d.len() implies #[trigger] d[j] < 128 by {
            assert(is_digit(d[j]));
        }
    }
    lemma_ascii_bytes(d);
}

/// The decimal text of an integer, as a string.
pub fn decimal_string(i: i64) -> (r: String)
    ensures
        r@ == decimal_text(i as int),
        encode_utf8(r@) == decimal(i as int),
{
    proof {
        lemma_decimal_ascii(i as int);
    }
    ascii_string(format_i64(i))
}

/// The parts in order with a comma and a space between neighbours.
pub open spec fn join_text(parts: Seq<Seq<char>>) -> Seq<char>
    decreases parts.len(),
{
    if parts.len() == 0 {
        Seq::<char>::empty()
    } else if parts.len() == 1 {
        parts[0]
    } else {
        join_text(parts.drop_last()) + ", "@ + parts.last()
    }
}

/// Joins strings with a comma and a space between neighbours.
pub fn join(parts: &Vec<String>) -> (r: String)
    ensures
        r@ == join_text(strings_view(parts@)),
{
    let ghost views = strings_view(parts@);
    let mut out = String::new();
    let mut i: usize = 0;
    assert(views.take(0) =~= Seq::<Seq<char>>::empty());
    while i < parts.len()
        invariant
            i <= parts@.len(),
            views == strings_view(parts@),
            out@ == join_text(views.take(i as int)),
        decreases parts@.len() - i,
    {
        let ghost before = views.take(i as int);
        let ghost after = views.take(i + 1);
        assert(after.drop_last() =~= before);
        assert(after.last() == parts@[i as int]@);
        if i > 0 {
            out.append(", ");
        }
        out.append(parts[i].as_str());
        assert(out@ =~= join_text(after));
        i += 1;
    }
    assert(views.take(i as int) =~= views);
    out
}

} // verus!
