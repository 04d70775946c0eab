//! Decimal ASCII text for integers: the form in which the protocol carries
//! lengths, counts and integer values, and in which the store keeps counters.

use vstd::prelude::*;

verus! {

/// The byte is an ASCII decimal digit.
pub open spec fn is_digit(b: u8) -> bool {
    48 <= b <= 57
}

/// Every byte of `s` is an ASCII decimal digit.
pub open spec fn all_digits(s: Seq<u8>) -> bool {
    forall|i: int| 0 <= i < s.len() ==> is_digit(#[trigger] s[i])
}

/// The number that a run of digits denotes, most significant digit first.
/// The empty run denotes zero.
pub open spec fn digits_value(s: Seq<u8>) -> nat
    decreases s.len(),
{
    if s.len() == 0 {
        0
    } else {
        (digits_value(s.drop_last()) * 10 + (s.last() - 48)) as nat
    }
}

/// The shortest run of digits that denotes `n`.
pub open spec fn digits_of(n: nat) -> Seq<u8>
    decreases n,
{
    if n < 10 {
        seq![(48 + n) as u8]
    } else {
        digits_of(n / 10).push((48 + n % 10) as u8)
    }
}

/// Decimal text of an integer: a minus sign for negative numbers, then the
/// digits of the magnitude.
pub open spec fn decimal(i: int) -> Seq<u8> {
    if i < 0 {
        seq![45u8] + digits_of((-i) as nat)
    } else {
        digits_of(i as nat)
    }
}

/// The integer that `s` denotes as signed decimal text: an optional `+` or
/// `-`, then at least one digit and nothing else.
pub open spec fn parse_int(s: Seq<u8>) -> Option<int> {
    if s.len() == 0 {
        None
    } else if s[0] == 45 {
        if s.len() > 1 && all_digits(s.skip(1)) {
            Some(-(digits_value(s.skip(1)) as int))
        } else {
            None
        }
    } else if s[0] == 43 {
        if s.len() > 1 && all_digits(s.skip(1)) {
            Some(digits_value(s.skip(1)) as int)
        } else {
            None
        }
    } else if all_digits(s) {
        Some(digits_value(s) as int)
    } else {
        None
    }
}

/// `parse_int` restricted to what fits a signed 64-bit integer.
pub open spec fn parse_i64_spec(s: Seq<u8>) -> Option<i64> {
    match parse_int(s) {
        Some(v) => if i64::MIN <= v <= i64::MAX {
            Some(v as i64)
        } else {
            None
        },
        None => None,
    }
}

/// Extending a run of digits never lowers the number it denotes.
pub proof fn lemma_digits_value_prefix(s: Seq<u8>, k: int)
    requires
        0 <= k <= s.len(),
        all_digits(s),
    ensures
        digits_value(s.take(k)) <= digits_value(s),
    decreases s.len() - k,
{
    if k == s.len() {
        assert(s.take(k) =~= s);
    } else {
        lemma_digits_value_prefix(s, k + 1);
        assert(s.take(k + 1).drop_last() =~= s.take(k));
        assert(is_digit(s[k]));
        assert(s.take(k + 1).last() == s[k]);
    }
}

/// The digits of a number are digits, never empty, and denote that number.
pub proof fn lemma_digits_of(n: nat)
    ensures
        digits_of(n).len() >= 1,
        all_digits(digits_of(n)),
        digits_value(digits_of(n)) == n,
    decreases n,
{
    if n < 10 {
        let s = digits_of(n);
        assert(s.drop_last() =~= Seq::<u8>::empty());
        assert(digits_value(s.drop_last()) == 0);
    } else {
        lemma_digits_of(n / 10);
        let p = digits_of(n / 10);
        let s = digits_of(n);
        assert(s.drop_last() =~= p);
        assert forall|i: int| 0 <= i < s.len() implies is_digit(#[trigger] s[i]) by {
            if i < p.len() {
                assert(s[i] == p[i]);
            }
        }
    }
}

/// Reading back the decimal text of an integer gives that integer.
pub proof fn lemma_parse_decimal(i: int)
    ensures
        parse_int(decimal(i)) == Some(i),
{
    if i < 0 {
        let d = digits_of((-i) as nat);
        lemma_digits_of((-i) as nat);
        assert(decimal(i).skip(1) =~= d);
    } else {
        lemma_digits_of(i as nat);
        let d = digits_of(i as nat);
        assert(is_digit(d[0]));
    }
}

/// Decimal text of an unsigned integer.
pub fn format_u64(n: u64) -> (out: Vec<u8>)
    ensures
        out@ == digits_of(n as nat),
{
    let mut out: Vec<u8> = Vec::new();
    let mut rem: u64 = n / 10;
    out.push(48u8 + (n % 10) as u8);
    assert(digits_of(n as nat) =~= (if rem > 0 {
        digits_of(rem as nat)
    } else {
        Seq::<u8>::empty()
    }) + out@);
    while rem > 0
        invariant
            digits_of(n as nat) == (if rem > 0 {
                digits_of(rem as nat)
            } else {
                Seq::<u8>::empty()
            }) + out@,
        decreases rem,
    {
        let ghost before = out@;
        let ghost prev = rem;
        out.insert(0, 48u8 + (rem % 10) as u8);
        rem = rem / 10;
        assert(digits_of(prev as nat) + before =~= (if rem > 0 {
            digits_of(rem as nat)
        } else {
            Seq::<u8>::empty()
        }) + out@);
    }
    out
}

/// Decimal text of a signed integer.
pub fn format_i64(i: i64) -> (out: Vec<u8>)
    ensures
        out@ == decimal(i as int),
{
    if i < 0 {
        let magnitude: u64 = ((-(i + 1)) as u64) + 1;
        let mut out = format_u64(magnitude);
        out.insert(0, 45u8);
        assert(out@ =~= decimal(i as int));
        out
    } else {
        format_u64(i as u64)
    }
}

/// Reads signed decimal text. `None` where the text is not an optional sign
/// followed by digits only, or denotes a number outside the 64-bit range.
pub fn parse_i64(s: &[u8]) -> (r: Option<i64>)
    ensures
        r == parse_i64_spec(s@),
{
    let n = s.len();
    if n == 0 {
        return None;
    }
    let negative = s[0] == 45u8;
    let start: usize = if s[0] == 45u8 || s[0] == 43u8 {
        1
    } else {
        0
    };
    if start == n {
        return None;
    }
    let limit: u64 = if negative {
        9223372036854775808u64
    } else {
        9223372036854775807u64
    };
    let ghost tail = s@.skip(start as int);
    let mut acc: u64 = 0;
    let mut i: usize = start;
    assert(s@.subrange(start as int, i as int) =~= Seq::<u8>::empty());
    while i < n
        invariant
            start <= i <= n,
            n == s@.len(),
            tail == s@.skip(start as int),
            limit == (if s@[0] == 45u8 {
                9223372036854775808u64
            } else {
                9223372036854775807u64
            }),
            n > 0,
            start == (if s@[0] == 45u8 || s@[0] == 43u8 {
                1int
            } else {
                0int
            }),
            all_digits(s@.subrange(start as int, i as int)),
            acc == digits_value(s@.subrange(start as int, i as int)),
            acc <= limit,
        decreases n - i,
    {
        let b = s[i];
        if b < 48u8 || b > 57u8 {
            assert(tail[i - start] == b);
            assert(start == 0 ==> tail =~= s@);
            return None;
        }
        let d: u64 = (b - 48u8) as u64;
        let ghost next = s@.subrange(start as int, i + 1);
        assert(next.drop_last() =~= s@.subrange(start as int, i as int));
        assert(next.last() == b);
        assert(all_digits(next)) by {
            assert forall|j: int| 0 <= j < next.len() implies is_digit(#[trigger] next[j]) by {
                if j < next.len() - 1 {
                    assert(next[j] == s@.subrange(start as int, i as int)[j]);
                }
            }
        }
        if acc > (limit - d) / 10 {
            assert(digits_value(next) > limit);
            proof {
                assert(start == 0 ==> tail =~= s@);
                if all_digits(tail) {
                    lemma_digits_value_prefix(tail, i + 1 - start);
                    assert(tail.take(i + 1 - start) =~= next);
                }
            }
            return None;
        }
        acc = acc * 10 + d;
        i += 1;
    }
    assert(s@.subrange(start as int, n as int) =~= tail);
    assert(start == 0 ==> tail =~= s@);
    if negative {
        if acc == 9223372036854775808u64 {
            Some(i64::MIN)
        } else {
            Some(-(acc as i64))
        }
    } else {
        Some(acc as i64)
    }
}

} // verus!
