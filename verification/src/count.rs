//! Reading a count typed by the user: a decimal `i32` with an optional sign,
//! or a default when the text is not one.

use vstd::prelude::*;

verus! {

/// Whether a byte is an ASCII decimal digit.
pub open spec fn is_digit(b: u8) -> bool {
    48 <= b <= 57
}

/// Whether every byte is an ASCII decimal digit.
pub open spec fn all_digits(s: Seq<u8>) -> bool {
    forall|i: int| 0 <= i < s.len() ==> #[trigger] is_digit(s[i])
}

/// The value of a string of decimal digits.
pub open spec fn digits_value(s: Seq<u8>) -> int
    decreases s.len(),
{
    if s.len() == 0 {
        0
    } else {
        digits_value(s.drop_last()) * 10 + (s.last() - 48)
    }
}

/// Whether the text starts with a `+` or `-` sign.
pub open spec fn has_sign(text: Seq<u8>) -> bool {
    text.len() > 0 && (text[0] == 43 || text[0] == 45)
}

/// The text after its sign, if any.
pub open spec fn unsigned_part(text: Seq<u8>) -> Seq<u8> {
    if has_sign(text) {
        text.skip(1)
    } else {
        text
    }
}

/// The number the text spells, signed by its leading `-` if there is one.
pub open spec fn signed_value(text: Seq<u8>) -> int {
    if text.len() > 0 && text[0] == 45 {
        -digits_value(unsigned_part(text))
    } else {
        digits_value(unsigned_part(text))
    }
}

/// The `i32` that a text denotes: an optional `+` or `-`, then one or more
/// ASCII digits, with a value in the `i32` range; `None` for any other text.
pub open spec fn decimal_i32(text: Seq<u8>) -> Option<i32> {
    if unsigned_part(text).len() > 0 && all_digits(unsigned_part(text)) && i32::MIN <= signed_value(
        text,
    ) <= i32::MAX {
        Some(signed_value(text) as i32)
    } else {
        None
    }
}

/// Dropping the last byte of a digit string leaves a digit string.
proof fn lemma_all_digits_drop_last(s: Seq<u8>)
    requires
        all_digits(s),
        s.len() > 0,
    ensures
        all_digits(s.drop_last()),
        is_digit(s.last()),
{
    assert forall|i: int| 0 <= i < s.drop_last().len() implies #[trigger] is_digit(
        s.drop_last()[i],
    ) by {
        assert(is_digit(s[i]));
    }
    assert(is_digit(s[s.len() - 1]));
}

/// A string of digits is worth at least any of its prefixes.
proof fn lemma_digits_prefix(s: Seq<u8>, k: int)
    requires
        0 <= k <= s.len(),
        all_digits(s),
    ensures
        0 <= digits_value(s.subrange(0, k)) <= digits_value(s),
    decreases s.len(),
{
    if s.len() > 0 {
        lemma_all_digits_drop_last(s);
        if k < s.len() {
            assert(s.drop_last().subrange(0, k) == s.subrange(0, k));
            lemma_digits_prefix(s.drop_last(), k);
        } else {
            assert(s.subrange(0, k) == s);
            assert(s.drop_last().subrange(0, s.len() - 1) == s.drop_last());
            lemma_digits_prefix(s.drop_last(), s.len() - 1);
        }
    } else {
        assert(s.subrange(0, k) == s);
    }
}

/// Reads the text as an `i32` the way `str::parse::<i32>` does.
pub fn parse_i32(text: &[u8]) -> (value: Option<i32>)
    ensures
        value == decimal_i32(text@),
{
    let n = text.len();
    let negative = n > 0 && text[0] == 45;
    let start: usize = if n > 0 && (text[0] == 43 || text[0] == 45) {
        1
    } else {
        0
    };
    let ghost body = unsigned_part(text@);
    proof {
        assert(body == text@.subrange(start as int, n as int));
    }
    if start == n {
        return None;
    }
    let mut magnitude: u64 = 0;
    let mut i: usize = start;
    while i < n
        invariant
            n == text@.len(),
            start <= i <= n,
            body == text@.subrange(start as int, n as int),
            body == unsigned_part(text@),
            all_digits(body.subrange(0, i - start)),
            magnitude == digits_value(body.subrange(0, i - start)),
            magnitude <= 2147483648,
        decreases n - i,
    {
        let b = text[i];
        if b < 48 || b > 57 {
            proof {
                assert(!is_digit(body[i - start]));
            }
            return None;
        }
        proof {
            let prefix = body.subrange(0, i + 1 - start);
            assert(prefix.drop_last() == body.subrange(0, i - start));
            assert(prefix.last() == b);
            assert(all_digits(prefix)) by {
                assert forall|j: int| 0 <= j < prefix.len() implies #[trigger] is_digit(
                    prefix[j],
                ) by {
                    if j < prefix.len() - 1 {
                        assert(prefix[j] == body.subrange(0, i - start)[j]);
                    }
                }
            }
        }
        magnitude = magnitude * 10 + (b - 48) as u64;
        if magnitude > 2147483648 {
            proof {
                if all_digits(body) {
                    lemma_digits_prefix(body, i + 1 - start);
                }
            }
            return None;
        }
        i = i + 1;
    }
    proof {
        assert(body.subrange(0, n - start) == body);
    }
    let signed: i64 = if negative {
        -(magnitude as i64)
    } else {
        magnitude as i64
    };
    if signed > 2147483647 {
        None
    } else {
        Some(signed as i32)
    }
}

/// The count a text denotes, or `default` when it denotes none.
pub fn count_or(text: &[u8], default: i32) -> (count: i32)
    ensures
        count == match decimal_i32(text@) {
            Some(v) => v,
            None => default,
        },
{
    match parse_i32(text) {
        Some(v) => v,
        None => default,
    }
}

} // verus!
